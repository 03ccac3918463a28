//! The errors of the crate, and their mathematical view.

use vstd::prelude::*;

use crate::text::{self, decimal};

verus! {

/// Errors produced by schema handling, serialization, and deserialization.
#[allow(inconsistent_fields)]
#[derive(Debug, PartialEq)]
#[non_exhaustive]
pub enum Error {
    /// The type's shape could not be traced into a schema.
    Untraceable {
        /// Why tracing failed.
        reason: String,
    },
    /// Nesting exceeded the maximum depth. Recursive types are not supported.
    DepthLimitExceeded,
    /// A value did not match the schema it was serialized against.
    SchemaMismatch {
        /// What the schema called for.
        expected: String,
        /// What the value provided.
        found: String,
    },
    /// Input ended before a complete value was read.
    UnexpectedEof,
    /// Input contained bytes beyond the encoded value.
    TrailingBytes,
    /// A string column contained invalid UTF-8.
    InvalidUtf8,
    /// A varint was malformed, not canonically encoded, or overflowed 64 bits.
    InvalidVarint,
    /// A tag, presence byte, or char value was out of range.
    InvalidTag {
        /// What kind of tag was being decoded.
        what: &'static str,
        /// The out-of-range value.
        value: u64,
    },
    /// A row was serialized with fewer fields than the schema requires;
    /// columnar rows must be complete.
    IncompleteRow,
    /// The input declares a newer version than this build reads.
    UnsupportedVersion {
        /// What carries the version.
        what: &'static str,
        /// The version found.
        found: u64,
        /// The newest version this build reads.
        supported: u64,
    },
    /// A count claimed by the input is not justified by the bytes it carries.
    LimitExceeded {
        /// What is being counted.
        what: &'static str,
        /// The claimed count.
        claimed: u64,
        /// The largest count the input could justify.
        limit: u64,
    },
    /// The operation relies on a feature this format cannot support.
    Unsupported(&'static str),
    /// The input is structurally malformed.
    Malformed(&'static str),
    /// An error raised outside the format itself.
    Message(String),
}

/// Convenience alias used throughout the crate.
pub type Result<T, E = Error> = std::result::Result<T, E>;

/// The view of an [`Error`]: the same cases over mathematical values.
pub enum Fault {
    Untraceable(Seq<char>),
    DepthLimitExceeded,
    SchemaMismatch(Seq<char>, Seq<char>),
    UnexpectedEof,
    TrailingBytes,
    InvalidUtf8,
    InvalidVarint,
    InvalidTag(Seq<char>, u64),
    IncompleteRow,
    UnsupportedVersion(Seq<char>, u64, u64),
    LimitExceeded(Seq<char>, u64, u64),
    Unsupported(Seq<char>),
    Malformed(Seq<char>),
    Message(Seq<char>),
}

impl View for Error {
    type V = Fault;

    open spec fn view(&self) -> Fault {
        match *self {
            Error::Untraceable { reason } => Fault::Untraceable(reason@),
            Error::DepthLimitExceeded => Fault::DepthLimitExceeded,
            Error::SchemaMismatch { expected, found } => Fault::SchemaMismatch(expected@, found@),
            Error::UnexpectedEof => Fault::UnexpectedEof,
            Error::TrailingBytes => Fault::TrailingBytes,
            Error::InvalidUtf8 => Fault::InvalidUtf8,
            Error::InvalidVarint => Fault::InvalidVarint,
            Error::InvalidTag { what, value } => Fault::InvalidTag(what@, value),
            Error::IncompleteRow => Fault::IncompleteRow,
            Error::UnsupportedVersion { what, found, supported } => Fault::UnsupportedVersion(
                what@,
                found,
                supported,
            ),
            Error::LimitExceeded { what, claimed, limit } => Fault::LimitExceeded(
                what@,
                claimed,
                limit,
            ),
            Error::Unsupported(what) => Fault::Unsupported(what@),
            Error::Malformed(what) => Fault::Malformed(what@),
            Error::Message(text) => Fault::Message(text@),
        }
    }
}

/// What an error says of itself.
pub open spec fn message(fault: Fault) -> Seq<char> {
    match fault {
        Fault::Untraceable(reason) => "cannot trace schema: "@ + reason,
        Fault::DepthLimitExceeded =>
            "maximum nesting depth exceeded (recursive types are not supported)"@,
        Fault::SchemaMismatch(expected, found) => "schema mismatch: expected "@ + expected
            + ", found "@ + found,
        Fault::UnexpectedEof => "unexpected end of input"@,
        Fault::TrailingBytes => "trailing bytes after value"@,
        Fault::InvalidUtf8 => "invalid utf-8 in string data"@,
        Fault::InvalidVarint => "invalid varint"@,
        Fault::InvalidTag(what, value) => "invalid "@ + what + " value "@ + decimal(value as nat),
        Fault::IncompleteRow =>
            "incomplete row: every field must be serialized (skip_serializing_if is not supported)"@,
        Fault::UnsupportedVersion(what, found, supported) => "unsupported "@ + what + " version "@
            + decimal(found as nat) + ", this build reads up to "@ + decimal(supported as nat),
        Fault::LimitExceeded(what, claimed, limit) => what + " of "@ + decimal(claimed as nat)
            + " exceeds the "@ + decimal(limit as nat) + " that the input can justify"@,
        Fault::Unsupported(what) => "unsupported: "@ + what,
        Fault::Malformed(what) => "malformed input: "@ + what,
        Fault::Message(text) => text,
    }
}

impl Error {
    /// What the error says of itself.
    pub fn to_string(&self) -> (result: String)
        ensures
            result@ == message(self@),
    {
        let mut out = String::new();
        match self {
            Error::Untraceable { reason } => {
                out.append("cannot trace schema: ");
                out.append(reason.as_str());
            },
            Error::DepthLimitExceeded => out.append(
                "maximum nesting depth exceeded (recursive types are not supported)",
            ),
            Error::SchemaMismatch { expected, found } => {
                out.append("schema mismatch: expected ");
                out.append(expected.as_str());
                out.append(", found ");
                out.append(found.as_str());
            },
            Error::UnexpectedEof => out.append("unexpected end of input"),
            Error::TrailingBytes => out.append("trailing bytes after value"),
            Error::InvalidUtf8 => out.append("invalid utf-8 in string data"),
            Error::InvalidVarint => out.append("invalid varint"),
            Error::InvalidTag { what, value } => {
                out.append("invalid ");
                out.append(what);
                out.append(" value ");
                text::push_decimal(&mut out, *value);
            },
            Error::IncompleteRow => out.append(
                "incomplete row: every field must be serialized (skip_serializing_if is not supported)",
            ),
            Error::UnsupportedVersion { what, found, supported } => {
                out.append("unsupported ");
                out.append(what);
                out.append(" version ");
                text::push_decimal(&mut out, *found);
                out.append(", this build reads up to ");
                text::push_decimal(&mut out, *supported);
            },
            Error::LimitExceeded { what, claimed, limit } => {
                out.append(what);
                out.append(" of ");
                text::push_decimal(&mut out, *claimed);
                out.append(" exceeds the ");
                text::push_decimal(&mut out, *limit);
                out.append(" that the input can justify");
            },
            Error::Unsupported(what) => {
                out.append("unsupported: ");
                out.append(what);
            },
            Error::Malformed(what) => {
                out.append("malformed input: ");
                out.append(what);
            },
            Error::Message(text) => out.append(text.as_str()),
        }
        assert(out@ =~= message(self@));
        out
    }
}

} // verus!
