//! Self-describing framing: the schema prepended to the data blob.
//!
//! Frame layout: the magic bytes `CRBN`, a format-version varint, a
//! varint-length-prefixed schema in its stable binary encoding, then the data
//! blob for the remainder of the input.

use std::borrow::Cow;
use std::marker::PhantomData;

use vstd::prelude::*;
use vstd::std_specs::convert::IntoSpec;

use crate::batch::{no_rows, push_row, Serializer};
use crate::blob::{blob, from};
use crate::error::{Error, Fault, Result};
use crate::rows::{foreign_schema, single, single_columns, unread, Deserializer};
use crate::schema::Schema;
use crate::shape::{width_of, Shape};
use crate::static_schema::StaticSchema;
use crate::typed_de::DeserializeColumns;
use crate::typed_ser::{Modeled, SerializeColumns, Walk};
use crate::value::{Val, Value};
use crate::varint;
use crate::wire;

verus! {

/// The bytes that every self-describing frame starts with.
pub const MAGIC: [u8; 4] = [0x43, 0x52, 0x42, 0x4e];

/// The version of the frame layout.
pub const FORMAT_VERSION: u64 = 1;

/// The magic bytes.
pub open spec fn magic() -> Seq<u8> {
    seq![0x43u8, 0x52u8, 0x42u8, 0x4eu8]
}

/// The frame that holds a schema and a data blob.
pub open spec fn frame(schema: Seq<u8>, data: Seq<u8>) -> Seq<u8> {
    magic() + varint::encoded(FORMAT_VERSION as nat) + varint::encoded(schema.len()) + schema + data
}

/// Whether bytes start with the magic bytes.
pub open spec fn sniffed(input: Seq<u8>) -> bool {
    input.len() >= 4 && input.subrange(0, 4) == magic()
}

/// The schema and the data blob of a frame.
pub open spec fn split_frame(input: Seq<u8>) -> std::result::Result<(Shape, Seq<u8>), Fault> {
    if !sniffed(input) {
        Err(Fault::Malformed("missing carbonite magic bytes"@))
    } else {
        let rest = from(input, 4);
        match varint::decoded(rest) {
            Err(fault) => Err(fault),
            Ok((version, used)) => if version == 0 {
                Err(Fault::Malformed("unsupported format version"@))
            } else if version > FORMAT_VERSION {
                Err(Fault::UnsupportedVersion("frame"@, version as u64, FORMAT_VERSION))
            } else {
                split_body(from(rest, used))
            },
        }
    }
}

/// The schema and the data blob of a frame, after the version.
pub open spec fn split_body(rest: Seq<u8>) -> std::result::Result<(Shape, Seq<u8>), Fault> {
    match varint::decoded(rest) {
        Err(fault) => Err(fault),
        Ok((len, used)) => if len > usize::MAX {
            Err(Fault::Malformed("length overflows usize"@))
        } else if len > from(rest, used).len() {
            Err(Fault::UnexpectedEof)
        } else {
            let body = from(rest, used);
            match wire::parsed(body.subrange(0, len as int)) {
                Ok(s) => Ok((s, from(body, len))),
                Err(fault) => Err(fault),
            }
        },
    }
}

/// Splitting a frame gives back the schema and the data that it was made of.
#[verifier::rlimit(40)]
pub proof fn lemma_split_frame(s: Shape, data: Seq<u8>)
    requires
        s.well_formed(),
        !crate::shape::is_variant(s.kind),
        wire::fits(s),
        s.height() <= crate::schema::MAX_DEPTH,
        wire::versioned(s).len() <= usize::MAX,
    ensures
        split_frame(frame(wire::versioned(s), data)) == Ok::<(Shape, Seq<u8>), Fault>((s, data)),
{
    let schema = wire::versioned(s);
    let input = frame(schema, data);
    let version = varint::encoded(FORMAT_VERSION as nat);
    let code = varint::encoded(schema.len());
    assert(input.subrange(0, 4) =~= magic());
    let rest = from(input, 4);
    assert(rest =~= version + (code + schema + data));
    varint::lemma_decode_encode(FORMAT_VERSION, code + schema + data);
    let body = from(rest, version.len());
    assert(body =~= code + (schema + data));
    varint::lemma_decode_encode(schema.len() as u64, schema + data);
    assert(from(body, code.len()) =~= schema + data);
    assert((schema + data).subrange(0, schema.len() as int) =~= schema);
    assert(from(schema + data, schema.len()) =~= data);
    wire::lemma_parse_versioned(s);
}

/// Frames are canonical: bytes that split into a schema and data are the frame
/// of that schema and that data.
pub proof fn lemma_frame_split(input: Seq<u8>)
    requires
        input.len() <= usize::MAX,
        split_frame(input) is Ok,
    ensures
        input == frame(wire::versioned(split_frame(input)->Ok_0.0), split_frame(input)->Ok_0.1),
{
    let (s, data) = split_frame(input)->Ok_0;
    let rest = from(input, 4);
    varint::lemma_encode_decode(rest);
    let (version, used) = varint::decoded(rest)->Ok_0;
    let body = from(rest, used);
    varint::lemma_encode_decode(body);
    let (len, more) = varint::decoded(body)->Ok_0;
    let inner = from(body, more);
    let schema = inner.subrange(0, len as int);
    wire::lemma_versioned_parse(schema);
    assert(input =~= magic() + rest.subrange(0, used as int) + body.subrange(0, more as int)
        + schema + data);
}

/// Serializes values with the schema embedded in each output, so the bytes
/// alone are enough to deserialize later.
#[verifier::reject_recursive_types(T)]
#[derive(Debug)]
pub struct SelfDescribingSerializer<'s, T: ?Sized> {
    inner: Serializer<'s, T>,
    schema_bytes: Vec<u8>,
}

impl<'s, T: ?Sized> SelfDescribingSerializer<'s, T> {
    /// The schema that is written.
    pub closed spec fn shape(&self) -> Shape {
        self.inner.shape()
    }

    /// The schema bytes are those of the schema.
    pub closed spec fn well_formed(&self) -> bool {
        self.inner.well_formed() && self.schema_bytes@ == wire::versioned(self.inner.shape())
    }

    /// Builds a self-describing serializer for `schema`.
    #[must_use]
    pub fn new<S: Into<Cow<'s, Schema<T>>>>(schema: S) -> (result: Self)
        requires
            S::obeys_into_spec(),
            width_of(schema.into_spec()@) <= usize::MAX,
        ensures
            result.well_formed(),
            result.shape() == schema.into_spec()@,
    {
        let inner = Serializer::new(schema);
        let schema_bytes = inner.schema().to_bytes();
        SelfDescribingSerializer { inner, schema_bytes }
    }

    /// A data blob, after the frame header and the schema.
    fn framed(&self, data: Vec<u8>) -> (result: Vec<u8>)
        requires
            self.well_formed(),
        ensures
            result@ == frame(wire::versioned(self.shape()), data@),
    {
        let mut out: Vec<u8> = Vec::new();
        out.push(MAGIC[0]);
        out.push(MAGIC[1]);
        out.push(MAGIC[2]);
        out.push(MAGIC[3]);
        assert(out@ =~= magic());
        varint::write(&mut out, FORMAT_VERSION);
        varint::write(&mut out, self.schema_bytes.len() as u64);
        out.extend_from_slice(self.schema_bytes.as_slice());
        out.extend_from_slice(data.as_slice());
        assert(out@ =~= frame(wire::versioned(self.shape()), data@));
        out
    }

    /// Serializes one value, prefixed by the frame header and schema.
    pub fn to_vec(&self, value: &Value) -> (result: Result<Vec<u8>>)
        requires
            self.well_formed(),
        ensures
            match result {
                Ok(bytes) => push_row(self.shape(), no_rows(self.shape()), value@) matches Ok(cols)
                    && bytes@ == frame(wire::versioned(self.shape()), blob(1, cols)),
                Err(error) => push_row(self.shape(), no_rows(self.shape()), value@) == Err::<
                    Seq<Seq<u8>>,
                    Fault,
                >(error@),
            },
    {
        match self.inner.to_vec(value) {
            Ok(data) => Ok(self.framed(data)),
            Err(error) => Err(error),
        }
    }

    /// Like [`Self::to_vec`], through the monomorphized columnar fast path.
    pub fn to_vec_columns(&self, value: &T) -> (result: Result<Vec<u8>>) where T: SerializeColumns
        requires
            self.well_formed(),
        ensures
            match result {
                Ok(bytes) => {
                    &&& T::node() == self.shape()
                    &&& value.refusal() is None
                    &&& exists|cols: Seq<Seq<u8>>|
                        cols.len() == width_of(self.shape()) && bytes@ == frame(
                            wire::versioned(self.shape()),
                            #[trigger] blob(1, cols),
                        )
                    &&& value.writes() ==> exists|w: Walk|
                        (push_row(
                            self.shape(),
                            no_rows(self.shape()),
                            #[trigger] value.val(w),
                        ) matches Ok(cols) && bytes@ == frame(
                            wire::versioned(self.shape()),
                            blob(1, cols),
                        ))
                },
                Err(error) => {
                    &&& T::node() != self.shape() || !value.writes()
                    &&& T::node() != self.shape() ==> error@ == foreign_schema()
                    &&& T::node() == self.shape() && value.refusal() is Some ==> value.refusal()
                        == Some(error@)
                },
            },
    {
        match self.inner.to_vec_columns(value) {
            Ok(data) => Ok(self.framed(data)),
            Err(error) => Err(error),
        }
    }
}

/// Serializes `value` into a self-describing blob using `T`'s own schema and
/// the monomorphized columnar writer.
pub fn to_vec_static<T: SerializeColumns + ?Sized>(value: &T) -> (result: Result<Vec<u8>>)
    requires
        width_of(T::node()) <= usize::MAX,
    ensures
        match result {
            Ok(bytes) => {
                &&& value.refusal() is None
                &&& exists|cols: Seq<Seq<u8>>|
                    cols.len() == width_of(T::node()) && bytes@ == frame(
                        wire::versioned(T::node()),
                        #[trigger] blob(1, cols),
                    )
                &&& value.writes() ==> exists|w: Walk|
                    (push_row(T::node(), no_rows(T::node()), #[trigger] value.val(w)) matches Ok(
                        cols,
                    ) && bytes@ == frame(wire::versioned(T::node()), blob(1, cols)))
            },
            Err(error) => {
                &&& !value.writes()
                &&& value.refusal() is Some ==> value.refusal() == Some(error@)
            },
        },
{
    let schema = T::schema();
    SelfDescribingSerializer::new(&schema).to_vec_columns(value)
}

/// Whether bytes start as a self-describing frame does.
pub fn is_self_describing(input: &[u8]) -> (result: bool)
    ensures
        result == sniffed(input@),
{
    if input.len() < 4 {
        return false;
    }
    let result = input[0] == MAGIC[0] && input[1] == MAGIC[1] && input[2] == MAGIC[2] && input[3]
        == MAGIC[3];
    proof {
        let head = input@.subrange(0, 4);
        if result {
            assert(head =~= magic());
        } else if head == magic() {
            assert(head[0] == magic()[0] && head[1] == magic()[1] && head[2] == magic()[2]
                && head[3] == magic()[3]);
        }
    }
    result
}

/// Reads the schema of a frame without decoding the data, which is returned as
/// it is.
pub fn peek_schema<T: ?Sized>(input: &[u8]) -> (result: Result<(Schema<T>, &[u8])>)
    ensures
        match result {
            Ok((schema, data)) => split_frame(input@) == Ok::<(Shape, Seq<u8>), Fault>(
                (schema@, data@),
            ),
            Err(error) => split_frame(input@) == Err::<(Shape, Seq<u8>), Fault>(error@),
        },
{
    if !is_self_describing(input) {
        return Err(Error::Malformed("missing carbonite magic bytes"));
    }
    let rest = vstd::slice::slice_subrange(input, 4, input.len());
    assert(rest@ =~= from(input@, 4));
    let (version, used) = match varint::read(rest) {
        Ok(pair) => pair,
        Err(error) => return Err(error),
    };
    if version == 0 {
        return Err(Error::Malformed("unsupported format version"));
    }
    if version > FORMAT_VERSION {
        return Err(
            Error::UnsupportedVersion { what: "frame", found: version, supported: FORMAT_VERSION },
        );
    }
    proof {
        varint::lemma_encode_decode(rest@);
    }
    let body = vstd::slice::slice_subrange(rest, used, rest.len());
    assert(body@ =~= from(rest@, used as nat));
    let (len, more) = match varint::read(body) {
        Ok(pair) => pair,
        Err(error) => return Err(error),
    };
    if len > usize::MAX as u64 {
        return Err(Error::Malformed("length overflows usize"));
    }
    proof {
        varint::lemma_encode_decode(body@);
    }
    let inner = vstd::slice::slice_subrange(body, more, body.len());
    assert(inner@ =~= from(body@, more as nat));
    let len = len as usize;
    if inner.len() < len {
        return Err(Error::UnexpectedEof);
    }
    let schema_bytes = vstd::slice::slice_subrange(inner, 0, len);
    let data = vstd::slice::slice_subrange(inner, len, inner.len());
    assert(data@ =~= from(inner@, len as nat));
    match Schema::from_bytes(schema_bytes) {
        Ok(schema) => Ok((schema, data)),
        Err(error) => Err(error),
    }
}

/// A schema that was read has no more columns than can be counted.
proof fn lemma_split_columns(input: Seq<u8>)
    requires
        input.len() <= isize::MAX,
        split_frame(input) is Ok,
    ensures
        width_of(split_frame(input)->Ok_0.0) <= usize::MAX,
{
    lemma_frame_split(input);
    let s = split_frame(input)->Ok_0.0;
    wire::lemma_columns_bound(s);
    assert(wire::versioned(s).len() <= input.len());
    assert(2 * isize::MAX <= usize::MAX);
}

/// Deserializes self-describing blobs: the schema is read from the input
/// itself, so no out-of-band schema is needed.
#[derive(Debug)]
pub struct SelfDescribingDeserializer<T: ?Sized> {
    marker: PhantomData<T>,
}

impl<T: ?Sized> SelfDescribingDeserializer<T> {
    /// Builds a deserializer of frames.
    #[must_use]
    pub fn new() -> (result: Self) {
        SelfDescribingDeserializer { marker: PhantomData }
    }

    /// Deserializes one value from a self-describing blob, whatever its
    /// schema.
    pub fn from_slice(&self, input: &[u8]) -> (result: Result<Value>)
        requires
            input@.len() <= isize::MAX,
        ensures
            match split_frame(input@) {
                Ok((s, data)) => match result {
                    Ok(value) => single(data, s) == Ok::<Val, Fault>(value@),
                    Err(error) => single(data, s) == Err::<Val, Fault>(error@),
                },
                Err(fault) => result matches Err(error) && error@ == fault,
            },
    {
        match peek_schema::<T>(input) {
            Ok((schema, data)) => {
                proof {
                    lemma_split_columns(input@);
                }
                Deserializer::new_untraced(schema).from_slice(data)
            },
            Err(error) => Err(error),
        }
    }

    /// Deserializes one value through the monomorphized columnar fast path.
    /// The frame's schema must be the type's own.
    pub fn from_slice_columns<'de>(&self, input: &'de [u8]) -> (result: Result<T>) where
        T: DeserializeColumns<'de>,

        requires
            input@.len() <= isize::MAX,
        ensures
            match split_frame(input@) {
                Ok((s, data)) => {
                    &&& unread(data, T::node(), s) matches Some(fault) ==> result matches Err(error)
                        && error@ == fault
                    &&& T::sound() ==> match result {
                        Ok(x) => single_columns::<T>(data, s) matches Ok(v) && x.stands_for(v),
                        Err(error) => single_columns::<T>(data, s) == Err::<Val, Fault>(error@),
                    }
                },
                Err(fault) => result matches Err(error) && error@ == fault,
            },
    {
        match peek_schema::<T>(input) {
            Ok((schema, data)) => {
                proof {
                    lemma_split_columns(input@);
                }
                Deserializer::new_static(schema).from_slice_columns(data)
            },
            Err(error) => Err(error),
        }
    }
}

} // verus!
