//! Column cursors, and the validation of counts.

use vstd::prelude::*;

use crate::error::{Error, Fault, Result};
use crate::get::checked;
pub use crate::get::MAX_ZERO_COLUMN_REPEAT;
use crate::text;
use crate::varint;

verus! {

/// A reading position within one column's bytes.
#[derive(Debug)]
pub struct ColumnCursor<'de> {
    buf: &'de [u8],
    pos: usize,
}

impl<'de> ColumnCursor<'de> {
    /// The column's bytes.
    pub closed spec fn data(&self) -> Seq<u8> {
        self.buf@
    }

    /// How many of them have been read.
    pub closed spec fn at(&self) -> nat {
        self.pos as nat
    }

    /// The position lies within the column.
    pub open spec fn well_formed(&self) -> bool {
        self.at() <= self.data().len() <= usize::MAX
    }

    /// The bytes not yet read.
    pub open spec fn rest(&self) -> Seq<u8> {
        self.data().subrange(self.at() as int, self.data().len() as int)
    }

    /// Builds a cursor over one column's bytes, positioned at the start.
    #[must_use]
    pub fn new(buf: &'de [u8]) -> (result: Self)
        ensures
            result.well_formed(),
            result.data() == buf@,
            result.at() == 0,
            result.rest() == buf@,
    {
        let result = ColumnCursor { buf, pos: 0 };
        assert(buf@.len() == buf.len());
        assert(result.rest() =~= buf@);
        result
    }

    /// Takes the next `n` bytes.
    ///
    /// # Errors
    ///
    /// [`Error::UnexpectedEof`] if the column is exhausted.
    pub fn take(&mut self, n: usize) -> (result: Result<&'de [u8]>)
        requires
            old(self).well_formed(),
        ensures
            final(self).well_formed(),
            final(self).data() == old(self).data(),
            match result {
                Ok(bytes) => {
                    &&& n <= old(self).rest().len()
                    &&& bytes@ == old(self).rest().subrange(0, n as int)
                    &&& final(self).at() == old(self).at() + n
                },
                Err(error) => {
                    &&& n > old(self).rest().len()
                    &&& error@ == Fault::UnexpectedEof
                    &&& final(self).at() == old(self).at()
                },
            },
    {
        if n > self.buf.len() - self.pos {
            return Err(Error::UnexpectedEof);
        }
        let end: usize = self.pos + n;
        let slice = vstd::slice::slice_subrange(self.buf, self.pos, end);
        assert(slice@ =~= self.rest().subrange(0, n as int));
        self.pos = end;
        Ok(slice)
    }

    /// Takes the next `N` bytes as an array.
    ///
    /// # Errors
    ///
    /// [`Error::UnexpectedEof`] if the column is exhausted.
    pub fn fixed<const N: usize>(&mut self) -> (result: Result<[u8; N]>)
        requires
            old(self).well_formed(),
        ensures
            final(self).well_formed(),
            final(self).data() == old(self).data(),
            match result {
                Ok(bytes) => {
                    &&& N <= old(self).rest().len()
                    &&& bytes@ == old(self).rest().subrange(0, N as int)
                    &&& final(self).at() == old(self).at() + N
                },
                Err(error) => {
                    &&& N > old(self).rest().len()
                    &&& error@ == Fault::UnexpectedEof
                    &&& final(self).at() == old(self).at()
                },
            },
    {
        let slice = match self.take(N) {
            Ok(slice) => slice,
            Err(error) => return Err(error),
        };
        let mut out: [u8; N] = vstd::array::array_fill_for_copy_types(0);
        let mut i: usize = 0;
        while i < N
            invariant
                i <= N,
                slice@.len() == N,
                out@.len() == N,
                forall|k: int| 0 <= k < i ==> out@[k] == slice@[k],
            decreases N - i,
        {
            out[i] = slice[i];
            i += 1;
        }
        assert(out@ =~= slice@);
        Ok(out)
    }

    /// Takes the next byte.
    ///
    /// # Errors
    ///
    /// [`Error::UnexpectedEof`] if the column is exhausted.
    pub fn byte(&mut self) -> (result: Result<u8>)
        requires
            old(self).well_formed(),
        ensures
            final(self).well_formed(),
            final(self).data() == old(self).data(),
            match result {
                Ok(byte) => {
                    &&& old(self).rest().len() > 0
                    &&& byte == old(self).rest()[0]
                    &&& final(self).at() == old(self).at() + 1
                },
                Err(error) => {
                    &&& old(self).rest().len() == 0
                    &&& error@ == Fault::UnexpectedEof
                    &&& final(self).at() == old(self).at()
                },
            },
    {
        match self.take(1) {
            Ok(slice) => Ok(slice[0]),
            Err(error) => Err(error),
        }
    }

    /// Reads an unsigned LEB128 varint.
    ///
    /// # Errors
    ///
    /// [`Error::UnexpectedEof`] / [`Error::InvalidVarint`] on truncated,
    /// overlong, or non-canonical input.
    pub fn varint(&mut self) -> (result: Result<u64>)
        requires
            old(self).well_formed(),
        ensures
            final(self).well_formed(),
            final(self).data() == old(self).data(),
            match result {
                Ok(value) => varint::decoded(old(self).rest()) == Ok::<(nat, nat), Fault>(
                    (value as nat, (final(self).at() - old(self).at()) as nat),
                ) && final(self).at() > old(self).at(),
                Err(error) => {
                    &&& varint::decoded(old(self).rest()) == Err::<(nat, nat), Fault>(error@)
                    &&& final(self).at() == old(self).at()
                },
            },
    {
        let tail = vstd::slice::slice_subrange(self.buf, self.pos, self.buf.len());
        match varint::read(tail) {
            Ok((value, used)) => {
                proof {
                    varint::lemma_encode_decode(tail@);
                }
                self.pos = self.pos + used;
                Ok(value)
            },
            Err(error) => Err(error),
        }
    }

    /// Reads a varint and converts it to a length.
    ///
    /// This does **not** check the length against the data available; use
    /// [`checked_count`] for anything that sizes an allocation or a loop.
    ///
    /// # Errors
    ///
    /// As [`Self::varint`], plus [`Error::Malformed`] if the value overflows
    /// `usize`.
    pub fn varint_len(&mut self) -> (result: Result<usize>)
        requires
            old(self).well_formed(),
        ensures
            final(self).well_formed(),
            final(self).data() == old(self).data(),
            match result {
                Ok(value) => varint::decoded(old(self).rest()) == Ok::<(nat, nat), Fault>(
                    (value as nat, (final(self).at() - old(self).at()) as nat),
                ) && final(self).at() > old(self).at(),
                Err(error) => match varint::decoded(old(self).rest()) {
                    Ok((value, used)) => {
                        &&& value > usize::MAX
                        &&& error@ == Fault::Malformed("length overflows usize"@)
                        &&& final(self).at() == old(self).at() + used
                    },
                    Err(fault) => error@ == fault && final(self).at() == old(self).at(),
                },
            },
    {
        match self.varint() {
            Ok(value) => {
                if value > usize::MAX as u64 {
                    return Err(Error::Malformed("length overflows usize"));
                }
                Ok(value as usize)
            },
            Err(error) => Err(error),
        }
    }

    /// Whether every byte of this column has been consumed.
    #[must_use]
    pub fn at_end(&self) -> (result: bool)
        requires
            self.well_formed(),
        ensures
            result == (self.rest().len() == 0),
            result == (self.at() == self.data().len()),
    {
        self.pos == self.buf.len()
    }

    /// Bytes not yet consumed.
    #[must_use]
    pub fn remaining(&self) -> (result: usize)
        requires
            self.well_formed(),
        ensures
            result == self.rest().len(),
    {
        self.buf.len() - self.pos
    }
}

/// Appends an unsigned LEB128 varint to a column.
pub fn write_varint(column: &mut Vec<u8>, value: u64)
    ensures
        final(column)@ == old(column)@ + varint::encoded(value as nat),
{
    varint::write(column, value);
}

/// The bytes that the first `n` cursors have left.
pub open spec fn left(cursors: Seq<ColumnCursor<'_>>, n: nat) -> nat
    decreases n,
{
    if n == 0 {
        0
    } else {
        left(cursors, (n - 1) as nat) + cursors[n - 1].rest().len()
    }
}

proof fn lemma_left_mono(cursors: Seq<ColumnCursor<'_>>, i: nat, n: nat)
    requires
        i <= n,
    ensures
        left(cursors, i) <= left(cursors, n),
    decreases n,
{
    if i < n {
        lemma_left_mono(cursors, i, (n - 1) as nat);
    }
}

/// Validates a repetition count read from the input against the bytes that
/// remain to satisfy it.
///
/// A value occupying at least one column always writes at least one byte, so
/// the unread bytes across `cursors` bound how many more can follow. When the
/// repeated value occupies no columns at all, the count is instead capped at
/// [`MAX_ZERO_COLUMN_REPEAT`].
///
/// # Errors
///
/// [`Error::LimitExceeded`] if `claimed` is larger than the input could
/// justify, or [`Error::Malformed`] if it overflows `usize`.
pub fn checked_count(
    what: &'static str,
    element_columns: usize,
    claimed: u64,
    cursors: &[ColumnCursor<'_>],
) -> (result: Result<usize>)
    requires
        forall|i: int| 0 <= i < cursors@.len() ==> (#[trigger] cursors@[i]).well_formed(),
        left(cursors@, cursors@.len()) <= u64::MAX,
    ensures
        match result {
            Ok(n) => checked(
                what@,
                element_columns as nat,
                claimed as nat,
                left(cursors@, cursors@.len()),
            ) == Ok::<nat, Fault>(n as nat),
            Err(error) => checked(
                what@,
                element_columns as nat,
                claimed as nat,
                left(cursors@, cursors@.len()),
            ) == Err::<nat, Fault>(error@),
        },
{
    let limit: u64 = if element_columns == 0 {
        MAX_ZERO_COLUMN_REPEAT
    } else {
        let mut sum: u64 = 0;
        let mut i: usize = 0;
        while i < cursors.len()
            invariant
                i <= cursors@.len(),
                sum == left(cursors@, i as nat),
                left(cursors@, cursors@.len()) <= u64::MAX,
                forall|k: int| 0 <= k < cursors@.len() ==> (#[trigger] cursors@[k]).well_formed(),
            decreases cursors@.len() - i,
        {
            proof {
                lemma_left_mono(cursors@, (i + 1) as nat, cursors@.len());
            }
            sum = sum + cursors[i].remaining() as u64;
            i += 1;
        }
        sum
    };
    if claimed > limit {
        return Err(Error::LimitExceeded { what, claimed, limit });
    }
    if claimed > usize::MAX as u64 {
        return Err(Error::Malformed("length overflows usize"));
    }
    Ok(claimed as usize)
}

/// The report of a tag that is none of an enum's.
pub fn invalid_variant(tag: u64) -> (result: Error)
    ensures
        result@ == Fault::InvalidTag("enum variant"@, tag),
{
    Error::InvalidTag { what: "enum variant", value: tag }
}

/// The report of a conversion that failed, with what the conversion said.
pub fn conversion_failed(message: &str) -> (result: Error)
    ensures
        result@ == Fault::Message(message@),
{
    Error::Message(message.to_owned())
}

/// The report of a variant that does not reach the wire.
pub fn skipped_variant(name: &str) -> (result: Error)
    ensures
        result@ == Fault::Message(
            "variant `"@ + name@ + "` is marked serde(skip) and cannot be serialized"@,
        ),
{
    Error::Message(
        text::join("variant `", name, "` is marked serde(skip) and cannot be serialized"),
    )
}

} // verus!
