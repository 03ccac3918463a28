//! Unsigned LEB128 varints, used for lengths and tags.
//!
//! A value has exactly one encoding: the shortest one. Reading rejects every
//! other spelling, so decoding and re-encoding reproduces the bytes.

use vstd::prelude::*;

use crate::error::{Error, Fault, Result};

verus! {

/// The encoding of `value`: base 128, least significant digit first, with
/// the high bit set on every byte but the last.
pub open spec fn encoded(value: nat) -> Seq<u8>
    decreases value,
{
    if value < 128 {
        seq![value as u8]
    } else {
        seq![(value % 128 + 128) as u8] + encoded(value / 128)
    }
}

/// Reads digits from byte `i` of `buf` on, where `i` bytes of the varint came
/// before: the value of the digits from there, and where the varint ends.
///
/// A varint has at most ten bytes, the tenth holding a single bit, and its
/// last byte is zero only if it is also its first.
pub open spec fn scan(buf: Seq<u8>, i: nat) -> std::result::Result<(nat, nat), Fault>
    decreases buf.len() - i,
{
    if i >= buf.len() {
        Err(Fault::UnexpectedEof)
    } else if i > 9 || (i == 9 && buf[i as int] % 128 > 1) {
        Err(Fault::InvalidVarint)
    } else if buf[i as int] < 128 {
        if buf[i as int] == 0 && i > 0 {
            Err(Fault::InvalidVarint)
        } else {
            Ok((buf[i as int] as nat, i + 1))
        }
    } else {
        match scan(buf, i + 1) {
            Ok((rest, end)) => Ok(((buf[i as int] - 128 + 128 * rest) as nat, end)),
            Err(fault) => Err(fault),
        }
    }
}

/// The varint at the front of `buf`: its value and its length in bytes.
pub open spec fn decoded(buf: Seq<u8>) -> std::result::Result<(nat, nat), Fault> {
    scan(buf, 0)
}

/// One more than the largest value that fits in the digits from byte `i` on.
pub open spec fn room(i: nat) -> nat {
    if i == 0 {
        0x1_0000_0000_0000_0000
    } else if i == 1 {
        0x200_0000_0000_0000
    } else if i == 2 {
        0x4_0000_0000_0000
    } else if i == 3 {
        0x800_0000_0000
    } else if i == 4 {
        0x10_0000_0000
    } else if i == 5 {
        0x2000_0000
    } else if i == 6 {
        0x40_0000
    } else if i == 7 {
        0x8000
    } else if i == 8 {
        0x100
    } else if i == 9 {
        2
    } else {
        0
    }
}

proof fn lemma_scan_reads(buf: Seq<u8>, i: nat, value: nat)
    requires
        value < room(i),
        i > 0 ==> value > 0,
        i + encoded(value).len() <= buf.len(),
        buf.subrange(i as int, (i + encoded(value).len()) as int) == encoded(value),
    ensures
        scan(buf, i) == Ok::<(nat, nat), Fault>((value, i + encoded(value).len())),
    decreases value,
{
    let code = encoded(value);
    assert(buf.subrange(i as int, (i + code.len()) as int)[0] == buf[i as int]);
    if value >= 128 {
        let rest = encoded(value / 128);
        assert(code.len() == 1 + rest.len());
        assert(rest =~= code.subrange(1, code.len() as int));
        assert(buf.subrange((i + 1) as int, (i + 1 + rest.len()) as int) =~= rest) by {
            assert forall|k: int| 0 <= k < rest.len() implies buf[i + 1 + k] == rest[k] by {
                assert(buf.subrange(i as int, (i + code.len()) as int)[k + 1] == buf[i + 1 + k]);
                assert(code[k + 1] == rest[k]);
            }
        }
        lemma_scan_reads(buf, i + 1, value / 128);
    }
}

proof fn lemma_scan_canonical(buf: Seq<u8>, i: nat)
    requires
        scan(buf, i) is Ok,
    ensures
        ({
            let (value, end) = scan(buf, i)->Ok_0;
            &&& value < room(i)
            &&& i > 0 ==> value > 0
            &&& i < end <= buf.len()
            &&& end <= 10
            &&& end == i + encoded(value).len()
            &&& buf.subrange(i as int, end as int) == encoded(value)
        }),
    decreases buf.len() - i,
{
    let (value, end) = scan(buf, i)->Ok_0;
    if buf[i as int] < 128 {
        assert(buf.subrange(i as int, end as int) =~= encoded(value));
    } else {
        lemma_scan_canonical(buf, i + 1);
        let (rest, _) = scan(buf, i + 1)->Ok_0;
        assert(value / 128 == rest && value % 128 == buf[i as int] - 128);
        assert(buf.subrange(i as int, end as int) =~= seq![buf[i as int]] + buf.subrange(
            (i + 1) as int,
            end as int,
        ));
    }
}

/// An encoding has one to ten bytes.
pub proof fn lemma_encoded_len(value: u64)
    ensures
        1 <= encoded(value as nat).len() <= 10,
{
    lemma_decode_encode(value, Seq::empty());
    lemma_scan_canonical(encoded(value as nat) + Seq::empty(), 0);
}

/// Reading gives back what writing wrote, whatever follows it.
pub proof fn lemma_decode_encode(value: u64, rest: Seq<u8>)
    ensures
        decoded(encoded(value as nat) + rest) == Ok::<(nat, nat), Fault>(
            (value as nat, encoded(value as nat).len()),
        ),
{
    let buf = encoded(value as nat) + rest;
    assert(buf.subrange(0, encoded(value as nat).len() as int) =~= encoded(value as nat));
    lemma_scan_reads(buf, 0, value as nat);
}

/// Encodings are canonical: bytes that read as a value are the bytes that
/// writing the value gives.
pub proof fn lemma_encode_decode(buf: Seq<u8>)
    requires
        decoded(buf) is Ok,
    ensures
        ({
            let (value, used) = decoded(buf)->Ok_0;
            &&& value <= u64::MAX
            &&& 1 <= used <= buf.len()
            &&& used <= 10
            &&& buf.subrange(0, used as int) == encoded(value)
        }),
{
    lemma_scan_canonical(buf, 0);
}

/// Appends `value` to `out` as an unsigned LEB128 varint (1–10 bytes).
pub fn write(out: &mut Vec<u8>, value: u64)
    ensures
        final(out)@ == old(out)@ + encoded(value as nat),
{
    let mut rest: u64 = value;
    while rest >= 128
        invariant
            out@ + encoded(rest as nat) == old(out)@ + encoded(value as nat),
        decreases rest,
    {
        let byte: u8 = (rest % 128) as u8 + 128;
        let ghost before = out@;
        out.push(byte);
        assert(out@ + encoded((rest / 128) as nat) =~= before + encoded(rest as nat));
        rest = rest / 128;
    }
    let ghost before = out@;
    out.push(rest as u8);
    assert(out@ =~= before + encoded(rest as nat));
}

/// Reads a varint from the front of `buf`, returning the value and bytes
/// consumed.
pub fn read(buf: &[u8]) -> (result: Result<(u64, usize)>)
    ensures
        match result {
            Ok((value, used)) => decoded(buf@) == Ok::<(nat, nat), Fault>(
                (value as nat, used as nat),
            ),
            Err(error) => decoded(buf@) == Err::<(nat, nat), Fault>(error@),
        },
{
    read_from(buf, 0)
}

fn read_from(buf: &[u8], i: usize) -> (result: Result<(u64, usize)>)
    ensures
        match result {
            Ok((value, end)) => scan(buf@, i as nat) == Ok::<(nat, nat), Fault>(
                (value as nat, end as nat),
            ),
            Err(error) => scan(buf@, i as nat) == Err::<(nat, nat), Fault>(error@),
        },
    decreases buf@.len() - i,
{
    if i >= buf.len() {
        return Err(Error::UnexpectedEof);
    }
    let byte: u8 = buf[i];
    if i > 9 || (i == 9 && byte % 128 > 1) {
        return Err(Error::InvalidVarint);
    }
    if byte < 128 {
        if byte == 0 && i > 0 {
            return Err(Error::InvalidVarint);
        }
        return Ok((byte as u64, i + 1));
    }
    match read_from(buf, i + 1) {
        Ok((rest, end)) => {
            proof {
                lemma_scan_canonical(buf@, (i + 1) as nat);
            }
            Ok(((byte - 128) as u64 + 128 * rest, end))
        },
        Err(error) => Err(error),
    }
}

} // verus!
