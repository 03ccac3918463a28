//! Bytes that were cut short: whatever could be read whole is refused as ended
//! too early once any of it is missing from the end.

use vstd::prelude::*;

use crate::blob::{cut, from, opened, opened_columns, read_lengths};
use crate::error::Fault;
use crate::schema::MAX_DEPTH;
use crate::shape::{has_labels, has_name, Kind};
use crate::varint::{decoded, encoded, scan};
use crate::wire::{
    decoding, kids_decoding, kind_of, parsed, read_count, read_len, read_text, read_text_if,
};

verus! {

proof fn lemma_scan_cut(buf: Seq<u8>, i: nat, k: nat)
    requires
        scan(buf, i) is Ok,
        i <= k <= buf.len(),
    ensures
        ({
            let (value, end) = scan(buf, i)->Ok_0;
            &&& i < end <= buf.len()
            &&& scan(buf.take(k as int), i) == if k < end {
                Err::<(nat, nat), Fault>(Fault::UnexpectedEof)
            } else {
                Ok((value, end))
            }
        }),
    decreases buf.len() - i,
{
    if i < k {
        assert(buf.take(k as int)[i as int] == buf[i as int]);
        if buf[i as int] >= 128 {
            lemma_scan_cut(buf, i + 1, k);
        }
    } else if buf[i as int] >= 128 {
        lemma_scan_cut(buf, i + 1, i + 1);
    }
}

/// A varint that is cut short has ended too early, and one that is whole is
/// read the same, whatever was cut off behind it.
pub proof fn lemma_varint_cut(buf: Seq<u8>, k: nat)
    requires
        decoded(buf) is Ok,
        k <= buf.len(),
    ensures
        ({
            let (value, used) = decoded(buf)->Ok_0;
            &&& 0 < used <= buf.len()
            &&& decoded(buf.take(k as int)) == if k < used {
                Err::<(nat, nat), Fault>(Fault::UnexpectedEof)
            } else {
                Ok((value, used))
            }
        }),
{
    lemma_scan_cut(buf, 0, k);
}

/// The weight of digit `n` in base 128.
pub open spec fn pow128(n: nat) -> nat
    decreases n,
{
    if n == 0 {
        1
    } else {
        128 * pow128((n - 1) as nat)
    }
}

/// Byte `k` of a varint is digit `k` of the value, least significant first, and
/// says whether more follow; the last digit is zero only where it is alone.
pub proof fn lemma_varint_digits(value: nat, k: nat)
    requires
        k < encoded(value).len(),
    ensures
        pow128(k) > 0,
        encoded(value)[k as int] % 128 == value / pow128(k) % 128,
        encoded(value)[k as int] >= 128 <==> k + 1 < encoded(value).len(),
        k > 0 ==> value / pow128(k) > 0,
    decreases k,
{
    if value < 128 {
        assert(k == 0);
        assert(pow128(0) == 1);
    } else if k == 0 {
        assert(pow128(0) == 1);
        assert((value % 128 + 128) % 128 == value % 128);
        assert(encoded(value / 128).len() > 0);
    } else {
        let m = (k - 1) as nat;
        let rest = encoded(value / 128);
        assert(encoded(value)[k as int] == rest[m as int]);
        lemma_varint_digits(value / 128, m);
        let p = pow128(m);
        assert(value / 128 / p == value / (128 * p)) by {
            vstd::arithmetic::div_mod::lemma_div_denominator(value as int, 128, p as int);
        }
        if m == 0 {
            assert(p == 1);
        }
    }
}

proof fn lemma_from_cut(input: Seq<u8>, at: nat, k: nat)
    requires
        at <= k <= input.len(),
    ensures
        from(input.take(k as int), at) == from(input, at).take(k - at),
{
    assert(from(input.take(k as int), at) =~= from(input, at).take(k - at));
}

proof fn lemma_lengths_cut(input: Seq<u8>, at: nat, n: nat, k: nat)
    requires
        read_lengths(input, at, n) is Ok,
        at <= k <= input.len(),
    ensures
        ({
            let (list, next) = read_lengths(input, at, n)->Ok_0;
            let short = read_lengths(input.take(k as int), at, n);
            &&& at <= next <= input.len()
            &&& list.len() == n
            &&& short == if k < next {
                Err::<(Seq<nat>, nat), Fault>(Fault::UnexpectedEof)
            } else {
                Ok((list, next))
            }
        }),
    decreases n,
{
    if n > 0 {
        let m = (n - 1) as nat;
        lemma_lengths_cut(input, at, m, k);
        let (_, mid) = read_lengths(input, at, m)->Ok_0;
        lemma_varint_cut(from(input, mid), from(input, mid).len());
        if mid <= k {
            lemma_from_cut(input, mid, k);
            lemma_varint_cut(from(input, mid), (k - mid) as nat);
        }
    }
}

proof fn lemma_cut_cut(input: Seq<u8>, at: nat, list: Seq<nat>, n: nat, k: nat)
    requires
        cut(input, at, list, n) is Ok,
        n <= list.len(),
        at <= k <= input.len(),
    ensures
        ({
            let (cols, end) = cut(input, at, list, n)->Ok_0;
            let short = cut(input.take(k as int), at, list, n);
            &&& at <= end <= input.len()
            &&& short == if k < end {
                Err::<(Seq<Seq<u8>>, nat), Fault>(Fault::UnexpectedEof)
            } else {
                Ok((cols, end))
            }
        }),
    decreases n,
{
    if n > 0 {
        let m = (n - 1) as nat;
        lemma_cut_cut(input, at, list, m, k);
        let (_, mid) = cut(input, at, list, m)->Ok_0;
        if mid <= k {
            lemma_from_cut(input, mid, k);
            if list[m as int] <= k - mid {
                assert(from(input, mid).take(k - mid).subrange(0, list[m as int] as int)
                    =~= from(input, mid).subrange(0, list[m as int] as int));
            }
        }
    }
}

/// A blob that is cut short has ended too early, wherever it was cut.
pub proof fn lemma_blob_cut(input: Seq<u8>, columns: nat, k: nat)
    requires
        opened(input, columns) is Ok,
        k < input.len(),
    ensures
        opened(input.take(k as int), columns) == Err::<(nat, Seq<Seq<u8>>), Fault>(
            Fault::UnexpectedEof,
        ),
{
    let short = input.take(k as int);
    lemma_varint_cut(input, k);
    let (rows, used) = decoded(input)->Ok_0;
    lemma_varint_cut(from(input, used), from(input, used).len());
    let (count, more) = decoded(from(input, used))->Ok_0;
    if used <= k {
        lemma_from_cut(input, used, k);
        lemma_varint_cut(from(input, used), (k - used) as nat);
        let at = used + more;
        if at <= k {
            assert(opened(short, columns) == opened_columns(short, at, rows, columns));
            lemma_lengths_cut(input, at, columns, k);
            let (list, next) = read_lengths(input, at, columns)->Ok_0;
            if next <= k {
                lemma_cut_cut(input, next, list, columns, k);
            }
        }
    }
}

proof fn lemma_len_cut(buf: Seq<u8>, pos: nat, k: nat)
    requires
        pos <= buf.len(),
        pos <= k <= buf.len(),
        read_len(buf, pos) is Ok,
    ensures
        ({
            let (value, next) = read_len(buf, pos)->Ok_0;
            &&& pos < next <= buf.len()
            &&& read_len(buf.take(k as int), pos) == if k < next {
                Err::<(nat, nat), Fault>(Fault::UnexpectedEof)
            } else {
                Ok((value, next))
            }
        }),
{
    let rest = buf.subrange(pos as int, buf.len() as int);
    let short = buf.take(k as int);
    assert(short.subrange(pos as int, short.len() as int) =~= rest.take(k - pos));
    lemma_varint_cut(rest, (k - pos) as nat);
}

proof fn lemma_text_cut(buf: Seq<u8>, pos: nat, k: nat)
    requires
        pos <= k <= buf.len(),
        read_text(buf, pos) is Ok,
    ensures
        ({
            let (text, next) = read_text(buf, pos)->Ok_0;
            &&& pos < next <= buf.len()
            &&& read_text(buf.take(k as int), pos) == if k < next {
                Err::<(Seq<char>, nat), Fault>(Fault::UnexpectedEof)
            } else {
                Ok((text, next))
            }
        }),
{
    lemma_len_cut(buf, pos, k);
    let (len, start) = read_len(buf, pos)->Ok_0;
    let short = buf.take(k as int);
    if start + len <= k {
        assert(short.subrange(start as int, (start + len) as int) =~= buf.subrange(
            start as int,
            (start + len) as int,
        ));
    }
}

proof fn lemma_text_if_cut(present: bool, buf: Seq<u8>, pos: nat, k: nat)
    requires
        pos <= k <= buf.len(),
        read_text_if(present, buf, pos) is Ok,
    ensures
        ({
            let (text, next) = read_text_if(present, buf, pos)->Ok_0;
            &&& pos <= next <= buf.len()
            &&& read_text_if(present, buf.take(k as int), pos) == if k < next {
                Err::<(Seq<char>, nat), Fault>(Fault::UnexpectedEof)
            } else {
                Ok((text, next))
            }
        }),
{
    if present {
        lemma_text_cut(buf, pos, k);
    }
}

proof fn lemma_count_cut(kind: Kind, buf: Seq<u8>, pos: nat, k: nat)
    requires
        pos <= k <= buf.len(),
        read_count(kind, buf, pos) is Ok,
    ensures
        ({
            let (count, next) = read_count(kind, buf, pos)->Ok_0;
            &&& pos <= next <= buf.len()
            &&& read_count(kind, buf.take(k as int), pos) == if k < next {
                Err::<(nat, nat), Fault>(Fault::UnexpectedEof)
            } else {
                Ok((count, next))
            }
        }),
{
    if crate::shape::is_counted(kind) {
        lemma_len_cut(buf, pos, k);
    }
}

proof fn lemma_tree_cut(buf: Seq<u8>, pos: nat, depth: nat, variant: bool, k: nat)
    requires
        pos <= k <= buf.len(),
        decoding(buf, pos, depth, variant) is Ok,
    ensures
        ({
            let (s, end) = decoding(buf, pos, depth, variant)->Ok_0;
            &&& pos < end <= buf.len()
            &&& decoding(buf.take(k as int), pos, depth, variant) == if k < end {
                Err::<(crate::shape::Shape, nat), Fault>(Fault::UnexpectedEof)
            } else {
                Ok((s, end))
            }
        }),
    decreases MAX_DEPTH - depth, 0nat,
{
    let short = buf.take(k as int);
    let kind = kind_of(buf[pos as int], variant)->0;
    let full = buf.len();
    assert(buf.take(full as int) =~= buf);
    let (name, counted) = read_text_if(has_name(kind), buf, pos + 1)->Ok_0;
    lemma_text_if_cut(has_name(kind), buf, pos + 1, full);
    let (count, start) = read_count(kind, buf, counted)->Ok_0;
    lemma_count_cut(kind, buf, counted, full);
    lemma_trees_cut(buf, start, depth + 1, kind, count, full);
    if pos < k {
        assert(short[pos as int] == buf[pos as int]);
        lemma_text_if_cut(has_name(kind), buf, pos + 1, k);
        if counted <= k {
            lemma_count_cut(kind, buf, counted, k);
            if start <= k {
                lemma_trees_cut(buf, start, depth + 1, kind, count, k);
            }
        }
    }
}

proof fn lemma_trees_cut(buf: Seq<u8>, pos: nat, depth: nat, kind: Kind, n: nat, k: nat)
    requires
        pos <= k <= buf.len(),
        depth <= MAX_DEPTH,
        kids_decoding(buf, pos, depth, kind, n) is Ok,
    ensures
        ({
            let (labels, kids, end) = kids_decoding(buf, pos, depth, kind, n)->Ok_0;
            &&& pos <= end <= buf.len()
            &&& kids_decoding(buf.take(k as int), pos, depth, kind, n) == if k < end {
                Err::<(Seq<Seq<char>>, Seq<crate::shape::Shape>, nat), Fault>(Fault::UnexpectedEof)
            } else {
                Ok((labels, kids, end))
            }
        }),
    decreases MAX_DEPTH - depth, n + 1,
{
    if n > 0 {
        let m = (n - 1) as nat;
        let full = buf.len();
        assert(buf.take(full as int) =~= buf);
        lemma_trees_cut(buf, pos, depth, kind, m, k);
        let (_, _, next) = kids_decoding(buf, pos, depth, kind, m)->Ok_0;
        lemma_text_if_cut(has_labels(kind), buf, next, full);
        let (_, start) = read_text_if(has_labels(kind), buf, next)->Ok_0;
        lemma_tree_cut(buf, start, depth, kind is Enum, full);
        if next <= k {
            lemma_text_if_cut(has_labels(kind), buf, next, k);
            if start <= k {
                lemma_tree_cut(buf, start, depth, kind is Enum, k);
            }
        }
    }
}

/// The byte form of a schema that is cut short has ended too early, wherever it
/// was cut.
pub proof fn lemma_schema_cut(bytes: Seq<u8>, k: nat)
    requires
        parsed(bytes) is Ok,
        k < bytes.len(),
    ensures
        parsed(bytes.take(k as int)) == Err::<crate::shape::Shape, Fault>(Fault::UnexpectedEof),
{
    lemma_varint_cut(bytes, k);
    let (_, used) = decoded(bytes)->Ok_0;
    if used <= k {
        lemma_tree_cut(bytes, used, 0, false, k);
    }
}

} // verus!
