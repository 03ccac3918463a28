//! What is accepted is what is written: reading a value consumes exactly the
//! bytes that writing the value appends.

use vstd::prelude::*;

use crate::batch::{new_row, no_rows, push_row};
use crate::blob::{blob, lemma_blob_opened, opened};
use crate::error::Fault;
use crate::get::{
    count, get, get_bytes, get_entries, get_fields, get_items, lemma_get_within, variant_tag, Cur,
};
use crate::put::{
    place_of, put, put_all_named, put_bytes, put_entries, put_fields, put_items, put_named, Row,
};
use crate::roundtrip::lemma_place;
use crate::rows::{at_start, fresh, next_row, single, spent};
use crate::schema::Primitive;
use crate::shape::{
    kid_base, lemma_kid_columns, lemma_one_kid_columns, lemma_two_kids_columns, primitive_width,
    width_of, Kind, Shape,
};
use crate::trips::{pulled, pushed};
use crate::value::{
    from_little_endian, lemma_from_little_endian_bound, lemma_pow256, little_endian, scalar_bytes,
    scalar_of, scalar_type, Val,
};
use crate::varint;

verus! {

proof fn lemma_bytes_back(bytes: Seq<u8>)
    ensures
        little_endian(from_little_endian(bytes), bytes.len()) == bytes,
    decreases bytes.len(),
{
    if bytes.len() > 0 {
        let rest = bytes.drop_first();
        lemma_bytes_back(rest);
        let bits = from_little_endian(bytes);
        assert(bits % 256 == bytes[0] && bits / 256 == from_little_endian(rest));
        assert(little_endian(bits, bytes.len()) =~= seq![bytes[0]] + rest);
        assert(bytes =~= seq![bytes[0]] + rest);
    } else {
        assert(little_endian(0, 0) =~= bytes);
    }
}

/// Scalars are canonical: bytes that read as one are the bytes that writing it
/// gives.
pub proof fn lemma_scalar_canonical(p: Primitive, bytes: Seq<u8>)
    requires
        bytes.len() == primitive_width(p),
        scalar_of(p, from_little_endian(bytes)) is Ok,
    ensures
        ({
            let x = scalar_of(p, from_little_endian(bytes))->Ok_0;
            &&& scalar_type(x) == p
            &&& scalar_bytes(x) == bytes
        }),
{
    let bits = from_little_endian(bytes);
    lemma_bytes_back(bytes);
    lemma_from_little_endian_bound(bytes);
    lemma_pow256();
    match p {
        Primitive::I8 => {
            let b = bits as u8;
            assert((b as i8) as u8 == b) by (bit_vector);
        },
        Primitive::I16 => {
            let b = bits as u16;
            assert((b as i16) as u16 == b) by (bit_vector);
        },
        Primitive::I32 => {
            let b = bits as u32;
            assert((b as i32) as u32 == b) by (bit_vector);
        },
        Primitive::I64 => {
            let b = bits as u64;
            assert((b as i64) as u64 == b) by (bit_vector);
        },
        Primitive::I128 => {
            let b = bits as u128;
            assert((b as i128) as u128 == b) by (bit_vector);
        },
        Primitive::Char => {
            vstd::utf8::char_u32_cast((bits as u32) as char, bits as u32);
        },
        _ => {},
    }
}

/// The numbers below `n`.
pub open spec fn ids(n: nat) -> Seq<u64> {
    Seq::new(n, |i: int| i as u64)
}

/// The shared objects that a reader has met, each under its key.
pub open spec fn noted(cur: Cur) -> Seq<Seq<u64>> {
    Seq::new(cur.bufs.len(), |c: int| ids(cur.regs[c].len()))
}

/// A row with what a reader has consumed appended to its columns.
pub open spec fn copied(cur: Cur, end: Cur, row: Row) -> Row {
    Row {
        cols: Seq::new(
            row.cols.len(),
            |c: int| row.cols[c] + cur.bufs[c].subrange(cur.pos[c] as int, end.pos[c] as int),
        ),
        book: noted(end),
    }
}

/// The reader has moved on, within the same columns.
pub open spec fn ahead(cur: Cur, end: Cur) -> bool {
    &&& end.bufs == cur.bufs
    &&& end.well_formed()
    &&& forall|c: int| 0 <= c < cur.bufs.len() ==> cur.pos[c] <= #[trigger] end.pos[c]
}

/// A row beside the reader: as many columns, and the same objects.
pub open spec fn beside(cur: Cur, row: Row) -> bool {
    &&& cur.well_formed()
    &&& row.cols.len() == cur.bufs.len()
    &&& row.book == noted(cur)
}

proof fn lemma_copied_none(cur: Cur, row: Row)
    requires
        beside(cur, row),
    ensures
        ahead(cur, cur),
        copied(cur, cur, row) == row,
{
    assert(copied(cur, cur, row).cols =~= row.cols) by {
        assert forall|c: int| 0 <= c < row.cols.len() implies copied(cur, cur, row).cols[c]
            == row.cols[c] by {
            assert(cur.pos[c] <= cur.bufs[c].len());
            assert(copied(cur, cur, row).cols[c] =~= row.cols[c]);
        }
    }
}

proof fn lemma_copied_one(cur: Cur, row: Row, col: nat, n: nat)
    requires
        beside(cur, row),
        col < row.cols.len(),
        n <= cur.rest(col).len(),
    ensures
        ahead(cur, cur.advance(col, n)),
        beside(
            cur.advance(col, n),
            copied(cur, cur.advance(col, n), row),
        ),
        copied(cur, cur.advance(col, n), row) == row.append(
            col,
            cur.rest(col).subrange(0, n as int),
        ),
{
    let end = cur.advance(col, n);
    assert(cur.pos[col as int] <= cur.bufs[col as int].len());
    assert forall|c: int| 0 <= c < cur.bufs.len() implies cur.pos[c] <= #[trigger] end.pos[c] && end.pos[c]
        <= end.bufs[c].len() by {
        assert(cur.pos[c] <= cur.bufs[c].len());
    }
    let a = copied(cur, end, row);
    let b = row.append(col, cur.rest(col).subrange(0, n as int));
    assert(noted(end) =~= noted(cur));
    assert forall|c: int| 0 <= c < a.cols.len() implies a.cols[c] == b.cols[c] by {
        assert(cur.pos[c] <= cur.bufs[c].len());
        if c == col {
            assert(cur.bufs[c].subrange(cur.pos[c] as int, end.pos[c] as int) =~= cur.rest(
                col,
            ).subrange(0, n as int));
        } else {
            assert(a.cols[c] =~= row.cols[c]);
        }
    }
    assert(a.cols =~= b.cols);
}

proof fn lemma_copied_twice(cur: Cur, mid: Cur, end: Cur, row: Row)
    requires
        beside(cur, row),
        ahead(cur, mid),
        ahead(mid, end),
    ensures
        ahead(cur, end),
        beside(mid, copied(cur, mid, row)),
        copied(mid, end, copied(cur, mid, row)) == copied(cur, end, row),
{
    let a = copied(mid, end, copied(cur, mid, row));
    let b = copied(cur, end, row);
    assert forall|c: int| 0 <= c < cur.bufs.len() implies cur.pos[c] <= #[trigger] end.pos[c] by {
        assert(cur.pos[c] <= mid.pos[c] <= end.pos[c]);
    }
    assert forall|c: int| 0 <= c < a.cols.len() implies a.cols[c] == b.cols[c] by {
        assert(cur.pos[c] <= mid.pos[c] <= end.pos[c]);
        assert(end.pos[c] <= end.bufs[c].len());
        assert(a.cols[c] =~= b.cols[c]);
    }
    assert(a.cols =~= b.cols);
}

/// A varint that was read is the one that is written.
proof fn lemma_copied_varint(cur: Cur, row: Row, col: nat)
    requires
        beside(cur, row),
        col < row.cols.len(),
        cur.varint(col) is Ok,
    ensures
        ({
            let (value, next) = cur.varint(col)->Ok_0;
            &&& value <= u64::MAX
            &&& ahead(cur, next)
            &&& next.regs == cur.regs
            &&& beside(next, copied(cur, next, row))
            &&& copied(cur, next, row) == row.append(col, varint::encoded(value))
        }),
{
    varint::lemma_encode_decode(cur.rest(col));
    let used = varint::decoded(cur.rest(col))->Ok_0.1;
    lemma_copied_one(cur, row, col, used);
}

proof fn lemma_copied_bytes(base: nat, cur: Cur, row: Row)
    requires
        beside(cur, row),
        base + 2 <= row.cols.len(),
        get_bytes(base, cur) is Ok,
    ensures
        ({
            let (bytes, end) = get_bytes(base, cur)->Ok_0;
            &&& ahead(cur, end)
            &&& copied(cur, end, row) == put_bytes(bytes, base, row)
        }),
{
    lemma_copied_varint(cur, row, base);
    let (n, next) = cur.len(base)->Ok_0;
    let mid = copied(cur, next, row);
    lemma_copied_one(next, mid, base + 1, n);
    let end = get_bytes(base, cur)->Ok_0.1;
    lemma_copied_twice(cur, next, end, row);
}

proof fn lemma_ids(n: nat, key: nat)
    requires
        n <= u64::MAX,
        key <= u64::MAX,
    ensures
        key < n ==> place_of(ids(n), key as u64) == Some(key),
        key >= n ==> place_of(ids(n), key as u64) is None,
{
    lemma_place(ids(n), key as u64);
    if key < n {
        assert(ids(n)[key as int] == key as u64);
        let k = place_of(ids(n), key as u64)->0;
        assert(ids(n)[k as int] == k as u64);
    } else if place_of(ids(n), key as u64) is Some {
        let k = place_of(ids(n), key as u64)->0;
        assert(ids(n)[k as int] == k as u64);
    }
}

/// The parts of a count that were read come after it in the columns, and the
/// count is written after them, to a column that they do not touch.
proof fn lemma_count_last(cur: Cur, next: Cur, end: Cur, row: Row, col: nat, bytes: Seq<u8>)
    requires
        beside(cur, row),
        col < row.cols.len(),
        ahead(cur, next),
        next.regs == cur.regs,
        ahead(next, end),
        end.pos[col as int] == next.pos[col as int],
        copied(cur, next, row) == row.append(col, bytes),
    ensures
        ahead(cur, end),
        beside(next, row),
        copied(next, end, row).append(col, bytes) == copied(cur, end, row),
{
    lemma_copied_twice(cur, next, end, row);
    assert(noted(next) =~= noted(cur));
    let a = copied(next, end, row).append(col, bytes);
    let b = copied(cur, end, row);
    let mid = copied(cur, next, row);
    assert forall|c: int| 0 <= c < a.cols.len() implies a.cols[c] == b.cols[c] by {
        assert(cur.pos[c] <= next.pos[c] <= end.pos[c]);
        assert(end.pos[c] <= end.bufs[c].len());
        let first = cur.bufs[c].subrange(cur.pos[c] as int, next.pos[c] as int);
        let second = cur.bufs[c].subrange(next.pos[c] as int, end.pos[c] as int);
        assert(mid.cols[c] == row.cols[c] + first);
        assert(b.cols[c] =~= row.cols[c] + first + second);
        if c == col {
            assert(second =~= seq![]);
            assert(row.cols[c] + first == row.cols[c] + bytes);
            assert(a.cols[c] =~= row.cols[c] + bytes);
        } else {
            assert(row.cols[c] + first == row.cols[c]);
            assert(first.len() == 0);
            assert(a.cols[c] =~= row.cols[c] + second);
            assert(b.cols[c] =~= row.cols[c] + second);
        }
    }
    assert(a.cols =~= b.cols);
}

proof fn lemma_items_canonical(s: Shape, base: nat, cur: Cur, row: Row, n: nat, v: Val)
    requires
        s.well_formed(),
        s.kids.len() == 1,
        beside(cur, row),
        base + 1 + width_of(s.kids[0]) <= row.cols.len(),
        get_items(s, base, cur, n) is Ok,
        n <= v.kids.len(),
        forall|i: int| 0 <= i < n ==> #[trigger] v.kids[i] == get_items(s, base, cur, n)->Ok_0.0[i],
    ensures
        ({
            let (kids, end) = get_items(s, base, cur, n)->Ok_0;
            &&& kids.len() == n
            &&& ahead(cur, end)
            &&& base < cur.bufs.len() ==> end.pos[base as int] == cur.pos[base as int]
            &&& put_items(v, s, base, row, n) == Ok::<Row, Fault>(copied(cur, end, row))
        }),
    decreases s, 0nat, n,
{
    if n == 0 {
        lemma_copied_none(cur, row);
    } else {
        let m = (n - 1) as nat;
        let (some, next) = get_items(s, base, cur, m)->Ok_0;
        let (kids, end) = get_items(s, base, cur, n)->Ok_0;
        lemma_items_len(s, base, cur, m);
        assert forall|i: int| 0 <= i < m implies #[trigger] v.kids[i] == some[i] by {
            assert(kids[i] == some[i]);
        }
        lemma_items_canonical(s, base, cur, row, m, v);
        lemma_copied_twice(cur, next, next, row);
        let mid = copied(cur, next, row);
        assert(s.kids[0].well_formed());
        lemma_canonical(s.kids[0], base + 1, next, mid);
        lemma_get_within(s.kids[0], base + 1, next);
        lemma_copied_twice(cur, next, end, row);
        assert(v.kids[n - 1] == kids[n - 1]);
    }
}

proof fn lemma_items_len(s: Shape, base: nat, cur: Cur, n: nat)
    requires
        s.kids.len() == 1,
        get_items(s, base, cur, n) is Ok,
    ensures
        get_items(s, base, cur, n)->Ok_0.0.len() == n,
    decreases n,
{
    if n > 0 {
        lemma_items_len(s, base, cur, (n - 1) as nat);
    }
}

proof fn lemma_entries_len(s: Shape, base: nat, cur: Cur, n: nat)
    requires
        s.kids.len() == 2,
        get_entries(s, base, cur, n) is Ok,
    ensures
        get_entries(s, base, cur, n)->Ok_0.0.len() == n,
    decreases n,
{
    if n > 0 {
        lemma_entries_len(s, base, cur, (n - 1) as nat);
    }
}

proof fn lemma_fields_len(s: Shape, base: nat, cur: Cur, n: nat)
    requires
        n <= s.kids.len(),
        get_fields(s, base, cur, n) is Ok,
    ensures
        get_fields(s, base, cur, n)->Ok_0.0.len() == n,
    decreases n,
{
    if n > 0 {
        lemma_fields_len(s, base, cur, (n - 1) as nat);
    }
}

proof fn lemma_entries_canonical(s: Shape, base: nat, cur: Cur, row: Row, n: nat, v: Val)
    requires
        s.well_formed(),
        s.kids.len() == 2,
        beside(cur, row),
        base + 1 + width_of(s.kids[0]) + width_of(s.kids[1]) <= row.cols.len(),
        get_entries(s, base, cur, n) is Ok,
        n <= v.kids.len(),
        forall|i: int|
            0 <= i < n ==> #[trigger] v.kids[i] == get_entries(s, base, cur, n)->Ok_0.0[i],
    ensures
        ({
            let end = get_entries(s, base, cur, n)->Ok_0.1;
            &&& ahead(cur, end)
            &&& end.pos[base as int] == cur.pos[base as int]
            &&& put_entries(v, s, base, row, n) == Ok::<Row, Fault>(copied(cur, end, row))
        }),
    decreases s, 0nat, n,
{
    if n == 0 {
        lemma_copied_none(cur, row);
    } else {
        let m = (n - 1) as nat;
        let (some, next) = get_entries(s, base, cur, m)->Ok_0;
        let (kids, end) = get_entries(s, base, cur, n)->Ok_0;
        lemma_entries_len(s, base, cur, m);
        assert forall|i: int| 0 <= i < m implies #[trigger] v.kids[i] == some[i] by {
            assert(kids[i] == some[i]);
        }
        lemma_entries_canonical(s, base, cur, row, m, v);
        lemma_copied_twice(cur, next, next, row);
        let mid = copied(cur, next, row);
        assert(s.kids[0].well_formed() && s.kids[1].well_formed());
        let (key, keyed) = get(s.kids[0], base + 1, next)->Ok_0;
        lemma_canonical(s.kids[0], base + 1, next, mid);
        lemma_get_within(s.kids[0], base + 1, next);
        lemma_copied_twice(cur, next, keyed, row);
        lemma_copied_twice(cur, keyed, keyed, row);
        let more = copied(cur, keyed, row);
        let at = base + 1 + width_of(s.kids[0]);
        lemma_canonical(s.kids[1], at, keyed, more);
        lemma_get_within(s.kids[1], at, keyed);
        lemma_copied_twice(cur, keyed, end, row);
        assert(v.kids[n - 1] == kids[n - 1]);
    }
}

proof fn lemma_fields_canonical(s: Shape, base: nat, cur: Cur, row: Row, n: nat, v: Val)
    requires
        s.well_formed(),
        n <= s.kids.len(),
        beside(cur, row),
        base + width_of(s) <= row.cols.len(),
        get_fields(s, base, cur, n) is Ok,
        n <= v.kids.len(),
        forall|i: int|
            0 <= i < n ==> #[trigger] v.kids[i] == get_fields(s, base, cur, n)->Ok_0.0[i],
    ensures
        ({
            let end = get_fields(s, base, cur, n)->Ok_0.1;
            &&& ahead(cur, end)
            &&& put_fields(v, s, base, row, n) == Ok::<Row, Fault>(copied(cur, end, row))
            &&& put_named(v, s.labels, s, base, row, n) == Ok::<Row, Fault>(copied(cur, end, row))
        }),
    decreases s, 0nat, n,
{
    if n == 0 {
        lemma_copied_none(cur, row);
    } else {
        let m = (n - 1) as nat;
        let (some, next) = get_fields(s, base, cur, m)->Ok_0;
        let (kids, end) = get_fields(s, base, cur, n)->Ok_0;
        lemma_fields_len(s, base, cur, m);
        assert forall|i: int| 0 <= i < m implies #[trigger] v.kids[i] == some[i] by {
            assert(kids[i] == some[i]);
        }
        lemma_fields_canonical(s, base, cur, row, m, v);
        lemma_copied_twice(cur, next, next, row);
        let mid = copied(cur, next, row);
        assert(s.kids[m as int].well_formed());
        lemma_kid_columns(s, m);
        lemma_canonical(s.kids[m as int], kid_base(s, base, m), next, mid);
        lemma_copied_twice(cur, next, end, row);
        assert(v.kids[n - 1] == kids[n - 1]);
    }
}

/// Reading accepts nothing that is not written: the bytes that a value is read
/// from are, column by column, the bytes that writing the value appends, and the
/// value that is read is one that is written.
pub proof fn lemma_canonical(s: Shape, base: nat, cur: Cur, row: Row)
    requires
        s.well_formed(),
        beside(cur, row),
        base + width_of(s) <= row.cols.len(),
        get(s, base, cur) is Ok,
    ensures
        ({
            let (v, end) = get(s, base, cur)->Ok_0;
            &&& ahead(cur, end)
            &&& put(v, s, base, row) == Ok::<Row, Fault>(copied(cur, end, row))
        }),
    decreases s, 1nat, 0nat,
{
    let (v, end) = get(s, base, cur)->Ok_0;
    match s.kind {
        Kind::Primitive(p) => {
            let bytes = cur.take(base, primitive_width(p))->Ok_0.0;
            lemma_copied_one(cur, row, base, primitive_width(p));
            lemma_scalar_canonical(p, bytes);
        },
        Kind::String => {
            lemma_copied_bytes(base, cur, row);
            let bytes = get_bytes(base, cur)->Ok_0.0;
            vstd::utf8::decode_utf8_encode_utf8(bytes);
        },
        Kind::Bytes => {
            lemma_copied_bytes(base, cur, row);
        },
        Kind::Unit | Kind::UnitStruct => {
            lemma_copied_none(cur, row);
        },
        Kind::NewtypeStruct => {
            lemma_one_kid_columns(s);
            assert(s.kids[0].well_formed());
            lemma_canonical(s.kids[0], base, cur, row);
        },
        Kind::Option => {
            lemma_one_kid_columns(s);
            let (tag, next) = cur.take(base, 1)->Ok_0;
            lemma_copied_one(cur, row, base, 1);
            assert(tag =~= seq![tag[0]]);
            if tag[0] == 1 {
                assert(s.kids[0].well_formed());
                let mid = copied(cur, next, row);
                lemma_canonical(s.kids[0], base + 1, next, mid);
                lemma_copied_twice(cur, next, end, row);
            }
        },
        Kind::Sequence => {
            lemma_one_kid_columns(s);
            let (n, next) = count("sequence length"@, width_of(s.kids[0]), base, cur)->Ok_0;
            lemma_copied_varint(cur, row, base);
            assert(noted(next) =~= noted(cur));
            lemma_items_len(s, base, next, n);
            lemma_items_canonical(s, base, next, row, n, v);
            lemma_count_last(cur, next, end, row, base, varint::encoded(n));
        },
        Kind::Mapping => {
            lemma_two_kids_columns(s);
            let (n, next) = count(
                "map length"@,
                width_of(s.kids[0]) + width_of(s.kids[1]),
                base,
                cur,
            )->Ok_0;
            lemma_copied_varint(cur, row, base);
            assert(noted(next) =~= noted(cur));
            lemma_entries_len(s, base, next, n);
            lemma_entries_canonical(s, base, next, row, n, v);
            lemma_count_last(cur, next, end, row, base, varint::encoded(n));
        },
        Kind::Tuple | Kind::TupleStruct => {
            lemma_fields_len(s, base, cur, s.kids.len());
            lemma_fields_canonical(s, base, cur, row, s.kids.len(), v);
        },
        Kind::Struct => {
            lemma_fields_len(s, base, cur, s.kids.len());
            lemma_fields_canonical(s, base, cur, row, s.kids.len(), v);
            assert(put_all_named(v, s.labels, s, base, row) == Ok::<Row, Fault>(
                copied(cur, end, row),
            ));
        },
        Kind::Enum => {
            let (i, next) = variant_tag(s.kids.len(), base, cur)->Ok_0;
            lemma_copied_varint(cur, row, base);
            let mid = copied(cur, next, row);
            let k = s.kids[i as int];
            let at = kid_base(s, base, i);
            assert(k.well_formed() && crate::shape::is_variant(k.kind));
            lemma_kid_columns(s, i);
            lemma_fields_len(k, at, next, k.kids.len());
            lemma_fields_canonical(k, at, next, mid, k.kids.len(), v);
            lemma_copied_twice(cur, next, end, row);
            match k.kind {
                Kind::NewtypeVariant => {
                    lemma_one_kid_columns(k);
                    assert(put_fields(v, k, at, mid, 0) == Ok::<Row, Fault>(mid));
                    assert(put_fields(v, k, at, mid, 1) == put(v.kids[0], k.kids[0], at, mid));
                },
                Kind::StructVariant => {
                    assert(put_all_named(v, k.labels, k, at, mid) == Ok::<Row, Fault>(
                        copied(next, end, mid),
                    ));
                },
                Kind::UnitVariant => {
                    assert(put_fields(v, k, at, mid, 0) == Ok::<Row, Fault>(mid));
                },
                _ => {},
            }
        },
        Kind::Shared => {
            lemma_one_kid_columns(s);
            lemma_copied_varint(cur, row, base);
            let (key, next) = cur.varint(base)->Ok_0;
            let held = next.regs[base as int].len();
            assert(noted(cur)[base as int] == ids(held));
            if key < held {
                lemma_short_ids(held, key);
            } else {
                lemma_ids(held, key);
                assert(s.kids[0].well_formed());
                let mid = copied(cur, next, row).record(base, key as u64);
                let start = next.reserve(base);
                assert(ids(held + 1) =~= ids(held).push(key as u64));
                assert(noted(start) =~= mid.book);
                lemma_canonical(s.kids[0], base + 1, start, mid);
                lemma_get_within(s.kids[0], base + 1, start);
                let (x, inner) = get(s.kids[0], base + 1, start)->Ok_0;
                assert(noted(end) =~= noted(inner)) by {
                    assert forall|c: int| 0 <= c < cur.bufs.len() implies noted(end)[c] == noted(
                        inner,
                    )[c] by {
                        assert(end.regs[c].len() == inner.regs[c].len());
                    }
                }
                assert(ahead(next, end)) by {
                    assert forall|c: int| 0 <= c < cur.bufs.len() implies next.pos[c]
                        <= #[trigger] end.pos[c] by {
                        assert(start.pos[c] <= inner.pos[c]);
                    }
                }
                lemma_copied_twice(cur, next, end, row);
                assert(copied(start, inner, mid) == copied(next, end, copied(cur, next, row))) by {
                    assert(copied(start, inner, mid).cols =~= copied(
                        next,
                        end,
                        copied(cur, next, row),
                    ).cols);
                }
            }
        },
        _ => {},
    }
}

/// A key stands at its own place, however many keys there are.
proof fn lemma_short_ids(n: nat, key: nat)
    requires
        key < n,
        key <= u64::MAX,
    ensures
        place_of(ids(n), key as u64) == Some(key),
    decreases n,
{
    lemma_place(ids(n), key as u64);
    assert(ids(n)[key as int] == key as u64);
    let k = place_of(ids(n), key as u64)->0;
    assert(ids(n)[k as int] == k as u64);
    assert(k <= key);
}

/// The columns up to where a reader stands.
spec fn behind(cur: Cur) -> Seq<Seq<u8>> {
    Seq::new(cur.bufs.len(), |c: int| cur.bufs[c].subrange(0, cur.pos[c] as int))
}

proof fn lemma_rows_canonical(s: Shape, cols: Seq<Seq<u8>>, rows: nat, k: nat, vs: Seq<Val>)
    requires
        s.well_formed(),
        cols.len() == width_of(s),
        k <= rows,
        k <= vs.len(),
        pulled(s, cols, rows, k) is Ok,
        forall|i: int| 0 <= i < k ==> #[trigger] vs[i] == pulled(s, cols, rows, k)->Ok_0.0[i],
    ensures
        ({
            let (some, cur) = pulled(s, cols, rows, k)->Ok_0;
            &&& some.len() == k
            &&& cur.bufs == cols
            &&& cur.well_formed()
            &&& fresh(cur) == cur
            &&& pushed(s, vs, k) == Ok::<Seq<Seq<u8>>, Fault>(behind(cur))
            &&& k > 0 && k == rows ==> spent(cur)
        }),
    decreases k,
{
    if k == 0 {
        let cur = at_start(cols);
        assert(fresh(cur).regs =~= cur.regs);
        assert(behind(cur) =~= no_rows(s)) by {
            assert forall|c: int| 0 <= c < cols.len() implies behind(cur)[c] == no_rows(s)[c] by {
                assert(behind(cur)[c] =~= no_rows(s)[c]);
            }
        }
    } else {
        let m = (k - 1) as nat;
        let (few, cur) = pulled(s, cols, rows, m)->Ok_0;
        let (some, last) = pulled(s, cols, rows, k)->Ok_0;
        lemma_pulled_len(s, cols, rows, m);
        assert forall|i: int| 0 <= i < m implies #[trigger] vs[i] == few[i] by {
            assert(some[i] == few[i]);
        }
        lemma_rows_canonical(s, cols, rows, m, vs);
        let row = new_row(behind(cur));
        assert(row.book =~= noted(cur)) by {
            assert forall|c: int| 0 <= c < cols.len() implies row.book[c] == noted(cur)[c] by {
                assert(fresh(cur).regs[c] == cur.regs[c]);
                assert(noted(cur)[c] =~= Seq::<u64>::empty());
            }
        }
        let (v, next) = get(s, 0, cur)->Ok_0;
        lemma_canonical(s, 0, cur, row);
        assert(vs[m as int] == v) by {
            assert(some[m as int] == v);
        }
        assert(last == fresh(next));
        assert(fresh(last).regs =~= last.regs);
        assert(copied(cur, next, row).cols =~= behind(last)) by {
            assert forall|c: int| 0 <= c < cols.len() implies copied(cur, next, row).cols[c]
                == behind(last)[c] by {
                assert(cur.pos[c] <= next.pos[c]);
                assert(next.pos[c] <= next.bufs[c].len());
                assert(copied(cur, next, row).cols[c] =~= behind(last)[c]);
            }
        }
        if k == rows {
            assert(spent(next));
            assert forall|c: int| 0 <= c < last.bufs.len() implies #[trigger] last.pos[c]
                == last.bufs[c].len() by {
                assert(next.pos[c] == next.bufs[c].len());
            }
        }
    }
}

proof fn lemma_pulled_len(s: Shape, cols: Seq<Seq<u8>>, rows: nat, k: nat)
    requires
        pulled(s, cols, rows, k) is Ok,
    ensures
        pulled(s, cols, rows, k)->Ok_0.0.len() == k,
    decreases k,
{
    if k > 0 {
        lemma_pulled_len(s, cols, rows, (k - 1) as nat);
    }
}

/// A batch that is read to its end is one that was written: its bytes are those
/// of the batch of the values that are read. Nothing else is accepted.
pub proof fn lemma_batch_canonical(input: Seq<u8>, s: Shape)
    requires
        s.well_formed(),
        opened(input, width_of(s)) matches Ok((rows, cols)) && rows > 0 && pulled(
            s,
            cols,
            rows,
            rows,
        ) is Ok,
    ensures
        ({
            let (rows, cols) = opened(input, width_of(s))->Ok_0;
            let vs = pulled(s, cols, rows, rows)->Ok_0.0;
            &&& vs.len() == rows
            &&& pushed(s, vs, rows) == Ok::<Seq<Seq<u8>>, Fault>(cols)
            &&& input == blob(rows, cols)
        }),
{
    let (rows, cols) = opened(input, width_of(s))->Ok_0;
    lemma_blob_opened(input, width_of(s));
    let (vs, cur) = pulled(s, cols, rows, rows)->Ok_0;
    lemma_pulled_len(s, cols, rows, rows);
    lemma_rows_canonical(s, cols, rows, rows, vs);
    assert(behind(cur) =~= cols) by {
        assert forall|c: int| 0 <= c < cols.len() implies behind(cur)[c] == cols[c] by {
            assert(cur.pos[c] == cur.bufs[c].len());
            assert(behind(cur)[c] =~= cols[c]);
        }
    }
}

/// A blob that a single value is read from is the blob of that value.
pub proof fn lemma_single_canonical(input: Seq<u8>, s: Shape)
    requires
        s.well_formed(),
        single(input, s) is Ok,
    ensures
        push_row(s, no_rows(s), single(input, s)->Ok_0) matches Ok(cols) && input == blob(1, cols),
{
    let cols = opened(input, width_of(s))->Ok_0.1;
    assert(pulled(s, cols, 1, 0) == Ok::<(Seq<Val>, Cur), Fault>((seq![], at_start(cols))));
    let v = single(input, s)->Ok_0;
    let last = next_row(s, at_start(cols), 1)->Ok_0.1;
    assert(pulled(s, cols, 1, 1) == Ok::<(Seq<Val>, Cur), Fault>((seq![].push(v), last)));
    lemma_batch_canonical(input, s);
    let vs = pulled(s, cols, 1, 1)->Ok_0.0;
    assert(vs[0] == v);
    assert(pushed(s, vs, 0) == Ok::<Seq<Seq<u8>>, Fault>(no_rows(s)));
}

} // verus!
