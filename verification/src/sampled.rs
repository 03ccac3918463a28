//! The values that sampled rows stand for.

use vstd::prelude::*;
use vstd::utf8::{encode_utf8, leading_byte_width_1};

use crate::batch::{new_row, no_rows};
use crate::error::Fault;
use crate::get::variant_head;
use crate::probe::{
    inhabited, lemma_chosen, lemma_image_len, lemma_parts_len, sample_chosen, sample_columns,
    sample_image, sample_parts, sample_scalar,
};
use crate::product::lemma_put_labelled;
use crate::put::{
    find_variant, lemma_put, put, put_all_named, put_entries, put_fields, put_items, put_named, Row,
};
use crate::shape::{
    columns_before, is_variant, kid_base, lemma_kid_columns, lemma_one_kid_columns,
    lemma_two_kids_columns, own_columns, width_of, Kind, Shape,
};
use crate::trips::pushed;
use crate::typed_ser::{
    blank, layered, lemma_stamp_append, lemma_stamp_before, lemma_stamp_twice, stamped,
};
use crate::value::{atom, entry, Head, Val};
use crate::varint;
use crate::wire::fits;

verus! {

/// The value that the row which `pick` chooses holds at a position.
pub open spec fn sample_value(s: Shape, pick: nat) -> Val
    decreases s, 1nat,
{
    match s.kind {
        Kind::Primitive(p) => atom(Head::Scalar(sample_scalar(p))),
        Kind::String => atom(Head::Str(seq!['a'])),
        Kind::Bytes => atom(Head::Bytes(seq![0u8])),
        Kind::UnitStruct => atom(Head::UnitStruct(s.name)),
        Kind::Option => Val { head: Head::Present, kids: part_values(s, pick) },
        Kind::NewtypeStruct => Val {
            head: Head::NewtypeStruct(s.name),
            kids: part_values(s, pick),
        },
        Kind::Sequence => Val { head: Head::Sequence, kids: part_values(s, pick) },
        Kind::Mapping => Val {
            head: Head::Mapping,
            kids: seq![entry(part_values(s, pick)[0], part_values(s, pick)[1])],
        },
        Kind::Tuple => Val { head: Head::Tuple, kids: part_values(s, pick) },
        Kind::TupleStruct => Val { head: Head::TupleStruct(s.name), kids: part_values(s, pick) },
        Kind::Struct => Val {
            head: Head::Struct(s.name, s.labels),
            kids: part_values(s, pick),
        },
        Kind::Enum => {
            let i = pick % s.kids.len();
            if 0 <= i < s.kids.len() {
                Val {
                    head: variant_head(s, i),
                    kids: part_values(s.kids[i as int], pick / s.kids.len()),
                }
            } else {
                atom(Head::Unit)
            }
        },
        Kind::Shared => Val { head: Head::Shared(0), kids: part_values(s, pick) },
        _ => atom(Head::Unit),
    }
}

/// The values of the parts of a position.
pub open spec fn part_values(s: Shape, pick: nat) -> Seq<Val>
    decreases s, 0nat,
{
    Seq::new(
        s.kids.len(),
        |j: int|
            if 0 <= j < s.kids.len() {
                sample_value(s.kids[j], pick)
            } else {
                atom(Head::Unit)
            },
    )
}

/// No object has been shared in the columns from `base` on.
pub open spec fn unshared(row: Row, base: nat, width: nat) -> bool {
    forall|c: int| base <= c < base + width ==> (#[trigger] row.book[c]).len() == 0
}

/// What is appended does not depend on the shared objects.
proof fn lemma_stamp_cols(a: Row, b: Row, base: nat, image: Seq<Seq<u8>>)
    requires
        a.cols == b.cols,
    ensures
        stamped(a, base, image).cols == stamped(b, base, image).cols,
{
    assert(stamped(a, base, image).cols =~= stamped(b, base, image).cols);
}

proof fn lemma_letter()
    ensures
        encode_utf8(seq!['a']) == seq![0x61u8],
{
    let text = seq!['a'];
    assert(text.drop_first() =~= seq![]);
    assert(encode_utf8(text.drop_first()) =~= seq![]);
    assert(leading_byte_width_1(0x61u32) == 0x61u8) by (bit_vector);
    assert(encode_utf8(text) =~= seq![0x61u8]);
}

proof fn lemma_one_part(s: Shape, pick: nat)
    requires
        s.kids.len() == 1,
    ensures
        sample_parts(s, pick, 1) == sample_image(s.kids[0], pick),
{
    assert(sample_parts(s, pick, 0) =~= seq![]);
    assert(sample_parts(s, pick, 1) =~= sample_image(s.kids[0], pick));
}

/// A head in a column of its own, and the only part after it.
proof fn lemma_head_cols(s: Shape, pick: nat, base: nat, row: Row, next: Row, head: Seq<u8>)
    requires
        s.kids.len() == 1,
        base < row.cols.len(),
        next.cols == row.append(base, head).cols,
    ensures
        stamped(next, base + 1, sample_image(s.kids[0], pick)).cols == stamped(
            row,
            base,
            seq![head] + sample_parts(s, pick, 1),
        ).cols,
{
    let image = sample_image(s.kids[0], pick);
    lemma_one_part(s, pick);
    lemma_stamp_append(row, base, head);
    lemma_stamp_cols(next, row.append(base, head), base + 1, image);
    lemma_stamp_twice(row, base, seq![head], image);
}

/// Parts, and a count before them.
proof fn lemma_count_cols(row: Row, after: Row, base: nat, count: Seq<u8>, image: Seq<Seq<u8>>)
    requires
        after.cols == stamped(row, base + 1, image).cols,
        base + 1 + image.len() <= row.cols.len(),
    ensures
        after.append(base, count).cols == stamped(row, base, seq![count] + image).cols,
{
    lemma_stamp_before(row, base, count, image);
    assert(after.append(base, count).cols =~= stamped(row, base + 1, image).append(
        base,
        count,
    ).cols);
}

/// The parts of a product, or of the payload of a variant.
proof fn lemma_parts(s: Shape, v: Val, pick: nat, base: nat, row: Row, n: nat)
    requires
        s.well_formed(),
        inhabited(s),
        fits(s),
        !(s.kind is Enum),
        own_columns(s.kind) == 0,
        v.kids.len() == s.kids.len(),
        forall|j: int|
            0 <= j < s.kids.len() ==> #[trigger] v.kids[j] == sample_value(s.kids[j], pick),
        n <= s.kids.len(),
        row.well_formed(),
        base + width_of(s) <= row.cols.len(),
        unshared(row, base, width_of(s)),
    ensures
        ({
            let after = put_fields(v, s, base, row, n)->Ok_0;
            &&& put_fields(v, s, base, row, n) is Ok
            &&& after.well_formed()
            &&& after.cols == stamped(row, base, sample_parts(s, pick, n)).cols
            &&& forall|c: int|
                base + columns_before(s, n) <= c < base + width_of(s) ==> (
                #[trigger] after.book[c]).len() == 0
        }),
    decreases s, 0nat, n,
{
    if n == 0 {
        assert(stamped(row, base, sample_parts(s, pick, 0)).cols =~= row.cols);
    } else {
        let m = (n - 1) as nat;
        lemma_parts(s, v, pick, base, row, m);
        lemma_parts_len(s, pick, m);
        lemma_kid_columns(s, m);
        let before = put_fields(v, s, base, row, m)->Ok_0;
        let kid = s.kids[m as int];
        let kb = kid_base(s, base, m);
        assert(kid.well_formed() && inhabited(kid) && fits(kid) && !is_variant(kid.kind));
        assert(v.kids[m as int] == sample_value(kid, pick));
        lemma_value(kid, pick, kb, before);
        lemma_put(v.kids[m as int], kid, kb, before);
        let image = sample_image(kid, pick);
        lemma_stamp_cols(before, stamped(row, base, sample_parts(s, pick, m)), kb, image);
        lemma_stamp_twice(row, base, sample_parts(s, pick, m), image);
    }
}

/// The sampled value of a position is written as the sampled row says.
spec fn written(s: Shape, pick: nat, base: nat, row: Row) -> bool {
    match put(sample_value(s, pick), s, base, row) {
        Ok(after) => after.cols == stamped(row, base, sample_image(s, pick)).cols,
        Err(_) => false,
    }
}

/// A sampled string.
proof fn lemma_string(s: Shape, pick: nat, base: nat, row: Row)
    requires
        s.kind is String,
        s.well_formed(),
        inhabited(s),
        fits(s),
        row.well_formed(),
        base + width_of(s) <= row.cols.len(),
        unshared(row, base, width_of(s)),
    ensures
        written(s, pick, base, row),
    decreases s, 0nat, 0nat,
{
    let image = sample_image(s, pick);
    assert(encode_utf8(seq!['a']) =~= seq![0x61u8]) by {
        lemma_letter();
    }
    lemma_stamp_append(row, base, image[0]);
    lemma_stamp_append(row.append(base, image[0]), base + 1, image[1]);
    lemma_stamp_twice(row, base, seq![image[0]], seq![image[1]]);
    assert(image =~= seq![image[0]] + seq![image[1]]);
}

/// A sampled byte string.
proof fn lemma_bytes(s: Shape, pick: nat, base: nat, row: Row)
    requires
        s.kind is Bytes,
        s.well_formed(),
        inhabited(s),
        fits(s),
        row.well_formed(),
        base + width_of(s) <= row.cols.len(),
        unshared(row, base, width_of(s)),
    ensures
        written(s, pick, base, row),
    decreases s, 0nat, 0nat,
{
    let image = sample_image(s, pick);
    lemma_stamp_append(row, base, image[0]);
    lemma_stamp_append(row.append(base, image[0]), base + 1, image[1]);
    lemma_stamp_twice(row, base, seq![image[0]], seq![image[1]]);
    assert(image =~= seq![image[0]] + seq![image[1]]);
}

/// A sampled option.
proof fn lemma_option(s: Shape, pick: nat, base: nat, row: Row)
    requires
        s.kind is Option,
        s.well_formed(),
        inhabited(s),
        fits(s),
        row.well_formed(),
        base + width_of(s) <= row.cols.len(),
        unshared(row, base, width_of(s)),
    ensures
        written(s, pick, base, row),
    decreases s, 0nat, 0nat,
{
    lemma_one_kid_columns(s);
    let next = row.append(base, seq![1u8]);
    let kid = s.kids[0];
    assert(kid.well_formed() && inhabited(kid) && fits(kid));
    lemma_value(kid, pick, base + 1, next);
    lemma_head_cols(s, pick, base, row, next, seq![1u8]);
}

/// A sampled sequence.
proof fn lemma_sequence(s: Shape, pick: nat, base: nat, row: Row)
    requires
        s.kind is Sequence,
        s.well_formed(),
        inhabited(s),
        fits(s),
        row.well_formed(),
        base + width_of(s) <= row.cols.len(),
        unshared(row, base, width_of(s)),
    ensures
        written(s, pick, base, row),
    decreases s, 0nat, 0nat,
{
    let v = sample_value(s, pick);
    lemma_one_kid_columns(s);
    let kid = s.kids[0];
    assert(kid.well_formed() && inhabited(kid) && fits(kid));
    lemma_value(kid, pick, base + 1, row);
    lemma_image_len(kid, pick);
    assert(put_items(v, s, base, row, 0) == Ok::<Row, Fault>(row));
    let after = put_items(v, s, base, row, 1)->Ok_0;
    lemma_one_part(s, pick);
    lemma_count_cols(row, after, base, varint::encoded(1), sample_image(kid, pick));
}

/// A sampled map.
proof fn lemma_mapping(s: Shape, pick: nat, base: nat, row: Row)
    requires
        s.kind is Mapping,
        s.well_formed(),
        inhabited(s),
        fits(s),
        row.well_formed(),
        base + width_of(s) <= row.cols.len(),
        unshared(row, base, width_of(s)),
    ensures
        written(s, pick, base, row),
    decreases s, 0nat, 0nat,
{
    let v = sample_value(s, pick);
    lemma_two_kids_columns(s);
    let (key, value) = (s.kids[0], s.kids[1]);
    let w = width_of(key);
    assert(key.well_formed() && inhabited(key) && fits(key));
    assert(value.well_formed() && inhabited(value) && fits(value));
    let (k, x) = (sample_value(key, pick), sample_value(value, pick));
    let (a, b) = (sample_image(key, pick), sample_image(value, pick));
    lemma_image_len(key, pick);
    lemma_image_len(value, pick);
    lemma_value(key, pick, base + 1, row);
    let keyed = put(k, key, base + 1, row)->Ok_0;
    lemma_put(k, key, base + 1, row);
    lemma_value(value, pick, base + 1 + w, keyed);
    assert(put_entries(v, s, base, row, 0) == Ok::<Row, Fault>(row));
    assert(v.kids[0].kids =~= seq![k, x]);
    let after = put_entries(v, s, base, row, 1)->Ok_0;
    lemma_stamp_cols(keyed, stamped(row, base + 1, a), base + 1 + w, b);
    lemma_stamp_twice(row, base + 1, a, b);
    lemma_count_cols(row, after, base, varint::encoded(1), a + b);
    assert(sample_parts(s, pick, 0) =~= seq![]);
    assert(sample_parts(s, pick, 1) =~= a);
    assert(sample_parts(s, pick, 2) =~= a + b);
}

/// A sampled shared object.
proof fn lemma_shared(s: Shape, pick: nat, base: nat, row: Row)
    requires
        s.kind is Shared,
        s.well_formed(),
        inhabited(s),
        fits(s),
        row.well_formed(),
        base + width_of(s) <= row.cols.len(),
        unshared(row, base, width_of(s)),
    ensures
        written(s, pick, base, row),
    decreases s, 0nat, 0nat,
{
    lemma_one_kid_columns(s);
    let code = varint::encoded(0);
    assert(row.book[base as int].len() == 0);
    let next = row.append(base, code).record(base, 0);
    let kid = s.kids[0];
    assert(kid.well_formed() && inhabited(kid) && fits(kid));
    lemma_value(kid, pick, base + 1, next);
    lemma_head_cols(s, pick, base, row, next, code);
}

/// A sampled value is written as the sampled row says.
proof fn lemma_value(s: Shape, pick: nat, base: nat, row: Row)
    requires
        s.well_formed(),
        inhabited(s),
        fits(s),
        !is_variant(s.kind),
        row.well_formed(),
        base + width_of(s) <= row.cols.len(),
        unshared(row, base, width_of(s)),
    ensures
        written(s, pick, base, row),
    decreases s, 1nat, 0nat,
{
    let v = sample_value(s, pick);
    let image = sample_image(s, pick);
    match s.kind {
        Kind::Primitive(p) => {
            lemma_stamp_append(row, base, image[0]);
        },
        Kind::String => {
            lemma_string(s, pick, base, row);
        },
        Kind::Bytes => {
            lemma_bytes(s, pick, base, row);
        },
        Kind::Unit | Kind::UnitStruct => {
            assert(stamped(row, base, sample_parts(s, pick, 0)).cols =~= row.cols);
        },
        Kind::Option => {
            lemma_option(s, pick, base, row);
        },
        Kind::Sequence => {
            lemma_sequence(s, pick, base, row);
        },
        Kind::Mapping => {
            lemma_mapping(s, pick, base, row);
        },
        Kind::Shared => {
            lemma_shared(s, pick, base, row);
        },
        Kind::Enum => {
            lemma_variant(s, pick, base, row);
        },
        Kind::NewtypeStruct => {
            lemma_one_kid_columns(s);
            let kid = s.kids[0];
            assert(kid.well_formed() && inhabited(kid) && fits(kid));
            lemma_value(kid, pick, base, row);
            lemma_one_part(s, pick);
        },
        Kind::Struct => {
            lemma_parts(s, v, pick, base, row, s.kids.len());
            lemma_put_labelled(v, v, s, s, base, row, s.kids.len());
            assert(put_all_named(v, s.labels, s, base, row) == put_named(
                v,
                s.labels,
                s,
                base,
                row,
                s.kids.len(),
            ));
        },
        _ => {
            lemma_parts(s, v, pick, base, row, s.kids.len());
        },
    }
}

/// A sampled value of an enum.
proof fn lemma_variant(s: Shape, pick: nat, base: nat, row: Row)
    requires
        s.kind is Enum,
        s.well_formed(),
        inhabited(s),
        fits(s),
        row.well_formed(),
        base + width_of(s) <= row.cols.len(),
        unshared(row, base, width_of(s)),
    ensures
        written(s, pick, base, row),
    decreases s, 0nat, 0nat,
{
    let v = sample_value(s, pick);
    let n = s.kids.len();
    let i = pick % n;
    let below = pick / n;
    let variant = s.kids[i as int];
    let tag = varint::encoded(i);
    let next = row.append(base, tag);
    let kb = kid_base(s, base, i);
    assert(variant.well_formed() && inhabited(variant) && fits(variant));
    assert(is_variant(variant.kind));
    lemma_kid_columns(s, i);
    assert(find_variant(s.labels, i as u64, s.labels[i as int]) == Some(i));
    lemma_parts(variant, v, below, kb, next, variant.kids.len());
    let after = put_fields(v, variant, kb, next, variant.kids.len())->Ok_0;
    match variant.kind {
        Kind::UnitVariant => {},
        Kind::NewtypeVariant => {
            assert(put_fields(v, variant, kb, next, 0) == Ok::<Row, Fault>(next));
            assert(kid_base(variant, kb, 0) == kb);
        },
        Kind::TupleVariant => {},
        _ => {
            lemma_put_labelled(v, v, variant, variant, kb, next, variant.kids.len());
            assert(put_all_named(v, variant.labels, variant, kb, next) == put_named(
                v,
                variant.labels,
                variant,
                kb,
                next,
                variant.kids.len(),
            ));
        },
    }
    assert(put(v, s, base, row) == Ok::<Row, Fault>(after));
    lemma_chosen(s, i, below, base + 1, next, n);
    lemma_stamp_append(row, base, tag);
    lemma_stamp_twice(row, base, seq![tag], sample_chosen(s, i, below, n));
}

/// The values of the sampled rows.
pub open spec fn sample_values(s: Shape, n: nat) -> Seq<Val> {
    Seq::new(n, |i: int| sample_value(s, i as nat))
}

/// A sample holds the rows that serializing the sampled values writes: every
/// sampled row conforms to the schema.
pub proof fn lemma_sample_conforms(s: Shape, n: nat, k: nat)
    requires
        s.well_formed(),
        !is_variant(s.kind),
        inhabited(s),
        fits(s),
        k <= n,
    ensures
        pushed(s, sample_values(s, n), k) == Ok::<Seq<Seq<u8>>, Fault>(sample_columns(s, k)),
        sample_columns(s, k).len() == width_of(s),
    decreases k,
{
    if k == 0 {
        assert(no_rows(s) =~= blank(width_of(s)));
    } else {
        let m = (k - 1) as nat;
        lemma_sample_conforms(s, n, m);
        let cols = sample_columns(s, m);
        let image = sample_image(s, m);
        lemma_image_len(s, m);
        lemma_value(s, m, 0, new_row(cols));
        assert(stamped(new_row(cols), 0, image).cols =~= layered(cols, image));
    }
}

} // verus!
