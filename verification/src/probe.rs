//! Synthetic rows that conform to a schema, with enough of them that every
//! enum variant is written at least once.

use vstd::prelude::*;

use crate::blob::{assemble, blob, bytes_of};
use crate::layout::Layout;
use crate::node::{
    fields_laid, lemma_fields_laid, lemma_named_laid, lemma_named_node_shapes, lemma_node_shapes,
    lemma_variant_kind_shapes, lemma_variants_laid, named_laid, named_node_shapes, node_shapes,
    Node, VariantKind,
};
use crate::put::Row;
use crate::schema::{named_shapes, shapes, variant_shapes, Primitive, SchemaNode, VariantNode};
use crate::shape::{
    columns_before, kid_base, lemma_kid_columns, lemma_one_kid_columns, lemma_two_kids_columns,
    own_columns, width_of, Kind, Shape,
};
use crate::trace::capped;
use crate::typed_ser::{blank, lemma_stamp_blank, lemma_stamp_twice, stamped};
use crate::value::{scalar_bytes, Scalar};
use crate::varint;

verus! {

/// Cap on the number of sampled rows. Only reachable by a schema whose
/// enum-nesting chain multiplies past a million combinations.
pub const MAX_PROBE_ROWS: usize = 0x10_0000;

/// How many rows it takes for every enum below a position to write each of its
/// variants at least once.
///
/// Siblings share each row's pick, so they need the *maximum* of their spans;
/// an enum nested inside a variant sees only the quotient after its parent
/// consumes the low digit, so nesting *multiplies*.
pub open spec fn span(s: Shape) -> nat
    decreases s, s.kids.len() + 1,
{
    if s.kind is Enum {
        s.kids.len() * widest(s, s.kids.len())
    } else {
        widest(s, s.kids.len())
    }
}

/// The greatest span among the first `n` parts; one where there are none.
pub open spec fn widest(s: Shape, n: nat) -> nat
    decreases s, n,
{
    if n == 0 || n > s.kids.len() {
        1
    } else if n == 1 {
        span(s.kids[0])
    } else {
        let before = widest(s, (n - 1) as nat);
        let last = span(s.kids[n - 1]);
        if before >= last {
            before
        } else {
            last
        }
    }
}

/// Every enum has a variant.
pub open spec fn inhabited(s: Shape) -> bool
    decreases s,
{
    &&& s.kind is Enum ==> s.kids.len() > 0
    &&& forall|i: int| 0 <= i < s.kids.len() ==> inhabited(#[trigger] s.kids[i])
}

/// A way down from a position: the number of a part, then of a part of it, and
/// so on.
pub open spec fn leads_down(s: Shape, path: Seq<nat>) -> bool
    decreases path.len(),
{
    path.len() == 0 || {
        &&& path[0] < s.kids.len()
        &&& leads_down(s.kids[path[0] as int], path.subrange(1, path.len() as int))
    }
}

/// The row that `pick` chooses writes what the path leads to: each enum on the
/// way takes the variant that the path goes through.
pub open spec fn writes(s: Shape, pick: nat, path: Seq<nat>) -> bool
    decreases path.len(),
{
    path.len() == 0 || {
        let rest = path.subrange(1, path.len() as int);
        let kid = s.kids[path[0] as int];
        if s.kind is Enum {
            &&& pick % s.kids.len() == path[0]
            &&& writes(kid, pick / s.kids.len(), rest)
        } else {
            writes(kid, pick, rest)
        }
    }
}

proof fn lemma_widest(s: Shape, i: nat, n: nat)
    requires
        i < n <= s.kids.len(),
    ensures
        span(s.kids[i as int]) <= widest(s, n),
    decreases n,
{
    if i < n - 1 {
        lemma_widest(s, i, (n - 1) as nat);
    }
}

/// Every part of every schema position is written by one of the sampled rows,
/// each variant of each enum among them.
pub proof fn lemma_span_covers(s: Shape, path: Seq<nat>)
    requires
        inhabited(s),
        leads_down(s, path),
    ensures
        exists|pick: nat| pick < span(s) && #[trigger] writes(s, pick, path),
    decreases path.len(),
{
    lemma_span_positive(s);
    if path.len() == 0 {
        assert(writes(s, 0, path));
    } else {
        let i = path[0];
        let rest = path.subrange(1, path.len() as int);
        let kid = s.kids[i as int];
        assert(inhabited(kid));
        lemma_span_covers(kid, rest);
        lemma_widest(s, i, s.kids.len());
        let below = choose|pick: nat| pick < span(kid) && #[trigger] writes(kid, pick, rest);
        if s.kind is Enum {
            let n = s.kids.len();
            let w = widest(s, n);
            let pick = i + n * below;
            assert(pick % n == i && pick / n == below) by (nonlinear_arith)
                requires
                    pick == i + n * below,
                    i < n,
            ;
            assert(pick < n * w) by (nonlinear_arith)
                requires
                    pick == i + n * below,
                    i < n,
                    below + 1 <= w,
            ;
            assert(writes(s, pick, path));
        } else {
            assert(writes(s, below, path));
        }
    }
}

proof fn lemma_span_positive(s: Shape)
    requires
        inhabited(s),
    ensures
        span(s) >= 1,
    decreases s, s.kids.len() + 1,
{
    lemma_widest_positive(s, s.kids.len());
    if s.kind is Enum {
        let n = s.kids.len();
        let w = widest(s, n);
        assert(n * w >= 1) by (nonlinear_arith)
            requires
                n >= 1,
                w >= 1,
        ;
    }
}

proof fn lemma_widest_positive(s: Shape, n: nat)
    requires
        inhabited(s),
        n <= s.kids.len(),
    ensures
        widest(s, n) >= 1,
    decreases s, n,
{
    if n > 0 {
        lemma_widest_positive(s, (n - 1) as nat);
        assert(inhabited(s.kids[n - 1]));
        lemma_span_positive(s.kids[n - 1]);
    }
}

fn capped_product(a: usize, b: usize, Ghost(x): Ghost<nat>, Ghost(y): Ghost<nat>) -> (result: usize)
    requires
        a == capped(x),
        b == capped(y),
    ensures
        result == capped(x * y),
{
    if a == 0 || b == 0 {
        assert(x * y == 0) by (nonlinear_arith)
            requires
                x == 0 || y == 0,
        ;
        return 0;
    }
    if a > usize::MAX / b {
        proof {
            let m = usize::MAX as int;
            let q = m / b as int;
            assert(a * b > m) by (nonlinear_arith)
                requires
                    a > q,
                    q == m / b as int,
                    b > 0,
            ;
            assert(x * y >= a * b) by (nonlinear_arith)
                requires
                    x >= a,
                    y >= b,
                    a >= 0,
                    b >= 0,
            ;
        }
        usize::MAX
    } else {
        proof {
            let m = usize::MAX as int;
            let q = m / b as int;
            assert(a * b <= m) by (nonlinear_arith)
                requires
                    a <= q,
                    q == m / b as int,
                    b > 0,
                    a >= 0,
            ;
            if x == a && y == b {
                assert(x * y == a * b);
            } else if x != a {
                assert(a == m);
                assert(x * y >= m) by (nonlinear_arith)
                    requires
                        x >= m,
                        y >= 1,
                        m >= 0,
                ;
                assert(b == 1) by (nonlinear_arith)
                    requires
                        a * b <= m,
                        a == m,
                        m > 0,
                        b >= 1,
                ;
                assert(a * b == m);
            } else {
                assert(b == m);
                assert(x * y >= m) by (nonlinear_arith)
                    requires
                        y >= m,
                        x >= 1,
                        m >= 0,
                ;
                assert(a == 1) by (nonlinear_arith)
                    requires
                        a * b <= m,
                        b == m,
                        m > 0,
                        a >= 1,
                ;
                assert(a * b == m) by (nonlinear_arith)
                    requires
                        a == 1,
                        b == m,
                ;
            }
        }
        a * b
    }
}

fn greater(a: usize, b: usize) -> (result: usize)
    ensures
        result == if a >= b {
            a
        } else {
            b
        },
{
    if a >= b {
        a
    } else {
        b
    }
}

/// How many rows it takes for every enum in the schema to write each of its
/// variants at least once, as far as a machine word reaches.
pub fn variant_span(node: &SchemaNode) -> (result: usize)
    ensures
        result == capped(span(node@)),
    decreases node, 2nat,
{
    let ghost s = node@;
    match node {
        SchemaNode::Option(inner)
        | SchemaNode::NewtypeStruct { inner, .. }
        | SchemaNode::Sequence(inner)
        | SchemaNode::Shared(inner) => {
            assert(widest(s, 1) == span(inner@));
            variant_span(inner)
        },
        SchemaNode::Mapping { key, value } => {
            assert(widest(s, 1) == span(key@));
            let a = variant_span(key);
            let b = variant_span(value);
            greater(a, b)
        },
        SchemaNode::Tuple(fields) | SchemaNode::TupleStruct { fields, .. } => span_of(
            fields,
            Ghost(s),
        ),
        SchemaNode::Struct { fields, .. } => span_of_named(fields, Ghost(s)),
        SchemaNode::Enum { variants, .. } => {
            let nested = span_of_variants(variants, Ghost(s));
            assert(variant_shapes(variants@).len() == variants@.len());
            capped_product(
                variants.len(),
                nested,
                Ghost(s.kids.len()),
                Ghost(widest(s, s.kids.len())),
            )
        },
        _ => {
            assert(widest(s, 0) == 1);
            1
        },
    }
}

fn span_of(fields: &Vec<SchemaNode>, Ghost(s): Ghost<Shape>) -> (result: usize)
    requires
        s.kids == shapes(fields@),
    ensures
        result == capped(widest(s, s.kids.len())),
    decreases fields, 3nat,
{
    let mut most: usize = 1;
    let mut i: usize = 0;
    while i < fields.len()
        invariant
            i <= fields@.len(),
            s.kids == shapes(fields@),
            most == capped(widest(s, i as nat)),
        decreases fields@.len() - i,
    {
        let next = variant_span(&fields[i]);
        most = if i == 0 {
            next
        } else {
            greater(most, next)
        };
        i += 1;
    }
    most
}

fn span_of_named(fields: &Vec<(String, SchemaNode)>, Ghost(s): Ghost<Shape>) -> (result: usize)
    requires
        s.kids == named_shapes(fields@),
    ensures
        result == capped(widest(s, s.kids.len())),
    decreases fields, 3nat,
{
    let mut most: usize = 1;
    let mut i: usize = 0;
    while i < fields.len()
        invariant
            i <= fields@.len(),
            s.kids == named_shapes(fields@),
            most == capped(widest(s, i as nat)),
        decreases fields@.len() - i,
    {
        let next = variant_span(&fields[i].1);
        most = if i == 0 {
            next
        } else {
            greater(most, next)
        };
        i += 1;
    }
    most
}

fn span_of_variants(variants: &Vec<(String, VariantNode)>, Ghost(s): Ghost<Shape>) -> (result: usize)
    requires
        s.kids == variant_shapes(variants@),
    ensures
        result == capped(widest(s, s.kids.len())),
    decreases variants, 5nat,
{
    let mut most: usize = 1;
    let mut i: usize = 0;
    while i < variants.len()
        invariant
            i <= variants@.len(),
            s.kids == variant_shapes(variants@),
            most == capped(widest(s, i as nat)),
        decreases variants@.len() - i,
    {
        let next = span_of_variant(&variants[i].1);
        most = if i == 0 {
            next
        } else {
            greater(most, next)
        };
        i += 1;
    }
    most
}

fn span_of_variant(variant: &VariantNode) -> (result: usize)
    ensures
        result == capped(span(variant@)),
    decreases variant, 4nat,
{
    let ghost s = variant@;
    match variant {
        VariantNode::Unit => {
            assert(widest(s, 0) == 1);
            1
        },
        VariantNode::Newtype(inner) => {
            assert(widest(s, 1) == span(inner@));
            variant_span(inner)
        },
        VariantNode::Tuple(fields) => span_of(fields, Ghost(s)),
        VariantNode::Struct(fields) => span_of_named(fields, Ghost(s)),
    }
}

/// The value that is sampled for a primitive. Integers get a value that fits
/// every width, so the sample does not fail a narrowing it has no way to rule
/// out in general. Floats are one, by their bits.
pub open spec fn sample_scalar(p: Primitive) -> Scalar {
    match p {
        Primitive::Bool => Scalar::Bool(true),
        Primitive::I8 => Scalar::I8(1),
        Primitive::I16 => Scalar::I16(1),
        Primitive::I32 => Scalar::I32(1),
        Primitive::I64 => Scalar::I64(1),
        Primitive::I128 => Scalar::I128(1),
        Primitive::U8 => Scalar::U8(1),
        Primitive::U16 => Scalar::U16(1),
        Primitive::U32 => Scalar::U32(1),
        Primitive::U64 => Scalar::U64(1),
        Primitive::U128 => Scalar::U128(1),
        Primitive::F32 => Scalar::F32(0x3f80_0000),
        Primitive::F64 => Scalar::F64(0x3ff0_0000_0000_0000),
        Primitive::Char => Scalar::Char('a'),
    }
}

fn sampled_scalar(p: Primitive) -> (result: Scalar)
    ensures
        result == sample_scalar(p),
{
    match p {
        Primitive::Bool => Scalar::Bool(true),
        Primitive::I8 => Scalar::I8(1),
        Primitive::I16 => Scalar::I16(1),
        Primitive::I32 => Scalar::I32(1),
        Primitive::I64 => Scalar::I64(1),
        Primitive::I128 => Scalar::I128(1),
        Primitive::U8 => Scalar::U8(1),
        Primitive::U16 => Scalar::U16(1),
        Primitive::U32 => Scalar::U32(1),
        Primitive::U64 => Scalar::U64(1),
        Primitive::U128 => Scalar::U128(1),
        Primitive::F32 => Scalar::F32(0x3f80_0000),
        Primitive::F64 => Scalar::F64(0x3ff0_0000_0000_0000),
        Primitive::Char => Scalar::Char('a'),
    }
}

/// What the row that `pick` chooses writes to the columns of a position.
///
/// Strings and byte strings have one byte, options are present, sequences and
/// maps have one element, shared objects occur for the first time. An enum
/// takes the variant that the low digit of `pick` says and hands the quotient
/// to its payload.
pub open spec fn sample_image(s: Shape, pick: nat) -> Seq<Seq<u8>>
    decreases s, 1nat, 0nat,
{
    match s.kind {
        Kind::Primitive(p) => seq![scalar_bytes(sample_scalar(p))],
        Kind::String => seq![varint::encoded(1), seq![0x61u8]],
        Kind::Bytes => seq![varint::encoded(1), seq![0u8]],
        Kind::Option => seq![seq![1u8]] + sample_parts(s, pick, s.kids.len()),
        Kind::Sequence | Kind::Mapping => seq![varint::encoded(1)] + sample_parts(
            s,
            pick,
            s.kids.len(),
        ),
        Kind::Shared => seq![varint::encoded(0)] + sample_parts(s, pick, s.kids.len()),
        Kind::Enum => seq![varint::encoded(pick % s.kids.len())] + sample_chosen(
            s,
            pick % s.kids.len(),
            pick / s.kids.len(),
            s.kids.len(),
        ),
        _ => sample_parts(s, pick, s.kids.len()),
    }
}

/// What is written for the first `n` parts.
pub open spec fn sample_parts(s: Shape, pick: nat, n: nat) -> Seq<Seq<u8>>
    decreases s, 0nat, n,
{
    if n == 0 || n > s.kids.len() {
        seq![]
    } else {
        sample_parts(s, pick, (n - 1) as nat) + sample_image(s.kids[n - 1], pick)
    }
}

/// What is written for the first `n` variants: the payload of variant `i`, and
/// nothing for the others.
pub open spec fn sample_chosen(s: Shape, i: nat, pick: nat, n: nat) -> Seq<Seq<u8>>
    decreases s, 0nat, n,
{
    if n == 0 || n > s.kids.len() {
        seq![]
    } else {
        sample_chosen(s, i, pick, (n - 1) as nat) + (if n - 1 == i {
            sample_image(s.kids[n - 1], pick)
        } else {
            blank(width_of(s.kids[n - 1]))
        })
    }
}

pub(crate) proof fn lemma_image_len(s: Shape, pick: nat)
    requires
        s.well_formed(),
        inhabited(s),
    ensures
        sample_image(s, pick).len() == width_of(s),
    decreases s, 1nat, 0nat,
{
    lemma_parts_len(s, pick, s.kids.len());
    assert(columns_before(s, 0) == 0);
    if s.kind is Enum {
        let n = s.kids.len();
        lemma_chosen_len(s, pick % n, pick / n, n);
    }
}

pub(crate) proof fn lemma_parts_len(s: Shape, pick: nat, n: nat)
    requires
        s.well_formed(),
        inhabited(s),
        n <= s.kids.len(),
    ensures
        sample_parts(s, pick, n).len() == columns_before(s, n),
    decreases s, 0nat, n,
{
    if n > 0 {
        lemma_parts_len(s, pick, (n - 1) as nat);
        assert(s.kids[n - 1].well_formed() && inhabited(s.kids[n - 1]));
        lemma_image_len(s.kids[n - 1], pick);
    }
}

pub(crate) proof fn lemma_chosen_len(s: Shape, i: nat, pick: nat, n: nat)
    requires
        s.well_formed(),
        inhabited(s),
        n <= s.kids.len(),
    ensures
        sample_chosen(s, i, pick, n).len() == columns_before(s, n),
    decreases s, 0nat, n,
{
    if n > 0 {
        lemma_chosen_len(s, i, pick, (n - 1) as nat);
        assert(s.kids[n - 1].well_formed() && inhabited(s.kids[n - 1]));
        lemma_image_len(s.kids[n - 1], pick);
    }
}

/// Columns, without any shared objects.
pub open spec fn row_with(columns: Seq<Vec<u8>>) -> Row {
    Row { cols: bytes_of(columns), book: seq![] }
}

/// Writing one variant's payload alone is writing all of them, where the
/// others write nothing.
pub(crate) proof fn lemma_chosen(s: Shape, i: nat, pick: nat, base: nat, row: Row, n: nat)
    requires
        s.well_formed(),
        inhabited(s),
        i < s.kids.len(),
        n <= s.kids.len(),
    ensures
        stamped(row, base, sample_chosen(s, i, pick, n)) == if n <= i {
            row
        } else {
            stamped(row, base + columns_before(s, i), sample_image(s.kids[i as int], pick))
        },
    decreases n,
{
    if n == 0 {
        assert(stamped(row, base, seq![]).cols =~= row.cols);
    } else {
        let m = (n - 1) as nat;
        lemma_chosen(s, i, pick, base, row, m);
        lemma_chosen_len(s, i, pick, m);
        assert(s.kids[m as int].well_formed() && inhabited(s.kids[m as int]));
        if m == i {
            lemma_stamp_twice(
                row,
                base,
                sample_chosen(s, i, pick, m),
                sample_image(s.kids[m as int], pick),
            );
        } else {
            let w = width_of(s.kids[m as int]);
            lemma_stamp_twice(row, base, sample_chosen(s, i, pick, m), blank(w));
            lemma_stamp_blank(
                stamped(row, base, sample_chosen(s, i, pick, m)),
                base + columns_before(s, m),
                w,
            );
        }
    }
}

fn push_to(columns: &mut Vec<Vec<u8>>, col: usize, byte: u8)
    requires
        col < old(columns)@.len(),
    ensures
        final(columns)@.len() == old(columns)@.len(),
        row_with(final(columns)@) == stamped(row_with(old(columns)@), col as nat, seq![seq![byte]]),
{
    let ghost before = row_with(columns@);
    columns[col].push(byte);
    assert(columns@[col as int]@ =~= before.cols[col as int] + seq![byte]);
    assert(row_with(columns@).cols =~= stamped(before, col as nat, seq![seq![byte]]).cols);
}

fn varint_to(columns: &mut Vec<Vec<u8>>, col: usize, value: u64)
    requires
        col < old(columns)@.len(),
    ensures
        final(columns)@.len() == old(columns)@.len(),
        row_with(final(columns)@) == stamped(
            row_with(old(columns)@),
            col as nat,
            seq![varint::encoded(value as nat)],
        ),
{
    let ghost before = row_with(columns@);
    varint::write(&mut columns[col], value);
    assert(row_with(columns@).cols =~= stamped(
        before,
        col as nat,
        seq![varint::encoded(value as nat)],
    ).cols);
}

/// Writes one row into the column buffers. `pick` chooses which variant each
/// enum takes; cycling it over [`variant_span`] rows covers them all.
#[verifier::rlimit(60)]
fn write_row(node: &Node, columns: &mut Vec<Vec<u8>>, pick: usize, Ghost(base): Ghost<nat>)
    requires
        node.laid(base),
        node.shape().well_formed(),
        inhabited(node.shape()),
        base + width_of(node.shape()) <= old(columns)@.len(),
    ensures
        final(columns)@.len() == old(columns)@.len(),
        row_with(final(columns)@) == stamped(
            row_with(old(columns)@),
            base,
            sample_image(node.shape(), pick as nat),
        ),
    decreases node, 2nat,
{
    let ghost s = node.shape();
    let ghost row = row_with(columns@);
    let ghost k = pick as nat;
    proof {
        node.lemma_top(base);
    }
    match node {
        Node::Primitive(p, col) => {
            let x = sampled_scalar(*p);
            x.write(&mut columns[*col]);
            assert(row_with(columns@).cols =~= stamped(row, base, sample_image(s, k)).cols);
        },
        Node::Str { bytes, len, data } => {
            varint_to(columns, *len, 1);
            let byte: u8 = if *bytes {
                0
            } else {
                0x61
            };
            push_to(columns, *data, byte);
            proof {
                lemma_stamp_twice(row, base, seq![varint::encoded(1)], seq![seq![byte]]);
                assert(seq![varint::encoded(1)] + seq![seq![byte]] =~= sample_image(s, k));
            }
        },
        Node::Unit { .. } => {
            proof {
                assert(sample_parts(s, k, 0) =~= seq![]);
                assert(stamped(row, base, seq![]).cols =~= row.cols);
            }
        },
        Node::Newtype { inner, .. } => {
            proof {
                lemma_one_kid_columns(s);
                lemma_only_part(s, k);
            }
            write_row(inner, columns, pick, Ghost(base));
        },
        Node::Option { tag, inner } => {
            proof {
                lemma_one_kid_columns(s);
                lemma_only_part(s, k);
                lemma_stamp_twice(row, base, seq![seq![1u8]], sample_image(s.kids[0], k));
            }
            push_to(columns, *tag, 1);
            write_row(inner, columns, pick, Ghost(base + 1));
        },
        Node::Sequence { len, elem, .. } => {
            proof {
                lemma_one_kid_columns(s);
                lemma_only_part(s, k);
                lemma_stamp_twice(row, base, seq![varint::encoded(1)], sample_image(s.kids[0], k));
            }
            varint_to(columns, *len, 1);
            write_row(elem, columns, pick, Ghost(base + 1));
        },
        Node::Shared { key, inner } => {
            proof {
                lemma_one_kid_columns(s);
                lemma_only_part(s, k);
                lemma_stamp_twice(row, base, seq![varint::encoded(0)], sample_image(s.kids[0], k));
            }
            varint_to(columns, *key, 0);
            write_row(inner, columns, pick, Ghost(base + 1));
        },
        Node::Mapping { len, key, value, .. } => {
            let ghost a = sample_image(key.shape(), k);
            let ghost b = sample_image(value.shape(), k);
            proof {
                lemma_two_kids_columns(s);
                assert(s.kids[0] == key.shape() && s.kids[1] == value.shape());
                assert(s.kids[0].well_formed() && inhabited(s.kids[0]));
                assert(s.kids[1].well_formed() && inhabited(s.kids[1]));
                lemma_image_len(key.shape(), k);
                assert(sample_parts(s, k, 0) =~= seq![]);
                assert(sample_parts(s, k, 1) =~= a);
                assert(sample_parts(s, k, 2) =~= a + b);
                lemma_stamp_twice(row, base, seq![varint::encoded(1)], a);
                lemma_stamp_twice(row, base, seq![varint::encoded(1)] + a, b);
                assert(seq![varint::encoded(1)] + a + b =~= sample_image(s, k));
            }
            varint_to(columns, *len, 1);
            write_row(key, columns, pick, Ghost(base + 1));
            write_row(value, columns, pick, Ghost(base + 1 + width_of(key.shape())));
        },
        Node::Tuple { fields, .. } => write_plain(fields, columns, pick, Ghost(s), Ghost(base)),
        Node::Struct { fields, .. } => write_named(fields, columns, pick, Ghost(s), Ghost(base)),
        Node::Enum { tag, variants, .. } => {
            proof {
                lemma_variant_kind_shapes(variants@);
                lemma_variants_laid(variants@, s, base);
            }
            let index: usize = pick % variants.len();
            let below: usize = pick / variants.len();
            proof {
                lemma_kid_columns(s, index as nat);
                assert(s.kids[index as int].well_formed() && inhabited(s.kids[index as int]));
                let head = seq![varint::encoded(index as nat)];
                lemma_stamp_twice(
                    row,
                    base,
                    head,
                    sample_chosen(s, index as nat, below as nat, s.kids.len()),
                );
                lemma_chosen(
                    s,
                    index as nat,
                    below as nat,
                    base + 1,
                    stamped(row, base, head),
                    s.kids.len(),
                );
            }
            varint_to(columns, *tag, index as u64);
            write_variant(
                &variants[index].kind,
                columns,
                below,
                Ghost(kid_base(s, base, index as nat)),
            );
        },
    }
}

proof fn lemma_only_part(s: Shape, pick: nat)
    requires
        s.kids.len() == 1,
        s.well_formed(),
        inhabited(s),
    ensures
        sample_parts(s, pick, 1) == sample_image(s.kids[0], pick),
        s.kids[0].well_formed(),
        inhabited(s.kids[0]),
{
    assert(sample_parts(s, pick, 0) =~= seq![]);
    assert(sample_parts(s, pick, 1) =~= sample_image(s.kids[0], pick));
    assert(inhabited(s.kids[0]));
}

fn write_variant(kind: &VariantKind, columns: &mut Vec<Vec<u8>>, pick: usize, Ghost(base): Ghost<nat>)
    requires
        kind.laid(base),
        kind.shape().well_formed(),
        inhabited(kind.shape()),
        base + width_of(kind.shape()) <= old(columns)@.len(),
    ensures
        final(columns)@.len() == old(columns)@.len(),
        row_with(final(columns)@) == stamped(
            row_with(old(columns)@),
            base,
            sample_image(kind.shape(), pick as nat),
        ),
    decreases kind, 4nat,
{
    let ghost s = kind.shape();
    let ghost row = row_with(columns@);
    let ghost k = pick as nat;
    proof {
        kind.lemma_top(base);
    }
    match kind {
        VariantKind::Unit => {
            proof {
                assert(sample_parts(s, k, 0) =~= seq![]);
                assert(stamped(row, base, seq![]).cols =~= row.cols);
            }
        },
        VariantKind::Newtype(inner) => {
            proof {
                lemma_one_kid_columns(s);
                lemma_only_part(s, k);
            }
            write_row(inner, columns, pick, Ghost(base));
        },
        VariantKind::Tuple(fields) => write_plain(fields, columns, pick, Ghost(s), Ghost(base)),
        VariantKind::Struct(fields) => write_named(fields, columns, pick, Ghost(s), Ghost(base)),
    }
}

fn write_plain(
    fields: &Vec<Node>,
    columns: &mut Vec<Vec<u8>>,
    pick: usize,
    Ghost(s): Ghost<Shape>,
    Ghost(base): Ghost<nat>,
)
    requires
        s.kids == node_shapes(fields@),
        own_columns(s.kind) == 0,
        s.well_formed(),
        inhabited(s),
        fields_laid(fields@, s, base),
        base + width_of(s) <= old(columns)@.len(),
    ensures
        final(columns)@.len() == old(columns)@.len(),
        row_with(final(columns)@) == stamped(
            row_with(old(columns)@),
            base,
            sample_parts(s, pick as nat, s.kids.len()),
        ),
    decreases fields, 3nat,
{
    let ghost row = row_with(columns@);
    let ghost k = pick as nat;
    let mut i: usize = 0;
    proof {
        lemma_node_shapes(fields@);
        lemma_fields_laid(fields@, s, base);
        assert(stamped(row, base, sample_parts(s, k, 0)).cols =~= row.cols);
    }
    while i < fields.len()
        invariant
            i <= fields@.len(),
            k == pick as nat,
            columns@.len() == old(columns)@.len(),
            row == row_with(old(columns)@),
            s.kids == node_shapes(fields@),
            s.kids.len() == fields@.len(),
            own_columns(s.kind) == 0,
            s.well_formed(),
            inhabited(s),
            forall|j: int|
                0 <= j < fields@.len() ==> #[trigger] node_shapes(fields@)[j] == fields@[j].shape(),
            forall|j: int|
                0 <= j < fields@.len() ==> (#[trigger] fields@[j]).laid(kid_base(s, base, j as nat)),
            base + width_of(s) <= columns@.len(),
            row_with(columns@) == stamped(row, base, sample_parts(s, k, i as nat)),
        decreases fields@.len() - i,
    {
        proof {
            lemma_kid_columns(s, i as nat);
            assert(s.kids[i as int] == fields@[i as int].shape());
            assert(s.kids[i as int].well_formed() && inhabited(s.kids[i as int]));
            lemma_parts_len(s, k, i as nat);
            lemma_stamp_twice(
                row,
                base,
                sample_parts(s, k, i as nat),
                sample_image(s.kids[i as int], k),
            );
        }
        write_row(&fields[i], columns, pick, Ghost(kid_base(s, base, i as nat)));
        i += 1;
    }
}

fn write_named(
    fields: &Vec<(String, Node)>,
    columns: &mut Vec<Vec<u8>>,
    pick: usize,
    Ghost(s): Ghost<Shape>,
    Ghost(base): Ghost<nat>,
)
    requires
        s.kids == named_node_shapes(fields@),
        own_columns(s.kind) == 0,
        s.well_formed(),
        inhabited(s),
        named_laid(fields@, s, base),
        base + width_of(s) <= old(columns)@.len(),
    ensures
        final(columns)@.len() == old(columns)@.len(),
        row_with(final(columns)@) == stamped(
            row_with(old(columns)@),
            base,
            sample_parts(s, pick as nat, s.kids.len()),
        ),
    decreases fields, 3nat,
{
    let ghost row = row_with(columns@);
    let ghost k = pick as nat;
    let mut i: usize = 0;
    proof {
        lemma_named_node_shapes(fields@);
        lemma_named_laid(fields@, s, base);
        assert(stamped(row, base, sample_parts(s, k, 0)).cols =~= row.cols);
    }
    while i < fields.len()
        invariant
            i <= fields@.len(),
            k == pick as nat,
            columns@.len() == old(columns)@.len(),
            row == row_with(old(columns)@),
            s.kids == named_node_shapes(fields@),
            s.kids.len() == fields@.len(),
            own_columns(s.kind) == 0,
            s.well_formed(),
            inhabited(s),
            forall|j: int|
                0 <= j < fields@.len() ==> #[trigger] named_node_shapes(fields@)[j]
                    == fields@[j].1.shape(),
            forall|j: int|
                0 <= j < fields@.len() ==> (#[trigger] fields@[j]).1.laid(
                    kid_base(s, base, j as nat),
                ),
            base + width_of(s) <= columns@.len(),
            row_with(columns@) == stamped(row, base, sample_parts(s, k, i as nat)),
        decreases fields@.len() - i,
    {
        proof {
            lemma_kid_columns(s, i as nat);
            assert(s.kids[i as int] == fields@[i as int].1.shape());
            assert(s.kids[i as int].well_formed() && inhabited(s.kids[i as int]));
            lemma_parts_len(s, k, i as nat);
            lemma_stamp_twice(
                row,
                base,
                sample_parts(s, k, i as nat),
                sample_image(s.kids[i as int], k),
            );
        }
        write_row(&fields[i].1, columns, pick, Ghost(kid_base(s, base, i as nat)));
        i += 1;
    }
}

/// Whether every enum in a schema has a variant.
pub fn is_inhabited(node: &SchemaNode) -> (result: bool)
    ensures
        result == inhabited(node@),
    decreases node, 2nat,
{
    let ghost s = node@;
    match node {
        SchemaNode::Option(inner)
        | SchemaNode::NewtypeStruct { inner, .. }
        | SchemaNode::Sequence(inner)
        | SchemaNode::Shared(inner) => {
            assert(s.kids[0] == inner@);
            is_inhabited(inner)
        },
        SchemaNode::Mapping { key, value } => {
            assert(s.kids[0] == key@);
            assert(s.kids[1] == value@);
            is_inhabited(key) && is_inhabited(value)
        },
        SchemaNode::Tuple(fields) | SchemaNode::TupleStruct { fields, .. } => all_inhabited(
            fields,
            Ghost(s),
        ),
        SchemaNode::Struct { fields, .. } => named_inhabited(fields, Ghost(s)),
        SchemaNode::Enum { variants, .. } => {
            assert(variant_shapes(variants@).len() == variants@.len());
            if variants.len() == 0 {
                return false;
            }
            variants_inhabited(variants, Ghost(s))
        },
        _ => true,
    }
}

fn all_inhabited(fields: &Vec<SchemaNode>, Ghost(s): Ghost<Shape>) -> (result: bool)
    requires
        s.kids == shapes(fields@),
        !(s.kind is Enum),
    ensures
        result == inhabited(s),
    decreases fields, 3nat,
{
    let mut i: usize = 0;
    while i < fields.len()
        invariant
            i <= fields@.len(),
            s.kids == shapes(fields@),
            forall|j: int| 0 <= j < i ==> inhabited(#[trigger] s.kids[j]),
        decreases fields@.len() - i,
    {
        assert(s.kids[i as int] == fields@[i as int]@);
        if !is_inhabited(&fields[i]) {
            return false;
        }
        i += 1;
    }
    true
}

fn named_inhabited(fields: &Vec<(String, SchemaNode)>, Ghost(s): Ghost<Shape>) -> (result: bool)
    requires
        s.kids == named_shapes(fields@),
        !(s.kind is Enum),
    ensures
        result == inhabited(s),
    decreases fields, 3nat,
{
    let mut i: usize = 0;
    while i < fields.len()
        invariant
            i <= fields@.len(),
            s.kids == named_shapes(fields@),
            forall|j: int| 0 <= j < i ==> inhabited(#[trigger] s.kids[j]),
        decreases fields@.len() - i,
    {
        assert(s.kids[i as int] == fields@[i as int].1@);
        if !is_inhabited(&fields[i].1) {
            return false;
        }
        i += 1;
    }
    true
}

fn variants_inhabited(variants: &Vec<(String, VariantNode)>, Ghost(s): Ghost<Shape>) -> (result:
    bool)
    requires
        s.kids == variant_shapes(variants@),
        s.kids.len() > 0,
    ensures
        result == inhabited(s),
    decreases variants, 5nat,
{
    let mut i: usize = 0;
    while i < variants.len()
        invariant
            i <= variants@.len(),
            s.kids == variant_shapes(variants@),
            forall|j: int| 0 <= j < i ==> inhabited(#[trigger] s.kids[j]),
        decreases variants@.len() - i,
    {
        assert(s.kids[i as int] == variants@[i as int].1@);
        if !variant_inhabited(&variants[i].1) {
            return false;
        }
        i += 1;
    }
    true
}

fn variant_inhabited(variant: &VariantNode) -> (result: bool)
    ensures
        result == inhabited(variant@),
    decreases variant, 4nat,
{
    let ghost s = variant@;
    match variant {
        VariantNode::Unit => true,
        VariantNode::Newtype(inner) => {
            assert(s.kids[0] == inner@);
            is_inhabited(inner)
        },
        VariantNode::Tuple(fields) => all_inhabited(fields, Ghost(s)),
        VariantNode::Struct(fields) => named_inhabited(fields, Ghost(s)),
    }
}

/// Whether a blob can be sampled: every enum that a row would write has a
/// variant, or there are no rows.
pub fn can_sample(writer: &SchemaNode) -> (result: bool)
    ensures
        result == (inhabited(writer@) || span(writer@) == 0),
{
    is_inhabited(writer) || variant_span(writer) == 0
}

/// The columns of the first `n` sampled rows.
pub open spec fn sample_columns(s: Shape, n: nat) -> Seq<Seq<u8>>
    decreases n,
{
    if n == 0 {
        blank(width_of(s))
    } else {
        crate::typed_ser::layered(
            sample_columns(s, (n - 1) as nat),
            sample_image(s, (n - 1) as nat),
        )
    }
}

/// The number of sampled rows.
pub open spec fn sample_rows(s: Shape) -> nat {
    if span(s) <= MAX_PROBE_ROWS {
        span(s)
    } else {
        MAX_PROBE_ROWS as nat
    }
}

/// A blob of synthetic rows conforming to `writer`, with enough rows that
/// every enum variant is written at least once.
pub fn sample(writer: &SchemaNode) -> (result: Vec<u8>)
    requires
        inhabited(writer@) || span(writer@) == 0,
        width_of(writer@) <= usize::MAX,
    ensures
        result@ == blob(sample_rows(writer@), sample_columns(writer@, sample_rows(writer@))),
{
    let ghost s = writer@;
    let layout = Layout::new(writer);
    let wanted = variant_span(writer);
    let rows: usize = if wanted <= MAX_PROBE_ROWS {
        wanted
    } else {
        MAX_PROBE_ROWS
    };
    let mut columns: Vec<Vec<u8>> = Vec::new();
    let mut i: usize = 0;
    while i < layout.columns
        invariant
            i <= layout.columns,
            columns@.len() == i,
            forall|c: int| 0 <= c < i ==> (#[trigger] columns@[c])@ == Seq::<u8>::empty(),
        decreases layout.columns - i,
    {
        columns.push(Vec::new());
        i += 1;
    }
    assert(bytes_of(columns@) =~= sample_columns(s, 0));
    let mut pick: usize = 0;
    while pick < rows
        invariant
            pick <= rows,
            layout.well_formed(),
            layout.root.shape() == s,
            inhabited(s) || rows == 0,
            columns@.len() == layout.columns,
            bytes_of(columns@) == sample_columns(s, pick as nat),
        decreases rows - pick,
    {
        let ghost before = row_with(columns@);
        write_row(&layout.root, &mut columns, pick, Ghost(0));
        proof {
            lemma_image_len(s, pick as nat);
            assert(bytes_of(columns@) =~= sample_columns(s, (pick + 1) as nat)) by {
                assert(row_with(columns@).cols =~= stamped(
                    before,
                    0,
                    sample_image(s, pick as nat),
                ).cols);
            }
        }
        pick += 1;
    }
    let mut out: Vec<u8> = Vec::new();
    assemble(rows as u64, &columns, &mut out);
    assert(out@ =~= blob(sample_rows(s), sample_columns(s, sample_rows(s))));
    out
}

} // verus!
