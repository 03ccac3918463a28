//! Advancing past values that the reading type does not know.

use vstd::prelude::*;

use crate::columnar::ColumnCursor;
use crate::de::{
    cur_of, read_bytes, read_count, read_tag, read_varint, readable_state, still_readable, take,
};
use crate::error::{Error, Fault, Result};
use crate::get::{skip, skip_entries, skip_fields, skip_items, Cur};
use crate::node::{
    fields_laid, lemma_fields_laid, lemma_named_laid, lemma_named_node_shapes, lemma_node_shapes,
    lemma_variant_kind_shapes, lemma_variants_laid, named_laid, named_node_shapes, node_shapes,
    ColId, Node, VariantKind,
};
use crate::schema::Primitive;
use crate::shape::{
    kid_base, lemma_kid_columns, lemma_one_kid_columns, lemma_two_kids_columns, width_of, Kind,
    Shape,
};
use crate::shared::ReadState;
use crate::spot::{FieldList, Spot, VariantSpot};
use crate::value::Val;

verus! {

/// How many objects each dictionary of a row has, whatever they are.
pub open spec fn places<E>(regs: ReadState<E>) -> Seq<Seq<Option<Val>>> {
    regs@.map_values(
        |list: Seq<Option<E>>| list.map_values(|slot: Option<E>| None::<Val>),
    )
}

/// The outcome of advancing past something.
pub open spec fn skipped(
    result: Result<()>,
    expected: std::result::Result<Cur, Fault>,
    cursors: Seq<ColumnCursor<'_>>,
    regs: Seq<Seq<Option<Val>>>,
) -> bool {
    match result {
        Ok(_) => expected == Ok::<Cur, Fault>(cur_of(cursors, regs)),
        Err(error) => expected == Err::<Cur, Fault>(error@),
    }
}

proof fn lemma_items_fault(s: Shape, base: nat, cur: Cur, i: nat, n: nat)
    requires
        i <= n,
        skip_items(s, base, cur, i) is Err,
    ensures
        skip_items(s, base, cur, n) == skip_items(s, base, cur, i),
    decreases n,
{
    if i < n {
        lemma_items_fault(s, base, cur, i, (n - 1) as nat);
    }
}

proof fn lemma_entries_fault(s: Shape, base: nat, cur: Cur, i: nat, n: nat)
    requires
        i <= n,
        skip_entries(s, base, cur, i) is Err,
    ensures
        skip_entries(s, base, cur, n) == skip_entries(s, base, cur, i),
    decreases n,
{
    if i < n {
        lemma_entries_fault(s, base, cur, i, (n - 1) as nat);
    }
}

proof fn lemma_fields_fault(s: Shape, base: nat, cur: Cur, i: nat, n: nat)
    requires
        i <= n <= s.kids.len(),
        skip_fields(s, base, cur, i) is Err,
    ensures
        skip_fields(s, base, cur, n) == skip_fields(s, base, cur, i),
    decreases n,
{
    if i < n {
        lemma_fields_fault(s, base, cur, i, (n - 1) as nat);
    }
}

/// Advances every cursor past one value of the position without
/// materializing it. Used for fields the reading type does not know.
pub fn skip_value<E>(
    spot: Spot<'_>,
    cursors: &mut [ColumnCursor<'_>],
    regs: &mut ReadState<E>,
) -> (result: Result<()>)
    requires
        readable_state(old(cursors)@, places(*old(regs))),
        spot.fits(old(cursors)@.len()),
    ensures
        still_readable(old(cursors)@, final(cursors)@, places(*final(regs))),
        skipped(
            result,
            skip(spot.shape(), spot.base(), cur_of(old(cursors)@, places(*old(regs)))),
            final(cursors)@,
            places(*final(regs)),
        ),
{
    skip_at(spot.node(), cursors, regs, Ghost(spot.base()))
}

/// Advances past the payload of one variant.
pub fn skip_variant<E>(
    spot: VariantSpot<'_>,
    cursors: &mut [ColumnCursor<'_>],
    regs: &mut ReadState<E>,
) -> (result: Result<()>)
    requires
        readable_state(old(cursors)@, places(*old(regs))),
        spot.fits(old(cursors)@.len()),
    ensures
        still_readable(old(cursors)@, final(cursors)@, places(*final(regs))),
        skipped(
            result,
            skip_fields(
                spot.shape(),
                spot.base(),
                cur_of(old(cursors)@, places(*old(regs))),
                spot.shape().kids.len(),
            ),
            final(cursors)@,
            places(*final(regs)),
        ),
{
    skip_variant_at(spot.kind(), cursors, regs, Ghost(spot.base()))
}

/// Advances past the fields of `s` from number `i` on.
pub open spec fn skip_from(s: Shape, base: nat, cur: Cur, i: nat) -> std::result::Result<Cur, Fault>
    decreases s.kids.len() - i,
{
    if i >= s.kids.len() {
        Ok(cur)
    } else {
        match skip(s.kids[i as int], kid_base(s, base, i), cur) {
            Ok(next) => skip_from(s, base, next, i + 1),
            Err(fault) => Err(fault),
        }
    }
}

/// Advances past the fields from number `index` on.
///
/// A reader whose type has fewer fields than the writer's stops early. The
/// fields left over still own columns in the row, so they are skipped.
pub fn skip_rest<E>(
    fields: FieldList<'_>,
    index: usize,
    cursors: &mut [ColumnCursor<'_>],
    regs: &mut ReadState<E>,
) -> (result: Result<()>)
    requires
        readable_state(old(cursors)@, places(*old(regs))),
        fields.fits(old(cursors)@.len()),
    ensures
        still_readable(old(cursors)@, final(cursors)@, places(*final(regs))),
        skipped(
            result,
            skip_from(
                fields.shape(),
                fields.base(),
                cur_of(old(cursors)@, places(*old(regs))),
                index as nat,
            ),
            final(cursors)@,
            places(*final(regs)),
        ),
{
    let ghost s = fields.shape();
    let ghost base = fields.base();
    let ghost whole = skip_from(s, base, cur_of(cursors@, places(*regs)), index as nat);
    let ghost before = cursors@;
    let mut i: usize = index;
    let n = fields.len();
    while i < n
        invariant
            n == s.kids.len(),
            s == fields.shape(),
            base == fields.base(),
            fields.fits(cursors@.len()),
            before == old(cursors)@,
            still_readable(before, cursors@, places(*regs)),
            whole == skip_from(
                s,
                base,
                cur_of(old(cursors)@, places(*old(regs))),
                index as nat,
            ),
            whole == skip_from(s, base, cur_of(cursors@, places(*regs)), i as nat),
        decreases n - i,
    {
        match fields.get(i) {
            Some(spot) => match skip_value(spot, cursors, regs) {
                Ok(_) => {},
                Err(error) => return Err(error),
            },
            None => {},
        }
        i += 1;
    }
    Ok(())
}

fn skip_at<E>(
    node: &Node,
    cursors: &mut [ColumnCursor<'_>],
    regs: &mut ReadState<E>,
    Ghost(base): Ghost<nat>,
) -> (result: Result<()>)
    requires
        readable_state(old(cursors)@, places(*old(regs))),
        node.laid(base),
        node.shape().well_formed(),
        base + width_of(node.shape()) <= old(cursors)@.len(),
    ensures
        still_readable(old(cursors)@, final(cursors)@, places(*final(regs))),
        skipped(
            result,
            skip(node.shape(), base, cur_of(old(cursors)@, places(*old(regs)))),
            final(cursors)@,
            places(*final(regs)),
        ),
    decreases node, 2nat,
{
    let ghost s = node.shape();
    proof {
        node.lemma_top(base);
    }
    match node {
        Node::Primitive(p, col) => match take(cursors, *col, p.width(), Ghost(places(*regs))) {
            Ok(_) => Ok(()),
            Err(error) => Err(error),
        },
        Node::Str { len, data, .. } => match read_bytes(cursors, *len, *data, Ghost(places(*regs))) {
            Ok(_) => Ok(()),
            Err(error) => Err(error),
        },
        Node::Unit { .. } => Ok(()),
        Node::Newtype { inner, .. } => {
            proof {
                lemma_one_kid_columns(s);
            }
            skip_at(inner, cursors, regs, Ghost(base))
        },
        Node::Option { tag, inner } => {
            proof {
                lemma_one_kid_columns(s);
            }
            match take(cursors, *tag, 1, Ghost(places(*regs))) {
                Ok(present) => if present[0] == 0 {
                    Ok(())
                } else if present[0] == 1 {
                    skip_at(inner, cursors, regs, Ghost(base + 1))
                } else {
                    Err(Error::InvalidTag { what: "presence", value: present[0] as u64 })
                },
                Err(error) => Err(error),
            }
        },
        Node::Sequence { .. } | Node::Mapping { .. } => skip_counted(
            node,
            cursors,
            regs,
            Ghost(base),
        ),
        Node::Tuple { fields, .. } => skip_plain(fields, cursors, regs, Ghost(s), Ghost(base)),
        Node::Struct { fields, .. } => skip_named(fields, cursors, regs, Ghost(s), Ghost(base)),
        Node::Enum { tag, variants, .. } => {
            proof {
                lemma_variant_kind_shapes(variants@);
                lemma_variants_laid(variants@, s, base);
            }
            match read_tag(variants.len(), cursors, *tag, Ghost(places(*regs))) {
                Ok(i) => {
                    proof {
                        lemma_kid_columns(s, i as nat);
                        assert(s.kids[i as int].well_formed());
                    }
                    skip_variant_at(
                        &variants[i].kind,
                        cursors,
                        regs,
                        Ghost(kid_base(s, base, i as nat)),
                    )
                },
                Err(error) => Err(error),
            }
        },
        Node::Shared { key, inner } => {
            proof {
                lemma_one_kid_columns(s);
            }
            skip_shared(*key, inner, cursors, regs, Ghost(s))
        },
    }
}

/// Advances past a sequence or a map.
fn skip_counted<E>(
    node: &Node,
    cursors: &mut [ColumnCursor<'_>],
    regs: &mut ReadState<E>,
    Ghost(base): Ghost<nat>,
) -> (result: Result<()>)
    requires
        readable_state(old(cursors)@, places(*old(regs))),
        node is Sequence || node is Mapping,
        node.laid(base),
        node.shape().well_formed(),
        base + width_of(node.shape()) <= old(cursors)@.len(),
    ensures
        still_readable(old(cursors)@, final(cursors)@, places(*final(regs))),
        skipped(
            result,
            skip(node.shape(), base, cur_of(old(cursors)@, places(*old(regs)))),
            final(cursors)@,
            places(*final(regs)),
        ),
    decreases node, 1nat,
{
    let ghost s = node.shape();
    proof {
        node.lemma_top(base);
    }
    match node {
        Node::Sequence { len, elem, elem_columns } => {
            proof {
                lemma_one_kid_columns(s);
            }
            match read_count("sequence length", *elem_columns, cursors, *len, Ghost(places(*regs))) {
                Ok(n) => skip_repeated(elem, n, cursors, regs, Ghost(s), Ghost(base)),
                Err(error) => Err(error),
            }
        },
        Node::Mapping { len, key, value, entry_columns } => {
            proof {
                lemma_two_kids_columns(s);
            }
            match read_count("map length", *entry_columns, cursors, *len, Ghost(places(*regs))) {
                Ok(n) => skip_pairs(
                    key,
                    value,
                    n,
                    cursors,
                    regs,
                    Ghost(s),
                    Ghost(base),
                    Ghost(*node),
                ),
                Err(error) => Err(error),
            }
        },
        _ => Ok(()),
    }
}

fn skip_repeated<E>(
    elem: &Node,
    n: usize,
    cursors: &mut [ColumnCursor<'_>],
    regs: &mut ReadState<E>,
    Ghost(s): Ghost<Shape>,
    Ghost(base): Ghost<nat>,
) -> (result: Result<()>)
    requires
        readable_state(old(cursors)@, places(*old(regs))),
        s.kids == seq![elem.shape()],
        elem.laid(base + 1),
        elem.shape().well_formed(),
        base + 1 + width_of(elem.shape()) <= old(cursors)@.len(),
    ensures
        still_readable(old(cursors)@, final(cursors)@, places(*final(regs))),
        skipped(
            result,
            skip_items(s, base, cur_of(old(cursors)@, places(*old(regs))), n as nat),
            final(cursors)@,
            places(*final(regs)),
        ),
    decreases elem, 3nat,
{
    let ghost cur = cur_of(cursors@, places(*regs));
    let ghost before = cursors@;
    let mut i: usize = 0;
    while i < n
        invariant
            i <= n,
            before == old(cursors)@,
            cur == cur_of(old(cursors)@, places(*old(regs))),
            still_readable(before, cursors@, places(*regs)),
            s.kids == seq![elem.shape()],
            elem.laid(base + 1),
            elem.shape().well_formed(),
            base + 1 + width_of(elem.shape()) <= cursors@.len(),
            skip_items(s, base, cur, i as nat) == Ok::<Cur, Fault>(cur_of(cursors@, places(*regs))),
        decreases n - i,
    {
        match skip_at(elem, cursors, regs, Ghost(base + 1)) {
            Ok(_) => {},
            Err(error) => {
                proof {
                    assert(skip_items(s, base, cur, (i + 1) as nat) is Err);
                    lemma_items_fault(s, base, cur, (i + 1) as nat, n as nat);
                }
                return Err(error);
            },
        }
        i += 1;
    }
    Ok(())
}

fn skip_pairs<E>(
    key: &Node,
    held: &Node,
    n: usize,
    cursors: &mut [ColumnCursor<'_>],
    regs: &mut ReadState<E>,
    Ghost(s): Ghost<Shape>,
    Ghost(base): Ghost<nat>,
    Ghost(whole): Ghost<Node>,
) -> (result: Result<()>)
    requires
        readable_state(old(cursors)@, places(*old(regs))),
        whole matches Node::Mapping { len: _, key: k, value: h, entry_columns: _ } && *k == *key
            && *h == *held,
        s.kids == seq![key.shape(), held.shape()],
        key.laid(base + 1),
        held.laid(base + 1 + width_of(key.shape())),
        key.shape().well_formed(),
        held.shape().well_formed(),
        base + 1 + width_of(key.shape()) + width_of(held.shape()) <= old(cursors)@.len(),
    ensures
        still_readable(old(cursors)@, final(cursors)@, places(*final(regs))),
        skipped(
            result,
            skip_entries(s, base, cur_of(old(cursors)@, places(*old(regs))), n as nat),
            final(cursors)@,
            places(*final(regs)),
        ),
    decreases whole, 0nat,
{
    let ghost cur = cur_of(cursors@, places(*regs));
    let ghost before = cursors@;
    let mut i: usize = 0;
    while i < n
        invariant
            i <= n,
            before == old(cursors)@,
            cur == cur_of(old(cursors)@, places(*old(regs))),
            still_readable(before, cursors@, places(*regs)),
            whole matches Node::Mapping { len: _, key: k, value: h, entry_columns: _ } && *k == *key
                && *h == *held,
            s.kids == seq![key.shape(), held.shape()],
            key.laid(base + 1),
            held.laid(base + 1 + width_of(key.shape())),
            key.shape().well_formed(),
            held.shape().well_formed(),
            base + 1 + width_of(key.shape()) + width_of(held.shape()) <= cursors@.len(),
            skip_entries(s, base, cur, i as nat) == Ok::<Cur, Fault>(
                cur_of(cursors@, places(*regs)),
            ),
        decreases n - i,
    {
        match skip_at(key, cursors, regs, Ghost(base + 1)) {
            Ok(_) => {},
            Err(error) => {
                proof {
                    assert(skip_entries(s, base, cur, (i + 1) as nat) is Err);
                    lemma_entries_fault(s, base, cur, (i + 1) as nat, n as nat);
                }
                return Err(error);
            },
        }
        match skip_at(held, cursors, regs, Ghost(base + 1 + width_of(key.shape()))) {
            Ok(_) => {},
            Err(error) => {
                proof {
                    assert(skip_entries(s, base, cur, (i + 1) as nat) is Err);
                    lemma_entries_fault(s, base, cur, (i + 1) as nat, n as nat);
                }
                return Err(error);
            },
        }
        i += 1;
    }
    Ok(())
}

fn skip_plain<E>(
    fields: &Vec<Node>,
    cursors: &mut [ColumnCursor<'_>],
    regs: &mut ReadState<E>,
    Ghost(s): Ghost<Shape>,
    Ghost(base): Ghost<nat>,
) -> (result: Result<()>)
    requires
        readable_state(old(cursors)@, places(*old(regs))),
        s.kids == node_shapes(fields@),
        s.well_formed(),
        fields_laid(fields@, s, base),
        base + width_of(s) <= old(cursors)@.len(),
    ensures
        still_readable(old(cursors)@, final(cursors)@, places(*final(regs))),
        skipped(
            result,
            skip_fields(s, base, cur_of(old(cursors)@, places(*old(regs))), s.kids.len()),
            final(cursors)@,
            places(*final(regs)),
        ),
    decreases fields, 3nat,
{
    let ghost cur = cur_of(cursors@, places(*regs));
    let ghost before = cursors@;
    let mut i: usize = 0;
    proof {
        lemma_node_shapes(fields@);
        lemma_fields_laid(fields@, s, base);
    }
    while i < fields.len()
        invariant
            i <= fields@.len(),
            before == old(cursors)@,
            cur == cur_of(old(cursors)@, places(*old(regs))),
            still_readable(before, cursors@, places(*regs)),
            s.kids == node_shapes(fields@),
            s.kids.len() == fields@.len(),
            s.well_formed(),
            forall|j: int|
                0 <= j < fields@.len() ==> #[trigger] node_shapes(fields@)[j] == fields@[j].shape(),
            forall|j: int|
                0 <= j < fields@.len() ==> (#[trigger] fields@[j]).laid(kid_base(s, base, j as nat)),
            base + width_of(s) <= cursors@.len(),
            skip_fields(s, base, cur, i as nat) == Ok::<Cur, Fault>(
                cur_of(cursors@, places(*regs)),
            ),
        decreases fields@.len() - i,
    {
        proof {
            lemma_kid_columns(s, i as nat);
            assert(s.kids[i as int] == fields@[i as int].shape());
            assert(s.kids[i as int].well_formed());
        }
        match skip_at(&fields[i], cursors, regs, Ghost(kid_base(s, base, i as nat))) {
            Ok(_) => {},
            Err(error) => {
                proof {
                    assert(skip_fields(s, base, cur, (i + 1) as nat) is Err);
                    lemma_fields_fault(s, base, cur, (i + 1) as nat, s.kids.len());
                }
                return Err(error);
            },
        }
        i += 1;
    }
    Ok(())
}

fn skip_named<E>(
    fields: &Vec<(String, Node)>,
    cursors: &mut [ColumnCursor<'_>],
    regs: &mut ReadState<E>,
    Ghost(s): Ghost<Shape>,
    Ghost(base): Ghost<nat>,
) -> (result: Result<()>)
    requires
        readable_state(old(cursors)@, places(*old(regs))),
        s.kids == named_node_shapes(fields@),
        s.well_formed(),
        named_laid(fields@, s, base),
        base + width_of(s) <= old(cursors)@.len(),
    ensures
        still_readable(old(cursors)@, final(cursors)@, places(*final(regs))),
        skipped(
            result,
            skip_fields(s, base, cur_of(old(cursors)@, places(*old(regs))), s.kids.len()),
            final(cursors)@,
            places(*final(regs)),
        ),
    decreases fields, 3nat,
{
    let ghost cur = cur_of(cursors@, places(*regs));
    let ghost before = cursors@;
    let mut i: usize = 0;
    proof {
        lemma_named_node_shapes(fields@);
        lemma_named_laid(fields@, s, base);
    }
    while i < fields.len()
        invariant
            i <= fields@.len(),
            before == old(cursors)@,
            cur == cur_of(old(cursors)@, places(*old(regs))),
            still_readable(before, cursors@, places(*regs)),
            s.kids == named_node_shapes(fields@),
            s.kids.len() == fields@.len(),
            s.well_formed(),
            forall|j: int|
                0 <= j < fields@.len() ==> #[trigger] named_node_shapes(fields@)[j]
                    == fields@[j].1.shape(),
            forall|j: int|
                0 <= j < fields@.len() ==> (#[trigger] fields@[j]).1.laid(
                    kid_base(s, base, j as nat),
                ),
            base + width_of(s) <= cursors@.len(),
            skip_fields(s, base, cur, i as nat) == Ok::<Cur, Fault>(
                cur_of(cursors@, places(*regs)),
            ),
        decreases fields@.len() - i,
    {
        proof {
            lemma_kid_columns(s, i as nat);
            assert(s.kids[i as int] == fields@[i as int].1.shape());
            assert(s.kids[i as int].well_formed());
        }
        match skip_at(&fields[i].1, cursors, regs, Ghost(kid_base(s, base, i as nat))) {
            Ok(_) => {},
            Err(error) => {
                proof {
                    assert(skip_fields(s, base, cur, (i + 1) as nat) is Err);
                    lemma_fields_fault(s, base, cur, (i + 1) as nat, s.kids.len());
                }
                return Err(error);
            },
        }
        i += 1;
    }
    Ok(())
}

/// Advances past the payload of one variant, whose columns start at `base`.
fn skip_variant_at<E>(
    kind: &VariantKind,
    cursors: &mut [ColumnCursor<'_>],
    regs: &mut ReadState<E>,
    Ghost(base): Ghost<nat>,
) -> (result: Result<()>)
    requires
        readable_state(old(cursors)@, places(*old(regs))),
        kind.laid(base),
        kind.shape().well_formed(),
        base + width_of(kind.shape()) <= old(cursors)@.len(),
    ensures
        still_readable(old(cursors)@, final(cursors)@, places(*final(regs))),
        skipped(
            result,
            skip_fields(
                kind.shape(),
                base,
                cur_of(old(cursors)@, places(*old(regs))),
                kind.shape().kids.len(),
            ),
            final(cursors)@,
            places(*final(regs)),
        ),
    decreases kind, 4nat,
{
    let ghost s = kind.shape();
    let ghost cur = cur_of(cursors@, places(*regs));
    proof {
        kind.lemma_top(base);
    }
    match kind {
        VariantKind::Unit => Ok(()),
        VariantKind::Newtype(inner) => {
            proof {
                lemma_one_kid_columns(s);
                assert(kid_base(s, base, 0) == base);
                assert(skip_fields(s, base, cur, 0) == Ok::<Cur, Fault>(cur));
            }
            skip_at(inner, cursors, regs, Ghost(base))
        },
        VariantKind::Tuple(fields) => skip_plain(fields, cursors, regs, Ghost(s), Ghost(base)),
        VariantKind::Struct(fields) => skip_named(fields, cursors, regs, Ghost(s), Ghost(base)),
    }
}

/// Advances past a shared object. Only first occurrences carry a payload.
fn skip_shared<E>(
    key: ColId,
    inner: &Node,
    cursors: &mut [ColumnCursor<'_>],
    regs: &mut ReadState<E>,
    Ghost(s): Ghost<Shape>,
) -> (result: Result<()>)
    requires
        readable_state(old(cursors)@, places(*old(regs))),
        s.kind == Kind::Shared,
        s.kids == seq![inner.shape()],
        inner.laid(key as nat + 1),
        inner.shape().well_formed(),
        key + 1 + width_of(inner.shape()) <= old(cursors)@.len(),
    ensures
        still_readable(old(cursors)@, final(cursors)@, places(*final(regs))),
        skipped(
            result,
            skip(s, key as nat, cur_of(old(cursors)@, places(*old(regs)))),
            final(cursors)@,
            places(*final(regs)),
        ),
    decreases inner, 3nat,
{
    let k = match read_varint(cursors, key, Ghost(places(*regs))) {
        Ok(k) => k,
        Err(error) => return Err(error),
    };
    let ghost next = cur_of(cursors@, places(*regs));
    match regs.read_skip(key, k) {
        Ok(fresh) => {
            if fresh {
                proof {
                    lemma_reserved(next.regs, key as nat, *regs, cursors@, next);
                }
                skip_at(inner, cursors, regs, Ghost(key as nat + 1))
            } else {
                assert(cur_of(cursors@, places(*regs)) == next);
                Ok(())
            }
        },
        Err(error) => {
            assert(cur_of(cursors@, places(*regs)) == next);
            Err(error)
        },
    }
}

/// Reserving a place in a dictionary, seen from the reading state.
pub(crate) proof fn lemma_reserved<E>(
    before: Seq<Seq<Option<Val>>>,
    key: nat,
    regs: ReadState<E>,
    cursors: Seq<ColumnCursor<'_>>,
    next: Cur,
)
    requires
        next == cur_of(cursors, before),
        key < before.len(),
        regs@.len() == before.len(),
        places(regs)[key as int] =~= before[key as int].push(None),
        forall|c: int|
            0 <= c < before.len() && c != key ==> #[trigger] places(regs)[c] == before[c],
    ensures
        cur_of(cursors, places(regs)) == next.reserve(key),
{
    assert(places(regs) =~= next.reserve(key).regs);
}

} // verus!
