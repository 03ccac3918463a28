//! Columnar deserialization: reads values out of the columns, driven by the
//! writer's schema.

use std::rc::Rc;

use vstd::prelude::*;

use crate::columnar::{checked_count, left, ColumnCursor};
use crate::error::{Error, Fault, Result};
use crate::get::{
    count, get, get_bytes, get_entries, get_fields, get_items, lemma_get_within, variant_head,
    variant_tag, Cur,
};
use crate::node::{
    fields_laid, lemma_fields_laid, lemma_named_laid, lemma_named_node_shapes, lemma_node_shapes,
    lemma_variant_kind_shapes, lemma_variants_laid, named_laid, named_node_shapes, node_shapes,
    ColId, Node, Variant, VariantKind,
};
use crate::schema::{labels, Primitive};
use crate::shape::{
    kid_base, lemma_kid_columns, lemma_one_kid_columns, lemma_two_kids_columns, width_of, Kind,
    Shape,
};
use crate::shared::{ReadSlot, ReadState};
use crate::text;
use crate::value::{entry, entry_vals, named_vals, vals, Scalar, Val, Value};
use crate::varint;

verus! {

/// A shared object that was read, as the dictionaries keep it.
#[derive(Debug)]
pub struct Object {
    pub inner: Rc<Value>,
}

impl Clone for Object {
    fn clone(&self) -> (result: Self)
        ensures
            result == *self,
    {
        Object { inner: self.inner.clone() }
    }
}

/// The objects of one dictionary, as values.
pub open spec fn kept(list: Seq<Option<Object>>) -> Seq<Option<Val>> {
    list.map_values(
        |slot: Option<Object>|
            match slot {
                Some(object) => Some(object.inner.val()),
                None => None::<Val>,
            },
    )
}

/// The dictionaries of a row, as values.
pub open spec fn objects(regs: ReadState<Object>) -> Seq<Seq<Option<Val>>> {
    regs@.map_values(|list: Seq<Option<Object>>| kept(list))
}

/// The reading state that cursors and dictionaries stand for.
pub open spec fn cur_of(cursors: Seq<ColumnCursor<'_>>, regs: Seq<Seq<Option<Val>>>) -> Cur {
    Cur {
        bufs: Seq::new(cursors.len(), |c: int| cursors[c].data()),
        pos: Seq::new(cursors.len(), |c: int| cursors[c].at()),
        regs,
    }
}

/// The bytes of the first `n` columns.
pub open spec fn data_len(cursors: Seq<ColumnCursor<'_>>, n: nat) -> nat
    decreases n,
{
    if n == 0 {
        0
    } else {
        data_len(cursors, (n - 1) as nat) + cursors[n - 1].data().len()
    }
}

/// The cursors are well formed, there is a dictionary for each, and their
/// bytes can be counted.
pub open spec fn readable_state(cursors: Seq<ColumnCursor<'_>>, regs: Seq<Seq<Option<Val>>>) -> bool {
    &&& regs.len() == cursors.len()
    &&& forall|c: int| 0 <= c < cursors.len() ==> (#[trigger] cursors[c]).well_formed()
    &&& data_len(cursors, cursors.len()) <= u64::MAX
}

/// Reading leaves the columns themselves alone.
pub open spec fn same_data(a: Seq<ColumnCursor<'_>>, b: Seq<ColumnCursor<'_>>) -> bool {
    &&& a.len() == b.len()
    &&& forall|c: int| 0 <= c < a.len() ==> (#[trigger] b[c]).data() == a[c].data()
}

pub proof fn lemma_same_data(a: Seq<ColumnCursor<'_>>, b: Seq<ColumnCursor<'_>>, n: nat)
    requires
        same_data(a, b),
        n <= a.len(),
    ensures
        data_len(a, n) == data_len(b, n),
    decreases n,
{
    if n > 0 {
        lemma_same_data(a, b, (n - 1) as nat);
    }
}

/// What is left in the cursors is what is left in the state, and no more than
/// the columns hold.
pub proof fn lemma_left_is(cursors: Seq<ColumnCursor<'_>>, regs: Seq<Seq<Option<Val>>>, n: nat)
    requires
        n <= cursors.len(),
        forall|c: int| 0 <= c < cursors.len() ==> (#[trigger] cursors[c]).well_formed(),
    ensures
        left(cursors, n) == cur_of(cursors, regs).left(n),
        left(cursors, n) <= data_len(cursors, n),
    decreases n,
{
    if n > 0 {
        lemma_left_is(cursors, regs, (n - 1) as nat);
        assert(cur_of(cursors, regs).rest((n - 1) as nat) == cursors[n - 1].rest());
    }
}

/// One cursor moved on by `n` bytes.
proof fn lemma_advanced(
    before: Seq<ColumnCursor<'_>>,
    after: Seq<ColumnCursor<'_>>,
    regs: Seq<Seq<Option<Val>>>,
    col: int,
    n: nat,
)
    requires
        readable_state(before, regs),
        0 <= col < before.len(),
        after.len() == before.len(),
        forall|c: int| 0 <= c < before.len() && c != col ==> after[c] == before[c],
        after[col].well_formed(),
        after[col].data() == before[col].data(),
        after[col].at() == before[col].at() + n,
    ensures
        readable_state(after, regs),
        same_data(before, after),
        cur_of(after, regs) == cur_of(before, regs).advance(col as nat, n),
{
    lemma_same_data(before, after, before.len());
    let a = cur_of(after, regs);
    let b = cur_of(before, regs).advance(col as nat, n);
    assert(a.bufs =~= b.bufs);
    assert(a.pos =~= b.pos);
}

pub proof fn lemma_rest(cursors: Seq<ColumnCursor<'_>>, regs: Seq<Seq<Option<Val>>>, col: int)
    requires
        0 <= col < cursors.len(),
    ensures
        cur_of(cursors, regs).rest(col as nat) == cursors[col].rest(),
{
}

/// Takes bytes from one column.
pub(crate) fn take<'de>(
    cursors: &mut [ColumnCursor<'de>],
    col: ColId,
    n: usize,
    Ghost(regs): Ghost<Seq<Seq<Option<Val>>>>,
) -> (result: Result<&'de [u8]>)
    requires
        readable_state(old(cursors)@, regs),
        col < old(cursors)@.len(),
    ensures
        readable_state(final(cursors)@, regs),
        same_data(old(cursors)@, final(cursors)@),
        match result {
            Ok(bytes) => cur_of(old(cursors)@, regs).take(col as nat, n as nat) == Ok::<
                (Seq<u8>, Cur),
                Fault,
            >((bytes@, cur_of(final(cursors)@, regs))),
            Err(error) => cur_of(old(cursors)@, regs).take(col as nat, n as nat) == Err::<
                (Seq<u8>, Cur),
                Fault,
            >(error@),
        },
{
    let ghost before = cursors@;
    proof {
        lemma_rest(before, regs, col as int);
    }
    let result = cursors[col].take(n);
    proof {
        lemma_advanced(
            before,
            cursors@,
            regs,
            col as int,
            if result is Ok {
                n as nat
            } else {
                0
            },
        );
    }
    result
}

/// Reads a varint from one column.
pub(crate) fn read_varint(
    cursors: &mut [ColumnCursor<'_>],
    col: ColId,
    Ghost(regs): Ghost<Seq<Seq<Option<Val>>>>,
) -> (result: Result<u64>)
    requires
        readable_state(old(cursors)@, regs),
        col < old(cursors)@.len(),
    ensures
        readable_state(final(cursors)@, regs),
        same_data(old(cursors)@, final(cursors)@),
        match result {
            Ok(value) => cur_of(old(cursors)@, regs).varint(col as nat) == Ok::<(nat, Cur), Fault>(
                (value as nat, cur_of(final(cursors)@, regs)),
            ),
            Err(error) => cur_of(old(cursors)@, regs).varint(col as nat) == Err::<
                (nat, Cur),
                Fault,
            >(error@),
        },
{
    let ghost before = cursors@;
    proof {
        lemma_rest(before, regs, col as int);
    }
    let result = cursors[col].varint();
    proof {
        lemma_advanced(
            before,
            cursors@,
            regs,
            col as int,
            (cursors@[col as int].at() - before[col as int].at()) as nat,
        );
    }
    result
}

/// Reads a length from one column.
fn read_len(
    cursors: &mut [ColumnCursor<'_>],
    col: ColId,
    Ghost(regs): Ghost<Seq<Seq<Option<Val>>>>,
) -> (result: Result<usize>)
    requires
        readable_state(old(cursors)@, regs),
        col < old(cursors)@.len(),
    ensures
        readable_state(final(cursors)@, regs),
        same_data(old(cursors)@, final(cursors)@),
        match result {
            Ok(value) => cur_of(old(cursors)@, regs).len(col as nat) == Ok::<(nat, Cur), Fault>(
                (value as nat, cur_of(final(cursors)@, regs)),
            ),
            Err(error) => cur_of(old(cursors)@, regs).len(col as nat) == Err::<(nat, Cur), Fault>(
                error@,
            ),
        },
{
    match read_varint(cursors, col, Ghost(regs)) {
        Ok(value) => {
            if value > usize::MAX as u64 {
                return Err(Error::Malformed("length overflows usize"));
            }
            Ok(value as usize)
        },
        Err(error) => Err(error),
    }
}

/// Reads a validated count from a length column.
pub(crate) fn read_count(
    what: &'static str,
    element_columns: usize,
    cursors: &mut [ColumnCursor<'_>],
    col: ColId,
    Ghost(regs): Ghost<Seq<Seq<Option<Val>>>>,
) -> (result: Result<usize>)
    requires
        readable_state(old(cursors)@, regs),
        col < old(cursors)@.len(),
    ensures
        readable_state(final(cursors)@, regs),
        same_data(old(cursors)@, final(cursors)@),
        match result {
            Ok(value) => count(
                what@,
                element_columns as nat,
                col as nat,
                cur_of(old(cursors)@, regs),
            ) == Ok::<(nat, Cur), Fault>((value as nat, cur_of(final(cursors)@, regs))),
            Err(error) => count(
                what@,
                element_columns as nat,
                col as nat,
                cur_of(old(cursors)@, regs),
            ) == Err::<(nat, Cur), Fault>(error@),
        },
{
    match read_varint(cursors, col, Ghost(regs)) {
        Ok(claimed) => {
            proof {
                lemma_left_is(cursors@, regs, cursors@.len());
            }
            checked_count(what, element_columns, claimed, cursors)
        },
        Err(error) => Err(error),
    }
}

/// Reads an enum tag.
pub(crate) fn read_tag(
    variants: usize,
    cursors: &mut [ColumnCursor<'_>],
    col: ColId,
    Ghost(regs): Ghost<Seq<Seq<Option<Val>>>>,
) -> (result: Result<usize>)
    requires
        readable_state(old(cursors)@, regs),
        col < old(cursors)@.len(),
    ensures
        readable_state(final(cursors)@, regs),
        same_data(old(cursors)@, final(cursors)@),
        match result {
            Ok(i) => i < variants && variant_tag(
                variants as nat,
                col as nat,
                cur_of(old(cursors)@, regs),
            ) == Ok::<(nat, Cur), Fault>((i as nat, cur_of(final(cursors)@, regs))),
            Err(error) => variant_tag(
                variants as nat,
                col as nat,
                cur_of(old(cursors)@, regs),
            ) == Err::<(nat, Cur), Fault>(error@),
        },
{
    match read_varint(cursors, col, Ghost(regs)) {
        Ok(raw) => {
            if raw < variants as u64 {
                Ok(raw as usize)
            } else {
                Err(Error::InvalidTag { what: "enum variant", value: raw })
            }
        },
        Err(error) => Err(error),
    }
}

/// Reads a byte string.
pub(crate) fn read_bytes<'de>(
    cursors: &mut [ColumnCursor<'de>],
    len: ColId,
    data: ColId,
    Ghost(regs): Ghost<Seq<Seq<Option<Val>>>>,
) -> (result: Result<&'de [u8]>)
    requires
        readable_state(old(cursors)@, regs),
        data == len + 1,
        data < old(cursors)@.len(),
    ensures
        readable_state(final(cursors)@, regs),
        same_data(old(cursors)@, final(cursors)@),
        match result {
            Ok(bytes) => get_bytes(len as nat, cur_of(old(cursors)@, regs)) == Ok::<
                (Seq<u8>, Cur),
                Fault,
            >((bytes@, cur_of(final(cursors)@, regs))),
            Err(error) => get_bytes(len as nat, cur_of(old(cursors)@, regs)) == Err::<
                (Seq<u8>, Cur),
                Fault,
            >(error@),
        },
{
    match read_len(cursors, len, Ghost(regs)) {
        Ok(n) => take(cursors, data, n, Ghost(regs)),
        Err(error) => Err(error),
    }
}

/// What a step of deserialization says of its outcome.
pub open spec fn took<V>(
    expected: std::result::Result<(V, Cur), Fault>,
    value: V,
    cursors: Seq<ColumnCursor<'_>>,
    regs: Seq<Seq<Option<Val>>>,
) -> bool {
    expected == Ok::<(V, Cur), Fault>((value, cur_of(cursors, regs)))
}

/// The state after a step: still readable, the same columns.
pub open spec fn still_readable(
    before: Seq<ColumnCursor<'_>>,
    cursors: Seq<ColumnCursor<'_>>,
    regs: Seq<Seq<Option<Val>>>,
) -> bool {
    readable_state(cursors, regs) && same_data(before, cursors)
}

/// Reads a value without parts.
fn read_leaf(
    node: &Node,
    cursors: &mut [ColumnCursor<'_>],
    Ghost(regs): Ghost<Seq<Seq<Option<Val>>>>,
    Ghost(base): Ghost<nat>,
) -> (result: Result<Value>)
    requires
        readable_state(old(cursors)@, regs),
        node is Primitive || node is Str || node is Unit,
        node.laid(base),
        base + width_of(node.shape()) <= old(cursors)@.len(),
    ensures
        still_readable(old(cursors)@, final(cursors)@, regs),
        match result {
            Ok(value) => took(
                get(node.shape(), base, cur_of(old(cursors)@, regs)),
                value@,
                final(cursors)@,
                regs,
            ),
            Err(error) => get(node.shape(), base, cur_of(old(cursors)@, regs)) == Err::<
                (Val, Cur),
                Fault,
            >(error@),
        },
{
    proof {
        node.lemma_top(base);
    }
    match node {
        Node::Primitive(p, col) => match take(cursors, *col, p.width(), Ghost(regs)) {
            Ok(bytes) => match Scalar::read(*p, bytes) {
                Ok(x) => Ok(Value::Scalar(x)),
                Err(error) => Err(error),
            },
            Err(error) => Err(error),
        },
        Node::Str { bytes, len, data } => match read_bytes(cursors, *len, *data, Ghost(regs)) {
            Ok(raw) => {
                if *bytes {
                    Ok(Value::Bytes(vstd::slice::slice_to_vec(raw)))
                } else {
                    match text::str_from_utf8(raw) {
                        Some(text) => {
                            proof {
                                vstd::utf8::encode_utf8_decode_utf8(text@);
                            }
                            Ok(Value::Str(text.to_owned()))
                        },
                        None => Err(Error::InvalidUtf8),
                    }
                }
            },
            Err(error) => Err(error),
        },
        Node::Unit { name: None } => Ok(Value::Unit),
        Node::Unit { name: Some(name) } => Ok(Value::UnitStruct { name: name.clone() }),
        _ => Err(Error::UnexpectedEof),
    }
}

/// Reads whatever the schema says is next.
pub(crate) fn read_at(
    node: &Node,
    cursors: &mut [ColumnCursor<'_>],
    regs: &mut ReadState<Object>,
    Ghost(base): Ghost<nat>,
) -> (result: Result<Value>)
    requires
        readable_state(old(cursors)@, objects(*old(regs))),
        node.laid(base),
        node.shape().well_formed(),
        base + width_of(node.shape()) <= old(cursors)@.len(),
    ensures
        still_readable(old(cursors)@, final(cursors)@, objects(*final(regs))),
        match result {
            Ok(value) => took(
                get(node.shape(), base, cur_of(old(cursors)@, objects(*old(regs)))),
                value@,
                final(cursors)@,
                objects(*final(regs)),
            ),
            Err(error) => get(node.shape(), base, cur_of(old(cursors)@, objects(*old(regs)))) == Err::<
                (Val, Cur),
                Fault,
            >(error@),
        },
    decreases node, 2nat,
{
    let ghost s = node.shape();
    proof {
        node.lemma_top(base);
    }
    match node {
        Node::Primitive(..) | Node::Str { .. } | Node::Unit { .. } => read_leaf(
            node,
            cursors,
            Ghost(objects(*regs)),
            Ghost(base),
        ),
        Node::Newtype { .. } | Node::Option { .. } => read_wrapped(node, cursors, regs, Ghost(base)),
        Node::Sequence { .. } | Node::Mapping { .. } => read_counted(
            node,
            cursors,
            regs,
            Ghost(base),
        ),
        Node::Tuple { .. } | Node::Struct { .. } => read_product(node, cursors, regs, Ghost(base)),
        Node::Enum { .. } => read_enum(node, cursors, regs, Ghost(base)),
        Node::Shared { key, inner } => {
            proof {
                lemma_one_kid_columns(s);
            }
            read_shared(*key, inner, cursors, regs, Ghost(s))
        },
    }
}

/// Reads a newtype struct or an option.
fn read_wrapped(
    node: &Node,
    cursors: &mut [ColumnCursor<'_>],
    regs: &mut ReadState<Object>,
    Ghost(base): Ghost<nat>,
) -> (result: Result<Value>)
    requires
        readable_state(old(cursors)@, objects(*old(regs))),
        node is Newtype || node is Option,
        node.laid(base),
        node.shape().well_formed(),
        base + width_of(node.shape()) <= old(cursors)@.len(),
    ensures
        still_readable(old(cursors)@, final(cursors)@, objects(*final(regs))),
        match result {
            Ok(value) => took(
                get(node.shape(), base, cur_of(old(cursors)@, objects(*old(regs)))),
                value@,
                final(cursors)@,
                objects(*final(regs)),
            ),
            Err(error) => get(node.shape(), base, cur_of(old(cursors)@, objects(*old(regs)))) == Err::<
                (Val, Cur),
                Fault,
            >(error@),
        },
    decreases node, 1nat,
{
    let ghost s = node.shape();
    proof {
        node.lemma_top(base);
    }
    match node {
        Node::Newtype { name, inner } => {
            proof {
                lemma_one_kid_columns(s);
            }
            match read_at(inner, cursors, regs, Ghost(base)) {
                Ok(item) => Ok(Value::NewtypeStruct { name: name.clone(), inner: Box::new(item) }),
                Err(error) => Err(error),
            }
        },
        Node::Option { tag, inner } => {
            proof {
                lemma_one_kid_columns(s);
            }
            match take(cursors, *tag, 1, Ghost(objects(*regs))) {
                Ok(present) => {
                    if present[0] == 0 {
                        Ok(Value::Absent)
                    } else if present[0] == 1 {
                        match read_at(inner, cursors, regs, Ghost(base + 1)) {
                            Ok(item) => Ok(Value::Present(Box::new(item))),
                            Err(error) => Err(error),
                        }
                    } else {
                        Err(Error::InvalidTag { what: "presence", value: present[0] as u64 })
                    }
                },
                Err(error) => Err(error),
            }
        },
        _ => Err(Error::UnexpectedEof),
    }
}

/// Reads a sequence or a map: a count, then as many elements.
fn read_counted(
    node: &Node,
    cursors: &mut [ColumnCursor<'_>],
    regs: &mut ReadState<Object>,
    Ghost(base): Ghost<nat>,
) -> (result: Result<Value>)
    requires
        readable_state(old(cursors)@, objects(*old(regs))),
        node is Sequence || node is Mapping,
        node.laid(base),
        node.shape().well_formed(),
        base + width_of(node.shape()) <= old(cursors)@.len(),
    ensures
        still_readable(old(cursors)@, final(cursors)@, objects(*final(regs))),
        match result {
            Ok(value) => took(
                get(node.shape(), base, cur_of(old(cursors)@, objects(*old(regs)))),
                value@,
                final(cursors)@,
                objects(*final(regs)),
            ),
            Err(error) => get(node.shape(), base, cur_of(old(cursors)@, objects(*old(regs)))) == Err::<
                (Val, Cur),
                Fault,
            >(error@),
        },
    decreases node, 1nat,
{
    let ghost s = node.shape();
    proof {
        node.lemma_top(base);
    }
    match node {
        Node::Sequence { len, elem, elem_columns } => {
            proof {
                lemma_one_kid_columns(s);
            }
            match read_count("sequence length", *elem_columns, cursors, *len, Ghost(objects(*regs))) {
                Ok(n) => match read_items(elem, n, cursors, regs, Ghost(s), Ghost(base)) {
                    Ok(items) => Ok(Value::Sequence(items)),
                    Err(error) => Err(error),
                },
                Err(error) => Err(error),
            }
        },
        Node::Mapping { len, key, value, entry_columns } => {
            proof {
                lemma_two_kids_columns(s);
            }
            match read_count("map length", *entry_columns, cursors, *len, Ghost(objects(*regs))) {
                Ok(n) => match read_entries(
                    key,
                    value,
                    n,
                    cursors,
                    regs,
                    Ghost(s),
                    Ghost(base),
                    Ghost(*node),
                ) {
                    Ok(entries) => Ok(Value::Mapping(entries)),
                    Err(error) => Err(error),
                },
                Err(error) => Err(error),
            }
        },
        _ => Err(Error::UnexpectedEof),
    }
}

/// Reads a product of fields.
fn read_product(
    node: &Node,
    cursors: &mut [ColumnCursor<'_>],
    regs: &mut ReadState<Object>,
    Ghost(base): Ghost<nat>,
) -> (result: Result<Value>)
    requires
        readable_state(old(cursors)@, objects(*old(regs))),
        node is Tuple || node is Struct,
        node.laid(base),
        node.shape().well_formed(),
        base + width_of(node.shape()) <= old(cursors)@.len(),
    ensures
        still_readable(old(cursors)@, final(cursors)@, objects(*final(regs))),
        match result {
            Ok(value) => took(
                get(node.shape(), base, cur_of(old(cursors)@, objects(*old(regs)))),
                value@,
                final(cursors)@,
                objects(*final(regs)),
            ),
            Err(error) => get(node.shape(), base, cur_of(old(cursors)@, objects(*old(regs)))) == Err::<
                (Val, Cur),
                Fault,
            >(error@),
        },
    decreases node, 1nat,
{
    let ghost s = node.shape();
    proof {
        node.lemma_top(base);
    }
    match node {
        Node::Tuple { name: None, fields } => match read_fields(
            fields,
            cursors,
            regs,
            Ghost(s),
            Ghost(base),
        ) {
            Ok(items) => Ok(Value::Tuple(items)),
            Err(error) => Err(error),
        },
        Node::Tuple { name: Some(name), fields } => match read_fields(
            fields,
            cursors,
            regs,
            Ghost(s),
            Ghost(base),
        ) {
            Ok(items) => Ok(Value::TupleStruct { name: name.clone(), fields: items }),
            Err(error) => Err(error),
        },
        Node::Struct { name, fields } => match read_named(
            fields,
            cursors,
            regs,
            Ghost(s),
            Ghost(base),
        ) {
            Ok(items) => Ok(Value::Struct { name: name.clone(), fields: items }),
            Err(error) => Err(error),
        },
        _ => Err(Error::UnexpectedEof),
    }
}

/// Reads an enum: its tag, then the payload of that variant.
#[verifier::rlimit(40)]
fn read_enum(
    node: &Node,
    cursors: &mut [ColumnCursor<'_>],
    regs: &mut ReadState<Object>,
    Ghost(base): Ghost<nat>,
) -> (result: Result<Value>)
    requires
        readable_state(old(cursors)@, objects(*old(regs))),
        node is Enum,
        node.laid(base),
        node.shape().well_formed(),
        base + width_of(node.shape()) <= old(cursors)@.len(),
    ensures
        still_readable(old(cursors)@, final(cursors)@, objects(*final(regs))),
        match result {
            Ok(value) => took(
                get(node.shape(), base, cur_of(old(cursors)@, objects(*old(regs)))),
                value@,
                final(cursors)@,
                objects(*final(regs)),
            ),
            Err(error) => get(node.shape(), base, cur_of(old(cursors)@, objects(*old(regs)))) == Err::<
                (Val, Cur),
                Fault,
            >(error@),
        },
    decreases node, 1nat,
{
    let ghost s = node.shape();
    proof {
        node.lemma_top(base);
    }
    match node {
        Node::Enum { tag, variants, .. } => {
            proof {
                lemma_variant_kind_shapes(variants@);
                lemma_variants_laid(variants@, s, base);
            }
            match read_tag(variants.len(), cursors, *tag, Ghost(objects(*regs))) {
                Ok(i) => {
                    proof {
                        lemma_kid_columns(s, i as nat);
                        assert(s.kids[i as int].well_formed());
                    }
                    read_variant(
                        i,
                        &variants[i],
                        cursors,
                        regs,
                        Ghost(s),
                        Ghost(base),
                    )
                },
                Err(error) => Err(error),
            }
        },
        _ => Err(Error::UnexpectedEof),
    }
}

proof fn lemma_items_fault(s: Shape, base: nat, cur: Cur, i: nat, n: nat)
    requires
        i <= n,
        get_items(s, base, cur, i) is Err,
    ensures
        get_items(s, base, cur, n) == get_items(s, base, cur, i),
    decreases n,
{
    if i < n {
        lemma_items_fault(s, base, cur, i, (n - 1) as nat);
    }
}

proof fn lemma_entries_fault(s: Shape, base: nat, cur: Cur, i: nat, n: nat)
    requires
        i <= n,
        get_entries(s, base, cur, i) is Err,
    ensures
        get_entries(s, base, cur, n) == get_entries(s, base, cur, i),
    decreases n,
{
    if i < n {
        lemma_entries_fault(s, base, cur, i, (n - 1) as nat);
    }
}

proof fn lemma_fields_fault(s: Shape, base: nat, cur: Cur, i: nat, n: nat)
    requires
        i <= n <= s.kids.len(),
        get_fields(s, base, cur, i) is Err,
    ensures
        get_fields(s, base, cur, n) == get_fields(s, base, cur, i),
    decreases n,
{
    if i < n {
        lemma_fields_fault(s, base, cur, i, (n - 1) as nat);
    }
}

/// Reads the elements of a sequence.
fn read_items(
    elem: &Node,
    n: usize,
    cursors: &mut [ColumnCursor<'_>],
    regs: &mut ReadState<Object>,
    Ghost(s): Ghost<Shape>,
    Ghost(base): Ghost<nat>,
) -> (result: Result<Vec<Value>>)
    requires
        readable_state(old(cursors)@, objects(*old(regs))),
        s.kids == seq![elem.shape()],
        elem.laid(base + 1),
        elem.shape().well_formed(),
        base + 1 + width_of(elem.shape()) <= old(cursors)@.len(),
    ensures
        still_readable(old(cursors)@, final(cursors)@, objects(*final(regs))),
        match result {
            Ok(items) => took(
                get_items(s, base, cur_of(old(cursors)@, objects(*old(regs))), n as nat),
                vals(items@),
                final(cursors)@,
                objects(*final(regs)),
            ),
            Err(error) => get_items(s, base, cur_of(old(cursors)@, objects(*old(regs))), n as nat) == Err::<
                (Seq<Val>, Cur),
                Fault,
            >(error@),
        },
    decreases elem, 3nat,
{
    let ghost cur = cur_of(cursors@, objects(*regs));
    let ghost before = cursors@;
    let mut items: Vec<Value> = Vec::new();
    let mut i: usize = 0;
    assert(vals(items@) =~= seq![]);
    while i < n
        invariant
            i <= n,
            before == old(cursors)@,
            cur == cur_of(old(cursors)@, objects(*old(regs))),
            still_readable(before, cursors@, objects(*regs)),
            s.kids == seq![elem.shape()],
            elem.laid(base + 1),
            elem.shape().well_formed(),
            base + 1 + width_of(elem.shape()) <= cursors@.len(),
            took(get_items(s, base, cur, i as nat), vals(items@), cursors@, objects(*regs)),
        decreases n - i,
    {
        match read_at(elem, cursors, regs, Ghost(base + 1)) {
            Ok(item) => {
                proof {
                    assert(vals(items@.push(item)) =~= vals(items@).push(item@));
                }
                items.push(item);
            },
            Err(error) => {
                proof {
                    assert(get_items(s, base, cur, (i + 1) as nat) is Err);
                    lemma_items_fault(s, base, cur, (i + 1) as nat, n as nat);
                }
                return Err(error);
            },
        }
        i += 1;
    }
    Ok(items)
}

/// Reads the entries of a mapping.
fn read_entries(
    key: &Node,
    held: &Node,
    n: usize,
    cursors: &mut [ColumnCursor<'_>],
    regs: &mut ReadState<Object>,
    Ghost(s): Ghost<Shape>,
    Ghost(base): Ghost<nat>,
    Ghost(whole): Ghost<Node>,
) -> (result: Result<Vec<(Value, Value)>>)
    requires
        readable_state(old(cursors)@, objects(*old(regs))),
        whole matches Node::Mapping { len: _, key: k, value: h, entry_columns: _ } && *k == *key && *h == *held,
        s.kids == seq![key.shape(), held.shape()],
        key.laid(base + 1),
        held.laid(base + 1 + width_of(key.shape())),
        key.shape().well_formed(),
        held.shape().well_formed(),
        base + 1 + width_of(key.shape()) + width_of(held.shape()) <= old(cursors)@.len(),
    ensures
        still_readable(old(cursors)@, final(cursors)@, objects(*final(regs))),
        match result {
            Ok(entries) => took(
                get_entries(s, base, cur_of(old(cursors)@, objects(*old(regs))), n as nat),
                entry_vals(entries@),
                final(cursors)@,
                objects(*final(regs)),
            ),
            Err(error) => get_entries(s, base, cur_of(old(cursors)@, objects(*old(regs))), n as nat)
                == Err::<(Seq<Val>, Cur), Fault>(error@),
        },
    decreases whole, 0nat,
{
    let ghost cur = cur_of(cursors@, objects(*regs));
    let ghost before = cursors@;
    let mut entries: Vec<(Value, Value)> = Vec::new();
    let mut i: usize = 0;
    assert(entry_vals(entries@) =~= seq![]);
    while i < n
        invariant
            i <= n,
            before == old(cursors)@,
            cur == cur_of(old(cursors)@, objects(*old(regs))),
            still_readable(before, cursors@, objects(*regs)),
            whole matches Node::Mapping { len: _, key: k, value: h, entry_columns: _ } && *k == *key && *h == *held,
            s.kids == seq![key.shape(), held.shape()],
            key.laid(base + 1),
            held.laid(base + 1 + width_of(key.shape())),
            key.shape().well_formed(),
            held.shape().well_formed(),
            base + 1 + width_of(key.shape()) + width_of(held.shape()) <= cursors@.len(),
            took(get_entries(s, base, cur, i as nat), entry_vals(entries@), cursors@, objects(*regs)),
        decreases n - i,
    {
        let k = match read_at(key, cursors, regs, Ghost(base + 1)) {
            Ok(k) => k,
            Err(error) => {
                proof {
                    assert(get_entries(s, base, cur, (i + 1) as nat) is Err);
                    lemma_entries_fault(s, base, cur, (i + 1) as nat, n as nat);
                }
                return Err(error);
            },
        };
        match read_at(held, cursors, regs, Ghost(base + 1 + width_of(key.shape()))) {
            Ok(h) => {
                proof {
                    assert(entry_vals(entries@.push((k, h))) =~= entry_vals(entries@).push(
                        entry(k@, h@),
                    ));
                }
                entries.push((k, h));
            },
            Err(error) => {
                proof {
                    assert(get_entries(s, base, cur, (i + 1) as nat) is Err);
                    lemma_entries_fault(s, base, cur, (i + 1) as nat, n as nat);
                }
                return Err(error);
            },
        }
        i += 1;
    }
    Ok(entries)
}

/// Reads the fields of a positional product.
fn read_fields(
    fields: &Vec<Node>,
    cursors: &mut [ColumnCursor<'_>],
    regs: &mut ReadState<Object>,
    Ghost(s): Ghost<Shape>,
    Ghost(base): Ghost<nat>,
) -> (result: Result<Vec<Value>>)
    requires
        readable_state(old(cursors)@, objects(*old(regs))),
        s.kids == node_shapes(fields@),
        s.well_formed(),
        fields_laid(fields@, s, base),
        base + width_of(s) <= old(cursors)@.len(),
    ensures
        still_readable(old(cursors)@, final(cursors)@, objects(*final(regs))),
        match result {
            Ok(items) => took(
                get_fields(s, base, cur_of(old(cursors)@, objects(*old(regs))), s.kids.len()),
                vals(items@),
                final(cursors)@,
                objects(*final(regs)),
            ),
            Err(error) => get_fields(s, base, cur_of(old(cursors)@, objects(*old(regs))), s.kids.len())
                == Err::<(Seq<Val>, Cur), Fault>(error@),
        },
    decreases fields, 3nat,
{
    let ghost cur = cur_of(cursors@, objects(*regs));
    let ghost before = cursors@;
    let mut items: Vec<Value> = Vec::new();
    let mut i: usize = 0;
    proof {
        lemma_node_shapes(fields@);
        lemma_fields_laid(fields@, s, base);
        assert(vals(items@) =~= seq![]);
    }
    while i < fields.len()
        invariant
            i <= fields@.len(),
            before == old(cursors)@,
            cur == cur_of(old(cursors)@, objects(*old(regs))),
            still_readable(before, cursors@, objects(*regs)),
            s.kids == node_shapes(fields@),
            s.kids.len() == fields@.len(),
            s.well_formed(),
            forall|j: int|
                0 <= j < fields@.len() ==> #[trigger] node_shapes(fields@)[j] == fields@[j].shape(),
            forall|j: int|
                0 <= j < fields@.len() ==> (#[trigger] fields@[j]).laid(kid_base(s, base, j as nat)),
            base + width_of(s) <= cursors@.len(),
            took(get_fields(s, base, cur, i as nat), vals(items@), cursors@, objects(*regs)),
        decreases fields@.len() - i,
    {
        proof {
            lemma_kid_columns(s, i as nat);
            assert(s.kids[i as int] == fields@[i as int].shape());
            assert(s.kids[i as int].well_formed());
        }
        match read_at(&fields[i], cursors, regs, Ghost(kid_base(s, base, i as nat))) {
            Ok(item) => {
                proof {
                    assert(vals(items@.push(item)) =~= vals(items@).push(item@));
                }
                items.push(item);
            },
            Err(error) => {
                proof {
                    assert(get_fields(s, base, cur, (i + 1) as nat) is Err);
                    lemma_fields_fault(s, base, cur, (i + 1) as nat, s.kids.len());
                }
                return Err(error);
            },
        }
        i += 1;
    }
    Ok(items)
}

/// Reads the fields of a struct, in the writer's order.
fn read_named(
    fields: &Vec<(String, Node)>,
    cursors: &mut [ColumnCursor<'_>],
    regs: &mut ReadState<Object>,
    Ghost(s): Ghost<Shape>,
    Ghost(base): Ghost<nat>,
) -> (result: Result<Vec<(String, Value)>>)
    requires
        readable_state(old(cursors)@, objects(*old(regs))),
        s.kids == named_node_shapes(fields@),
        s.well_formed(),
        named_laid(fields@, s, base),
        base + width_of(s) <= old(cursors)@.len(),
    ensures
        still_readable(old(cursors)@, final(cursors)@, objects(*final(regs))),
        match result {
            Ok(items) => {
                &&& labels(items@) == labels(fields@)
                &&& took(
                    get_fields(s, base, cur_of(old(cursors)@, objects(*old(regs))), s.kids.len()),
                    named_vals(items@),
                    final(cursors)@,
                    objects(*final(regs)),
                )
            },
            Err(error) => get_fields(s, base, cur_of(old(cursors)@, objects(*old(regs))), s.kids.len())
                == Err::<(Seq<Val>, Cur), Fault>(error@),
        },
    decreases fields, 3nat,
{
    let ghost cur = cur_of(cursors@, objects(*regs));
    let ghost before = cursors@;
    let mut items: Vec<(String, Value)> = Vec::new();
    let mut i: usize = 0;
    proof {
        lemma_named_node_shapes(fields@);
        lemma_named_laid(fields@, s, base);
        assert(named_vals(items@) =~= seq![]);
    }
    while i < fields.len()
        invariant
            i <= fields@.len(),
            before == old(cursors)@,
            cur == cur_of(old(cursors)@, objects(*old(regs))),
            still_readable(before, cursors@, objects(*regs)),
            s.kids == named_node_shapes(fields@),
            s.kids.len() == fields@.len(),
            s.well_formed(),
            forall|j: int|
                0 <= j < fields@.len() ==> #[trigger] named_node_shapes(fields@)[j]
                    == fields@[j].1.shape(),
            forall|j: int|
                0 <= j < fields@.len() ==> (#[trigger] fields@[j]).1.laid(
                    kid_base(s, base, j as nat),
                ),
            base + width_of(s) <= cursors@.len(),
            items@.len() == i,
            forall|j: int| 0 <= j < i ==> (#[trigger] items@[j]).0@ == fields@[j].0@,
            took(get_fields(s, base, cur, i as nat), named_vals(items@), cursors@, objects(*regs)),
        decreases fields@.len() - i,
    {
        proof {
            lemma_kid_columns(s, i as nat);
            assert(s.kids[i as int] == fields@[i as int].1.shape());
            assert(s.kids[i as int].well_formed());
        }
        match read_at(&fields[i].1, cursors, regs, Ghost(kid_base(s, base, i as nat))) {
            Ok(item) => {
                let name = fields[i].0.clone();
                proof {
                    assert(named_vals(items@.push((name, item))) =~= named_vals(items@).push(item@));
                }
                items.push((name, item));
            },
            Err(error) => {
                proof {
                    assert(get_fields(s, base, cur, (i + 1) as nat) is Err);
                    lemma_fields_fault(s, base, cur, (i + 1) as nat, s.kids.len());
                }
                return Err(error);
            },
        }
        i += 1;
    }
    assert(labels(items@) =~= labels(fields@));
    Ok(items)
}

/// Reads the payload of the variant in place `i`.
fn read_variant(
    i: usize,
    variant: &Variant,
    cursors: &mut [ColumnCursor<'_>],
    regs: &mut ReadState<Object>,
    Ghost(s): Ghost<Shape>,
    Ghost(base): Ghost<nat>,
) -> (result: Result<Value>)
    requires
        readable_state(old(cursors)@, objects(*old(regs))),
        i < s.kids.len(),
        s.labels.len() == s.kids.len(),
        s.labels[i as int] == variant.name@,
        s.kids[i as int] == variant.kind.shape(),
        s.kids[i as int].well_formed(),
        variant.kind.laid(kid_base(s, base, i as nat)),
        kid_base(s, base, i as nat) + width_of(s.kids[i as int]) <= old(cursors)@.len(),
    ensures
        still_readable(old(cursors)@, final(cursors)@, objects(*final(regs))),
        ({
            let payload = get_fields(
                s.kids[i as int],
                kid_base(s, base, i as nat),
                cur_of(old(cursors)@, objects(*old(regs))),
                s.kids[i as int].kids.len(),
            );
            match result {
                Ok(value) => {
                    &&& value@.head == variant_head(s, i as nat)
                    &&& took(payload, value@.kids, final(cursors)@, objects(*final(regs)))
                },
                Err(error) => payload == Err::<(Seq<Val>, Cur), Fault>(error@),
            }
        }),
    decreases variant, 4nat,
{
    let ghost k = s.kids[i as int];
    let ghost b = kid_base(s, base, i as nat);
    let ghost cur = cur_of(cursors@, objects(*regs));
    proof {
        variant.kind.lemma_top(b);
    }
    let index: u64 = i as u64;
    match &variant.kind {
        VariantKind::Unit => Ok(Value::UnitVariant { index, variant: variant.name.clone() }),
        VariantKind::Newtype(inner) => {
            proof {
                lemma_one_kid_columns(k);
                lemma_kid_columns(k, 0);
                assert(kid_base(k, b, 0) == b);
                assert(get_fields(k, b, cur, 0) == Ok::<(Seq<Val>, Cur), Fault>((seq![], cur)));
            }
            match read_at(inner, cursors, regs, Ghost(b)) {
                Ok(item) => {
                    assert(Seq::<Val>::empty().push(item@) =~= seq![item@]);
                    Ok(
                        Value::NewtypeVariant {
                            index,
                            variant: variant.name.clone(),
                            inner: Box::new(item),
                        },
                    )
                },
                Err(error) => Err(error),
            }
        },
        VariantKind::Tuple(fields) => match read_fields(fields, cursors, regs, Ghost(k), Ghost(b)) {
            Ok(items) => Ok(
                Value::TupleVariant { index, variant: variant.name.clone(), fields: items },
            ),
            Err(error) => Err(error),
        },
        VariantKind::Struct(fields) => match read_named(fields, cursors, regs, Ghost(k), Ghost(b)) {
            Ok(items) => Ok(
                Value::StructVariant { index, variant: variant.name.clone(), fields: items },
            ),
            Err(error) => Err(error),
        },
    }
}

/// Reads a shared object: its key, and the object where it is new.
fn read_shared(
    key: ColId,
    inner: &Node,
    cursors: &mut [ColumnCursor<'_>],
    regs: &mut ReadState<Object>,
    Ghost(s): Ghost<Shape>,
) -> (result: Result<Value>)
    requires
        readable_state(old(cursors)@, objects(*old(regs))),
        s.kind == Kind::Shared,
        s.kids == seq![inner.shape()],
        inner.laid(key as nat + 1),
        inner.shape().well_formed(),
        key + 1 + width_of(inner.shape()) <= old(cursors)@.len(),
    ensures
        still_readable(old(cursors)@, final(cursors)@, objects(*final(regs))),
        match result {
            Ok(value) => took(
                get(s, key as nat, cur_of(old(cursors)@, objects(*old(regs)))),
                value@,
                final(cursors)@,
                objects(*final(regs)),
            ),
            Err(error) => get(s, key as nat, cur_of(old(cursors)@, objects(*old(regs)))) == Err::<
                (Val, Cur),
                Fault,
            >(error@),
        },
    decreases inner, 3nat,
{
    let ghost cur = cur_of(cursors@, objects(*regs));
    let ghost before = cursors@;
    let k = match read_varint(cursors, key, Ghost(objects(*regs))) {
        Ok(k) => k,
        Err(error) => return Err(error),
    };
    let ghost next = cur_of(cursors@, objects(*regs));
    match regs.read_slot(key, k) {
        Ok(ReadSlot::Repeat(object)) => {
            assert(cur_of(cursors@, objects(*regs)) == next);
            Ok(Value::Shared { id: k, inner: object.inner })
        },
        Ok(ReadSlot::New(index)) => {
            proof {
                let reserved = cur_of(cursors@, objects(*regs));
                assert(reserved.regs =~= next.reserve(key as nat).regs) by {
                    assert(kept(regs@[key as int]) =~= next.regs[key as int].push(None));
                }
                assert(reserved == next.reserve(key as nat));
            }
            match read_at(inner, cursors, regs, Ghost(key as nat + 1)) {
                Ok(item) => {
                    let object = Object { inner: Rc::new(item) };
                    let copy = object.clone();
                    let ghost end = cur_of(cursors@, objects(*regs));
                    proof {
                        lemma_get_within(inner.shape(), key as nat + 1, next.reserve(key as nat));
                    }
                    regs.fulfill(key, index, copy);
                    proof {
                        let done = cur_of(cursors@, objects(*regs));
                        let wanted = end.fulfill(key as nat, index as nat, item@);
                        assert(kept(regs@[key as int]) =~= end.regs[key as int].update(
                            index as int,
                            Some(item@),
                        ));
                        assert(done.regs =~= wanted.regs);
                        assert(done == wanted);
                    }
                    Ok(Value::Shared { id: k, inner: object.inner })
                },
                Err(error) => Err(error),
            }
        },
        Err(error) => {
            assert(cur_of(cursors@, objects(*regs)) == next);
            Err(error)
        },
    }
}

} // verus!
