//! Columnar serialization: walks the schema in lockstep with the value and
//! routes every leaf into its column buffer.

use vstd::prelude::*;

use crate::blob::bytes_of;
use crate::error::{Error, Fault, Result};
use crate::node::{
    fields_laid, lemma_fields_laid, lemma_named_laid, lemma_named_node_shapes, lemma_node_shapes,
    lemma_variant_kind_shapes, lemma_variants_laid, named_laid, named_node_shapes, node_shapes,
    variant_kind_shapes, variant_names, variants_laid, ColId, Node, Variant, VariantKind,
};
use crate::put::{
    find_variant, first_named, grows, lemma_append, lemma_entries_fault, lemma_fields_fault,
    lemma_grows_twice, lemma_items_fault, lemma_named_fault, lemma_record, mismatch, put,
    put_all_named, put_entries, put_fields, put_items, put_named, wrong_variant, Row,
};
use crate::schema::labels;
use crate::shape::{
    kid_base, lemma_kid_columns, lemma_one_kid_columns, lemma_two_kids_columns, Shape, width_of,
};
use crate::shared::{WriteKey, WriteState};
use crate::text;
use crate::value::{entry_vals, found, named_vals, vals, Head, Scalar, Val, Value};
use crate::varint;

verus! {

/// The row that columns and dictionaries stand for.
pub open spec fn row_of(columns: Seq<Vec<u8>>, state: WriteState) -> Row {
    Row { cols: bytes_of(columns), book: state@ }
}

/// The columns and dictionaries belong together.
pub open spec fn writable(columns: Seq<Vec<u8>>, state: WriteState) -> bool {
    state.well_formed() && state@.len() == columns.len()
}

/// What a step of serialization says of its outcome: the row becomes what the
/// specification says, or the error is the one that it says, and either way
/// nothing that was written before is lost.
pub open spec fn wrote(
    result: Result<()>,
    expected: std::result::Result<Row, Fault>,
    before: Row,
    columns: Seq<Vec<u8>>,
    state: WriteState,
) -> bool {
    &&& writable(columns, state)
    &&& grows(before, row_of(columns, state))
    &&& match result {
        Ok(_) => expected == Ok::<Row, Fault>(row_of(columns, state)),
        Err(error) => expected == Err::<Row, Fault>(error@),
    }
}

/// Appends bytes to one column.
fn push_bytes(columns: &mut Vec<Vec<u8>>, col: ColId, bytes: &[u8], Ghost(state): Ghost<WriteState>)
    requires
        col < old(columns)@.len(),
        writable(old(columns)@, state),
    ensures
        row_of(final(columns)@, state) == row_of(old(columns)@, state).append(col as nat, bytes@),
        writable(final(columns)@, state),
        grows(row_of(old(columns)@, state), row_of(final(columns)@, state)),
{
    let ghost before = row_of(columns@, state);
    columns[col].extend_from_slice(bytes);
    assert(columns@[col as int]@ =~= before.cols[col as int] + bytes@);
    assert(row_of(columns@, state).cols =~= before.append(col as nat, bytes@).cols);
    proof {
        lemma_append(before, col as nat, bytes@, col as nat, 1);
    }
}

/// Appends one byte to one column.
fn push_byte(columns: &mut Vec<Vec<u8>>, col: ColId, byte: u8, Ghost(state): Ghost<WriteState>)
    requires
        col < old(columns)@.len(),
        writable(old(columns)@, state),
    ensures
        row_of(final(columns)@, state) == row_of(old(columns)@, state).append(
            col as nat,
            seq![byte],
        ),
        writable(final(columns)@, state),
        grows(row_of(old(columns)@, state), row_of(final(columns)@, state)),
{
    let ghost before = row_of(columns@, state);
    columns[col].push(byte);
    assert(columns@[col as int]@ =~= before.cols[col as int] + seq![byte]);
    assert(row_of(columns@, state).cols =~= before.append(col as nat, seq![byte]).cols);
    proof {
        lemma_append(before, col as nat, seq![byte], col as nat, 1);
    }
}

/// Appends a varint to one column.
fn push_varint(columns: &mut Vec<Vec<u8>>, col: ColId, value: u64, Ghost(state): Ghost<WriteState>)
    requires
        col < old(columns)@.len(),
        writable(old(columns)@, state),
    ensures
        row_of(final(columns)@, state) == row_of(old(columns)@, state).append(
            col as nat,
            varint::encoded(value as nat),
        ),
        writable(final(columns)@, state),
        grows(row_of(old(columns)@, state), row_of(final(columns)@, state)),
{
    let ghost before = row_of(columns@, state);
    varint::write(&mut columns[col], value);
    assert(row_of(columns@, state).cols =~= before.append(
        col as nat,
        varint::encoded(value as nat),
    ).cols);
    proof {
        lemma_append(before, col as nat, varint::encoded(value as nat), col as nat, 1);
    }
}

/// Appends a scalar to one column.
fn push_scalar(columns: &mut Vec<Vec<u8>>, col: ColId, x: &Scalar, Ghost(state): Ghost<WriteState>)
    requires
        col < old(columns)@.len(),
        writable(old(columns)@, state),
    ensures
        row_of(final(columns)@, state) == row_of(old(columns)@, state).append(
            col as nat,
            crate::value::scalar_bytes(*x),
        ),
        writable(final(columns)@, state),
        grows(row_of(old(columns)@, state), row_of(final(columns)@, state)),
{
    let ghost before = row_of(columns@, state);
    let ghost bytes = crate::value::scalar_bytes(*x);
    x.write(&mut columns[col]);
    assert(row_of(columns@, state).cols =~= before.append(col as nat, bytes).cols);
    proof {
        lemma_append(before, col as nat, bytes, col as nat, 1);
    }
}

/// The report of a value that does not match the schema.
fn mismatched(value: &Value, node: &Node) -> (result: Error)
    ensures
        result@ == mismatch(value@, node.shape()),
{
    Error::SchemaMismatch { expected: node.describe(), found: value.describe() }
}

proof fn lemma_grows_self(row: Row)
    ensures
        grows(row, row),
{
}

/// Looks an enum variant up by name, with its index as a first guess.
fn find(variants: &Vec<Variant>, index: u64, name: &String) -> (result: Option<usize>)
    ensures
        match result {
            Some(i) => find_variant(variant_names(variants@), index, name@) == Some(i as nat),
            None => find_variant(variant_names(variants@), index, name@) is None,
        },
        result matches Some(i) ==> i < variants@.len(),
{
    let ghost names = variant_names(variants@);
    if index < variants.len() as u64 && variants[index as usize].name == *name {
        return Some(index as usize);
    }
    let mut i: usize = 0;
    while i < variants.len()
        invariant
            i <= variants@.len(),
            names == variant_names(variants@),
            !(index < names.len() && names[index as int] == name@),
            first_named(names, name@, 0) == first_named(names, name@, i as nat),
        decreases variants@.len() - i,
    {
        if variants[i].name == *name {
            return Some(i);
        }
        i += 1;
    }
    None
}

/// Serializes one value position.
pub(crate) fn serialize_at(
    value: &Value,
    node: &Node,
    columns: &mut Vec<Vec<u8>>,
    state: &mut WriteState,
    Ghost(base): Ghost<nat>,
) -> (result: Result<()>)
    requires
        writable(old(columns)@, *old(state)),
        node.laid(base),
        node.shape().well_formed(),
        base + width_of(node.shape()) <= old(columns)@.len(),
    ensures
        final(columns)@.len() == old(columns)@.len(),
        wrote(
            result,
            put(value@, node.shape(), base, row_of(old(columns)@, *old(state))),
            row_of(old(columns)@, *old(state)),
            final(columns)@,
            *final(state),
        ),
    decreases value, 3nat,
{
    let ghost row = row_of(columns@, *state);
    let ghost v = value@;
    let ghost s = node.shape();
    proof {
        node.lemma_top(base);
        lemma_grows_self(row);
    }
    match node {
        Node::Primitive(p, col) => match value {
            Value::Scalar(x) => {
                if x.primitive() == *p {
                    push_scalar(columns, *col, x, Ghost(*state));
                    Ok(())
                } else {
                    Err(mismatched(value, node))
                }
            },
            _ => Err(mismatched(value, node)),
        },
        Node::Str { bytes, len, data } => serialize_bytes(
            value,
            node,
            *bytes,
            *len,
            *data,
            columns,
            state,
            Ghost(base),
        ),
        Node::Unit { name: None } => match value {
            Value::Unit => Ok(()),
            _ => Err(mismatched(value, node)),
        },
        Node::Unit { name: Some(name) } => match value {
            Value::UnitStruct { name: other } => {
                if *other == *name {
                    Ok(())
                } else {
                    Err(mismatched(value, node))
                }
            },
            _ => Err(mismatched(value, node)),
        },
        Node::Newtype { name, inner } => match value {
            Value::NewtypeStruct { name: other, inner: item } => {
                if *other == *name {
                    proof {
                        lemma_one_kid_columns(s);
                    }
                    serialize_at(item, inner, columns, state, Ghost(base))
                } else {
                    Err(mismatched(value, node))
                }
            },
            _ => Err(mismatched(value, node)),
        },
        Node::Option { tag, inner } => {
            proof {
                lemma_one_kid_columns(s);
            }
            match value {
                Value::Absent => {
                    push_byte(columns, *tag, 0, Ghost(*state));
                    Ok(())
                },
                Value::Present(item) => {
                    push_byte(columns, *tag, 1, Ghost(*state));
                    let ghost tagged = row_of(columns@, *state);
                    let result = serialize_at(item, inner, columns, state, Ghost(base + 1));
                    proof {
                        lemma_grows_twice(row, tagged, row_of(columns@, *state));
                    }
                    result
                },
                _ => Err(mismatched(value, node)),
            }
        },
        Node::Sequence { len, elem, .. } => match value {
            Value::Sequence(items) => {
                let result = serialize_items(items, elem, columns, state, Ghost(v), Ghost(s), Ghost(base));
                match result {
                    Ok(_) => {
                        let ghost after = row_of(columns@, *state);
                        push_varint(columns, *len, items.len() as u64, Ghost(*state));
                        proof {
                            lemma_grows_twice(row, after, row_of(columns@, *state));
                        }
                        Ok(())
                    },
                    Err(error) => Err(error),
                }
            },
            _ => Err(mismatched(value, node)),
        },
        Node::Mapping { len, key, value: held, .. } => match value {
            Value::Mapping(entries) => {
                let result = serialize_entries(
                    entries,
                    key,
                    held,
                    columns,
                    state,
                    Ghost(v),
                    Ghost(s),
                    Ghost(base),
                );
                match result {
                    Ok(_) => {
                        let ghost after = row_of(columns@, *state);
                        push_varint(columns, *len, entries.len() as u64, Ghost(*state));
                        proof {
                            lemma_grows_twice(row, after, row_of(columns@, *state));
                        }
                        Ok(())
                    },
                    Err(error) => Err(error),
                }
            },
            _ => Err(mismatched(value, node)),
        },
        Node::Tuple { name: None, fields } => match value {
            Value::Tuple(items) => {
                if items.len() == fields.len() {
                    serialize_fields(items, fields, columns, state, Ghost(v), Ghost(s), Ghost(base))
                } else {
                    proof {
                        assert(v.kids == vals(items@));
                        lemma_node_shapes(fields@);
                    }
                    Err(mismatched(value, node))
                }
            },
            _ => Err(mismatched(value, node)),
        },
        Node::Tuple { name: Some(name), fields } => match value {
            Value::TupleStruct { name: other, fields: items } => {
                if *other == *name && items.len() == fields.len() {
                    serialize_fields(items, fields, columns, state, Ghost(v), Ghost(s), Ghost(base))
                } else {
                    proof {
                        assert(v.kids == vals(items@));
                        lemma_node_shapes(fields@);
                    }
                    Err(mismatched(value, node))
                }
            },
            _ => Err(mismatched(value, node)),
        },
        Node::Struct { name, fields } => match value {
            Value::Struct { name: other, fields: items } => {
                if *other == *name {
                    proof {
                        assert(v.head == Head::Struct(other@, labels(items@)));
                    }
                    serialize_named(items, fields, columns, state, Ghost(v), Ghost(s), Ghost(base))
                } else {
                    Err(mismatched(value, node))
                }
            },
            _ => Err(mismatched(value, node)),
        },
        Node::Enum { tag, variants, .. } => serialize_enum(
            value,
            node,
            *tag,
            variants,
            columns,
            state,
            Ghost(base),
        ),
        Node::Shared { key, inner } => match value {
            Value::Shared { id, inner: item } => {
                proof {
                    lemma_one_kid_columns(s);
                }
                let ghost before = *state;
                match state.write_key(*key, *id) {
                    WriteKey::Existing(k) => {
                        assert(row_of(columns@, *state) == row);
                        push_varint(columns, *key, k, Ghost(*state));
                        Ok(())
                    },
                    WriteKey::New(k) => {
                        let ghost recorded = row_of(columns@, *state);
                        proof {
                            lemma_record(row, *key as nat, *id, *key as nat, 1);
                            assert(recorded == row.record(*key as nat, *id));
                        }
                        push_varint(columns, *key, k, Ghost(*state));
                        let ghost coded = row_of(columns@, *state);
                        proof {
                            assert(coded == row.append(base, varint::encoded(k as nat)).record(
                                base,
                                *id,
                            ));
                            lemma_grows_twice(row, recorded, coded);
                        }
                        let result = serialize_at(&**item, inner, columns, state, Ghost(base + 1));
                        proof {
                            lemma_grows_twice(row, coded, row_of(columns@, *state));
                        }
                        result
                    },
                }
            },
            _ => Err(mismatched(value, node)),
        },
    }
}

/// Serializes a string or a byte array.
fn serialize_bytes(
    value: &Value,
    node: &Node,
    bytes: bool,
    len: ColId,
    data: ColId,
    columns: &mut Vec<Vec<u8>>,
    state: &mut WriteState,
    Ghost(base): Ghost<nat>,
) -> (result: Result<()>)
    requires
        writable(old(columns)@, *old(state)),
        *node == (Node::Str { bytes, len, data }),
        len == base,
        data == base + 1,
        base + 2 <= old(columns)@.len(),
    ensures
        final(columns)@.len() == old(columns)@.len(),
        wrote(
            result,
            put(value@, node.shape(), base, row_of(old(columns)@, *old(state))),
            row_of(old(columns)@, *old(state)),
            final(columns)@,
            *final(state),
        ),
{
    let ghost row = row_of(columns@, *state);
    proof {
        node.lemma_top(base);
        lemma_grows_self(row);
    }
    match value {
        Value::Str(text) => {
            if bytes {
                return Err(mismatched(value, node));
            }
            let raw = text.as_str().as_bytes();
            push_varint(columns, len, raw.len() as u64, Ghost(*state));
            let ghost mid = row_of(columns@, *state);
            push_bytes(columns, data, raw, Ghost(*state));
            proof {
                lemma_grows_twice(row, mid, row_of(columns@, *state));
            }
            Ok(())
        },
        Value::Bytes(raw) => {
            if !bytes {
                return Err(mismatched(value, node));
            }
            push_varint(columns, len, raw.len() as u64, Ghost(*state));
            let ghost mid = row_of(columns@, *state);
            push_bytes(columns, data, raw.as_slice(), Ghost(*state));
            proof {
                lemma_grows_twice(row, mid, row_of(columns@, *state));
            }
            Ok(())
        },
        _ => Err(mismatched(value, node)),
    }
}

/// Serializes the elements of a sequence.
fn serialize_items(
    items: &Vec<Value>,
    elem: &Node,
    columns: &mut Vec<Vec<u8>>,
    state: &mut WriteState,
    Ghost(v): Ghost<Val>,
    Ghost(s): Ghost<Shape>,
    Ghost(base): Ghost<nat>,
) -> (result: Result<()>)
    requires
        writable(old(columns)@, *old(state)),
        v.kids == vals(items@),
        s.well_formed(),
        s.kids == seq![elem.shape()],
        s.kind is Sequence,
        elem.laid(base + 1),
        base + width_of(s) <= old(columns)@.len(),
    ensures
        v.kids.len() == items@.len(),
        final(columns)@.len() == old(columns)@.len(),
        wrote(
            result,
            put_items(v, s, base, row_of(old(columns)@, *old(state)), v.kids.len()),
            row_of(old(columns)@, *old(state)),
            final(columns)@,
            *final(state),
        ),
    decreases items@, 2nat,
{
    let ghost row = row_of(columns@, *state);
    let mut i: usize = 0;
    proof {
        lemma_grows_self(row);
        lemma_one_kid_columns(s);
        assert(s.kids[0].well_formed());
    }
    while i < items.len()
        invariant
            i <= items@.len(),
            v.kids == vals(items@),
            s.kids.len() == 1,
            s.kids[0] == elem.shape(),
            elem.shape().well_formed(),
            elem.laid(base + 1),
            base + 1 + width_of(elem.shape()) <= columns@.len(),
            columns@.len() == old(columns)@.len(),
            row == row_of(old(columns)@, *old(state)),
            writable(columns@, *state),
            grows(row, row_of(columns@, *state)),
            put_items(v, s, base, row, i as nat) == Ok::<Row, Fault>(row_of(columns@, *state)),
        decreases items@.len() - i,
    {
        let ghost before = row_of(columns@, *state);
        proof {
            if put_items(v, s, base, row, (i + 1) as nat) is Err {
                lemma_items_fault(v, s, base, row, (i + 1) as nat, v.kids.len());
            }
        }
        let result = serialize_at(&items[i], elem, columns, state, Ghost(base + 1));
        proof {
            lemma_grows_twice(row, before, row_of(columns@, *state));
        }
        if let Err(error) = result {
            return Err(error);
        }
        i += 1;
    }
    Ok(())
}

/// Serializes the entries of a mapping.
fn serialize_entries(
    entries: &Vec<(Value, Value)>,
    key: &Node,
    held: &Node,
    columns: &mut Vec<Vec<u8>>,
    state: &mut WriteState,
    Ghost(v): Ghost<Val>,
    Ghost(s): Ghost<Shape>,
    Ghost(base): Ghost<nat>,
) -> (result: Result<()>)
    requires
        writable(old(columns)@, *old(state)),
        v.kids == entry_vals(entries@),
        s.well_formed(),
        s.kids == seq![key.shape(), held.shape()],
        s.kind is Mapping,
        key.laid(base + 1),
        held.laid(base + 1 + width_of(key.shape())),
        base + width_of(s) <= old(columns)@.len(),
    ensures
        v.kids.len() == entries@.len(),
        final(columns)@.len() == old(columns)@.len(),
        wrote(
            result,
            put_entries(v, s, base, row_of(old(columns)@, *old(state)), v.kids.len()),
            row_of(old(columns)@, *old(state)),
            final(columns)@,
            *final(state),
        ),
    decreases entries@, 2nat,
{
    let ghost row = row_of(columns@, *state);
    let mut i: usize = 0;
    proof {
        lemma_grows_self(row);
        lemma_two_kids_columns(s);
        assert(s.kids[0].well_formed());
        assert(s.kids[1].well_formed());
    }
    while i < entries.len()
        invariant
            i <= entries@.len(),
            v.kids == entry_vals(entries@),
            s.kids.len() == 2,
            s.kids[0] == key.shape(),
            s.kids[1] == held.shape(),
            key.shape().well_formed(),
            held.shape().well_formed(),
            key.laid(base + 1),
            held.laid(base + 1 + width_of(key.shape())),
            base + 1 + width_of(key.shape()) + width_of(held.shape()) <= columns@.len(),
            columns@.len() == old(columns)@.len(),
            row == row_of(old(columns)@, *old(state)),
            writable(columns@, *state),
            grows(row, row_of(columns@, *state)),
            put_entries(v, s, base, row, i as nat) == Ok::<Row, Fault>(row_of(columns@, *state)),
        decreases entries@.len() - i,
    {
        let ghost before = row_of(columns@, *state);
        proof {
            if put_entries(v, s, base, row, (i + 1) as nat) is Err {
                lemma_entries_fault(v, s, base, row, (i + 1) as nat, v.kids.len());
            }
            assert(v.kids[i as int] == crate::value::entry(
                entries@[i as int].0@,
                entries@[i as int].1@,
            ));
        }
        let result = serialize_at(&entries[i].0, key, columns, state, Ghost(base + 1));
        let ghost mid = row_of(columns@, *state);
        proof {
            lemma_grows_twice(row, before, mid);
        }
        if let Err(error) = result {
            return Err(error);
        }
        let result = serialize_at(
            &entries[i].1,
            held,
            columns,
            state,
            Ghost(base + 1 + width_of(key.shape())),
        );
        proof {
            lemma_grows_twice(row, mid, row_of(columns@, *state));
        }
        if let Err(error) = result {
            return Err(error);
        }
        i += 1;
    }
    Ok(())
}

/// Serializes positional fields: tuples, tuple structs, and tuple variants.
fn serialize_fields(
    items: &Vec<Value>,
    fields: &Vec<Node>,
    columns: &mut Vec<Vec<u8>>,
    state: &mut WriteState,
    Ghost(v): Ghost<Val>,
    Ghost(s): Ghost<Shape>,
    Ghost(base): Ghost<nat>,
) -> (result: Result<()>)
    requires
        writable(old(columns)@, *old(state)),
        v.kids == vals(items@),
        s.well_formed(),
        s.kids == node_shapes(fields@),
        items@.len() == fields@.len(),
        fields_laid(fields@, s, base),
        base + width_of(s) <= old(columns)@.len(),
    ensures
        v.kids.len() == items@.len(),
        s.kids.len() == fields@.len(),
        final(columns)@.len() == old(columns)@.len(),
        wrote(
            result,
            put_fields(v, s, base, row_of(old(columns)@, *old(state)), v.kids.len()),
            row_of(old(columns)@, *old(state)),
            final(columns)@,
            *final(state),
        ),
    decreases items@, 2nat,
{
    let ghost row = row_of(columns@, *state);
    let mut i: usize = 0;
    proof {
        lemma_node_shapes(fields@);
        lemma_fields_laid(fields@, s, base);
        lemma_grows_self(row);
    }
    while i < items.len()
        invariant
            i <= items@.len(),
            v.kids == vals(items@),
            s.well_formed(),
            s.kids == node_shapes(fields@),
            items@.len() == fields@.len(),
            s.kids.len() == fields@.len(),
            fields_laid(fields@, s, base),
            base + width_of(s) <= columns@.len(),
            columns@.len() == old(columns)@.len(),
            row == row_of(old(columns)@, *old(state)),
            writable(columns@, *state),
            grows(row, row_of(columns@, *state)),
            put_fields(v, s, base, row, i as nat) == Ok::<Row, Fault>(row_of(columns@, *state)),
        decreases items@.len() - i,
    {
        let ghost before = row_of(columns@, *state);
        proof {
            lemma_node_shapes(fields@);
            lemma_fields_laid(fields@, s, base);
            lemma_kid_columns(s, i as nat);
            assert(s.kids[i as int].well_formed());
            assert(s.kids[i as int] == fields@[i as int].shape());
            assert(fields@[i as int].laid(kid_base(s, base, i as nat)));
            assert(v.kids[i as int] == items@[i as int]@);
            if put_fields(v, s, base, row, (i + 1) as nat) is Err {
                lemma_fields_fault(v, s, base, row, (i + 1) as nat, v.kids.len());
            }
        }
        let result = serialize_at(
            &items[i],
            &fields[i],
            columns,
            state,
            Ghost(kid_base(s, base, i as nat)),
        );
        proof {
            lemma_grows_twice(row, before, row_of(columns@, *state));
        }
        if let Err(error) = result {
            return Err(error);
        }
        i += 1;
    }
    Ok(())
}

/// Serializes named fields: structs and struct variants. Field order must
/// match the schema.
fn serialize_named(
    items: &Vec<(String, Value)>,
    fields: &Vec<(String, Node)>,
    columns: &mut Vec<Vec<u8>>,
    state: &mut WriteState,
    Ghost(v): Ghost<Val>,
    Ghost(s): Ghost<Shape>,
    Ghost(base): Ghost<nat>,
) -> (result: Result<()>)
    requires
        writable(old(columns)@, *old(state)),
        v.kids == named_vals(items@),
        s.well_formed(),
        s.kids == named_node_shapes(fields@),
        s.labels == labels(fields@),
        named_laid(fields@, s, base),
        base + width_of(s) <= old(columns)@.len(),
    ensures
        v.kids.len() == items@.len(),
        s.kids.len() == fields@.len(),
        final(columns)@.len() == old(columns)@.len(),
        wrote(
            result,
            put_all_named(v, labels(items@), s, base, row_of(old(columns)@, *old(state))),
            row_of(old(columns)@, *old(state)),
            final(columns)@,
            *final(state),
        ),
    decreases items@, 2nat,
{
    match serialize_in_order(items, fields, columns, state, Ghost(v), Ghost(s), Ghost(base)) {
        Ok(_) => {
            if items.len() != fields.len() {
                return Err(Error::IncompleteRow);
            }
            Ok(())
        },
        Err(error) => Err(error),
    }
}

/// Serializes named fields in the order of the schema.
#[verifier::rlimit(40)]
fn serialize_in_order(
    items: &Vec<(String, Value)>,
    fields: &Vec<(String, Node)>,
    columns: &mut Vec<Vec<u8>>,
    state: &mut WriteState,
    Ghost(v): Ghost<Val>,
    Ghost(s): Ghost<Shape>,
    Ghost(base): Ghost<nat>,
) -> (result: Result<()>)
    requires
        writable(old(columns)@, *old(state)),
        v.kids == named_vals(items@),
        s.well_formed(),
        s.kids == named_node_shapes(fields@),
        s.labels == labels(fields@),
        named_laid(fields@, s, base),
        base + width_of(s) <= old(columns)@.len(),
    ensures
        v.kids.len() == items@.len(),
        s.kids.len() == fields@.len(),
        final(columns)@.len() == old(columns)@.len(),
        wrote(
            result,
            put_named(
                v,
                labels(items@),
                s,
                base,
                row_of(old(columns)@, *old(state)),
                v.kids.len(),
            ),
            row_of(old(columns)@, *old(state)),
            final(columns)@,
            *final(state),
        ),
    decreases items@, 1nat,
{
    let ghost row = row_of(columns@, *state);
    let ghost keys = labels(items@);
    let mut i: usize = 0;
    proof {
        lemma_named_node_shapes(fields@);
        lemma_named_laid(fields@, s, base);
        lemma_grows_self(row);
    }
    while i < items.len()
        invariant
            i <= items@.len(),
            i <= fields@.len(),
            keys == labels(items@),
            v.kids == named_vals(items@),
            s.well_formed(),
            s.kids == named_node_shapes(fields@),
            s.labels == labels(fields@),
            s.kids.len() == fields@.len(),
            named_laid(fields@, s, base),
            base + width_of(s) <= columns@.len(),
            columns@.len() == old(columns)@.len(),
            row == row_of(old(columns)@, *old(state)),
            writable(columns@, *state),
            grows(row, row_of(columns@, *state)),
            put_named(v, keys, s, base, row, i as nat) == Ok::<Row, Fault>(
                row_of(columns@, *state),
            ),
        decreases items@.len() - i,
    {
        let ghost before = row_of(columns@, *state);
        proof {
            if put_named(v, keys, s, base, row, (i + 1) as nat) is Err {
                lemma_named_fault(v, keys, s, base, row, (i + 1) as nat, v.kids.len());
            }
        }
        if i >= fields.len() {
            return Err(
                Error::SchemaMismatch {
                    expected: "end of struct".to_owned(),
                    found: text::join("field `", items[i].0.as_str(), "`"),
                },
            );
        }
        if fields[i].0 != items[i].0 {
            return Err(
                Error::SchemaMismatch {
                    expected: text::join("field `", fields[i].0.as_str(), "`"),
                    found: text::join("field `", items[i].0.as_str(), "`"),
                },
            );
        }
        proof {
            lemma_named_node_shapes(fields@);
            lemma_named_laid(fields@, s, base);
            lemma_kid_columns(s, i as nat);
            assert(s.kids[i as int].well_formed());
            assert(s.kids[i as int] == fields@[i as int].1.shape());
            assert(fields@[i as int].1.laid(kid_base(s, base, i as nat)));
            assert(v.kids[i as int] == items@[i as int].1@);
        }
        let result = serialize_at(
            &items[i].1,
            &fields[i].1,
            columns,
            state,
            Ghost(kid_base(s, base, i as nat)),
        );
        proof {
            lemma_grows_twice(row, before, row_of(columns@, *state));
        }
        if let Err(error) = result {
            return Err(error);
        }
        i += 1;
    }
    Ok(())
}

/// Serializes a value of an enum: the tag of its variant, then its payload.
fn serialize_enum(
    value: &Value,
    node: &Node,
    tag: ColId,
    variants: &Vec<Variant>,
    columns: &mut Vec<Vec<u8>>,
    state: &mut WriteState,
    Ghost(base): Ghost<nat>,
) -> (result: Result<()>)
    requires
        writable(old(columns)@, *old(state)),
        node.laid(base),
        node.shape().well_formed(),
        node.shape().kind is Enum,
        node.shape().kids == variant_kind_shapes(variants@),
        node.shape().labels == variant_names(variants@),
        variants_laid(variants@, node.shape(), base),
        tag == base,
        base + width_of(node.shape()) <= old(columns)@.len(),
    ensures
        final(columns)@.len() == old(columns)@.len(),
        wrote(
            result,
            put(value@, node.shape(), base, row_of(old(columns)@, *old(state))),
            row_of(old(columns)@, *old(state)),
            final(columns)@,
            *final(state),
        ),
    decreases value, 2nat,
{
    let ghost row = row_of(columns@, *state);
    let ghost v = value@;
    let ghost s = node.shape();
    proof {
        lemma_grows_self(row);
    }
    let (index, name) = match value {
        Value::UnitVariant { index, variant } => (*index, variant),
        Value::NewtypeVariant { index, variant, .. } => (*index, variant),
        Value::TupleVariant { index, variant, .. } => (*index, variant),
        Value::StructVariant { index, variant, .. } => (*index, variant),
        _ => return Err(mismatched(value, node)),
    };
    let place: usize = match find(variants, index, name) {
        Some(place) => place,
        None => return Err(mismatched(value, node)),
    };
    push_varint(columns, tag, place as u64, Ghost(*state));
    let ghost tagged = row_of(columns@, *state);
    let ghost vs = s.kids[place as int];
    let ghost vb = kid_base(s, base, place as nat);
    let kind = &variants[place].kind;
    proof {
        lemma_variant_kind_shapes(variants@);
        lemma_variants_laid(variants@, s, base);
        kind.lemma_top(vb);
        assert(vs == kind.shape());
        assert(vs.well_formed());
        lemma_kid_columns(s, place as nat);
        assert(kind.laid(vb));
    }
    let result = match value {
        Value::UnitVariant { .. } => match kind {
            VariantKind::Unit => Ok(()),
            _ => Err(
                Error::SchemaMismatch {
                    expected: text::join("payload for variant `", name.as_str(), "`"),
                    found: "unit variant".to_owned(),
                },
            ),
        },
        Value::NewtypeVariant { inner: item, .. } => match kind {
            VariantKind::Newtype(inner) => {
                proof {
                    lemma_one_kid_columns(vs);
                }
                serialize_at(item, inner, columns, state, Ghost(vb))
            },
            _ => Err(wrong_shape(name, "newtype variant".to_owned())),
        },
        Value::TupleVariant { fields: items, .. } => match kind {
            VariantKind::Tuple(fields) => {
                if items.len() == fields.len() {
                    serialize_fields(items, fields, columns, state, Ghost(v), Ghost(vs), Ghost(vb))
                } else {
                    proof {
                        assert(v.kids == vals(items@));
                        lemma_node_shapes(fields@);
                    }
                    Err(wrong_shape(name, tuple_variant(items.len())))
                }
            },
            _ => {
                proof {
                    assert(v.kids == vals(items@));
                }
                Err(wrong_shape(name, tuple_variant(items.len())))
            },
        },
        Value::StructVariant { fields: items, .. } => match kind {
            VariantKind::Struct(fields) => serialize_named(
                items,
                fields,
                columns,
                state,
                Ghost(v),
                Ghost(vs),
                Ghost(vb),
            ),
            _ => Err(wrong_shape(name, "struct variant".to_owned())),
        },
        _ => Ok(()),
    };
    proof {
        lemma_grows_self(tagged);
        lemma_grows_twice(row, tagged, row_of(columns@, *state));
    }
    result
}

/// The report of a variant whose payload has another form in the schema.
fn wrong_shape(name: &String, form: String) -> (result: Error)
    ensures
        result@ == wrong_variant(name@, form@),
{
    Error::SchemaMismatch {
        expected: text::join("shape of variant `", name.as_str(), "`"),
        found: form,
    }
}

/// What a tuple variant calls itself.
fn tuple_variant(len: usize) -> (result: String)
    ensures
        result@ == text::decimal(len as nat) + "-tuple variant"@,
{
    let result = text::join("", text::to_decimal(len as u64).as_str(), "-tuple variant");
    proof {
        reveal_strlit("");
    }
    assert(result@ =~= text::decimal(len as nat) + "-tuple variant"@);
    result
}

} // verus!
