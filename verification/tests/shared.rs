//! Shared-structure preservation: shared objects are written once per row.

use std::rc::Rc;

use carbonite::shared::{ReadSlot, ReadState, WriteKey, WriteState};
use carbonite::value::{Scalar, Value};
use carbonite::{Deserializer, Error, Primitive, Schema, SchemaNode, Serializer};

fn shared(id: u64, inner: Value) -> Value {
    Value::Shared {
        id,
        inner: Rc::new(inner),
    }
}

fn byte(x: u8) -> Value {
    Value::Scalar(Scalar::U8(x))
}

fn list_of_shared_bytes() -> Schema<u8> {
    Schema::from_node(SchemaNode::Sequence(Box::new(SchemaNode::Shared(Box::new(
        SchemaNode::Primitive(Primitive::U8),
    )))))
}

#[test]
fn golden_layout_of_a_shared_column() {
    // Both elements point at one object:
    // columns = [seq len][shared key][u8 dictionary].
    let schema = list_of_shared_bytes();
    let value = Value::Sequence(vec![shared(0x7f00, byte(7)), shared(0x7f00, byte(7))]);
    let blob = Serializer::new(&schema).to_vec(&value).unwrap();

    let expected: Vec<u8> = vec![
        1, // row count
        3, // column count
        1, 2, 1, // column byte lengths
        2, // sequence length
        0, 0, // keys: new(0), repeat(0)
        7, // dictionary: the single unique u8
    ];
    assert_eq!(blob, expected);

    let Value::Sequence(back) = Deserializer::<u8>::new_untraced(schema)
        .from_slice(&blob)
        .unwrap()
    else {
        panic!("expected a sequence");
    };
    let (Value::Shared { inner: a, .. }, Value::Shared { inner: b, .. }) = (&back[0], &back[1])
    else {
        panic!("expected shared values");
    };
    assert!(Rc::ptr_eq(a, b));
    assert_eq!(**a, byte(7));
}

#[test]
fn both_paths_dedupe_identically_and_rebuild_sharing() {
    let schema = list_of_shared_bytes();
    let value = Value::Sequence(
        (0..100u64)
            .map(|i| shared(i % 2, byte((i % 2) as u8)))
            .collect(),
    );
    let blob = Serializer::new(&schema).to_vec(&value).unwrap();
    // 100 keys, but only two unique objects.
    assert_eq!(blob.len(), 2 + 3 + 1 + 100 + 2);
    let Value::Sequence(back) = Deserializer::<u8>::new_untraced(schema)
        .from_slice(&blob)
        .unwrap()
    else {
        panic!("expected a sequence");
    };
    let object = |i: usize| match &back[i] {
        Value::Shared { inner, .. } => inner.clone(),
        other => panic!("expected a shared value, got {other:?}"),
    };
    assert!(Rc::ptr_eq(&object(0), &object(2)));
    assert!(Rc::ptr_eq(&object(1), &object(3)));
    assert!(!Rc::ptr_eq(&object(0), &object(1)));
}

#[test]
fn sharing_is_per_row_in_batches() {
    let schema: Schema<u8> = Schema::from_node(SchemaNode::Shared(Box::new(
        SchemaNode::Primitive(Primitive::U8),
    )));
    let ser = Serializer::new(&schema);
    let mut batch = ser.batch();
    batch.push(&shared(5, byte(9))).unwrap();
    batch.push(&shared(5, byte(9))).unwrap();
    let blob = batch.finish();
    // Each row got its own dictionary entry.
    assert_eq!(blob, [2, 2, 2, 2, 0, 0, 9, 9]);

    let de = Deserializer::<u8>::new_untraced(schema.clone());
    let mut rows = de.rows(&blob).unwrap();
    let first = rows.next().unwrap().unwrap();
    let second = rows.next().unwrap().unwrap();
    assert_eq!(first, second);
    let (Value::Shared { inner: a, .. }, Value::Shared { inner: b, .. }) = (&first, &second) else {
        panic!("expected shared values");
    };
    assert!(!Rc::ptr_eq(a, b));
}

#[test]
fn corrupted_keys_and_truncation_error_cleanly() {
    let schema = list_of_shared_bytes();
    let value = Value::Sequence(vec![shared(1, byte(7)), shared(1, byte(7))]);
    let blob = Serializer::new(&schema).to_vec(&value).unwrap();
    let de = Deserializer::<u8>::new_untraced(schema);

    // Point the repeat key past the dictionary.
    let mut bad = blob.clone();
    let key_index = blob.len() - 2; // [.., keys: 0, 0, dict: 7], the second key
    bad[key_index] = 9;
    assert!(matches!(
        de.from_slice(&bad),
        Err(Error::InvalidTag {
            what: "shared key",
            ..
        })
    ));

    for cut in 0..blob.len() {
        assert!(de.from_slice(&blob[..cut]).is_err());
    }
}

#[test]
fn keys_are_dense_and_per_position() {
    let mut state = WriteState::new(2);
    assert_eq!(state.write_key(0, 100), WriteKey::New(0));
    assert_eq!(state.write_key(0, 200), WriteKey::New(1));
    assert_eq!(state.write_key(0, 100), WriteKey::Existing(0));
    assert_eq!(state.write_key(1, 200), WriteKey::New(0));
}

#[test]
fn slots_are_reserved_before_they_are_filled() {
    let mut regs: ReadState<char> = ReadState::new(1);
    assert!(matches!(regs.read_slot(0, 0), Ok(ReadSlot::New(0))));
    // Still being read: a cycle.
    assert!(matches!(regs.read_slot(0, 0), Err(Error::Message(_))));
    regs.fulfill(0, 0, 'x');
    assert!(matches!(regs.read_slot(0, 0), Ok(ReadSlot::Repeat('x'))));
    assert!(matches!(
        regs.read_slot(0, 2),
        Err(Error::InvalidTag {
            what: "shared key",
            value: 2
        })
    ));
    assert!(regs.read_skip(0, 1).unwrap());
    assert!(!regs.read_skip(0, 1).unwrap());
}
