//! Untrusted-input hardening: every count a blob claims must be justified by
//! the bytes it actually carries.

use std::collections::BTreeMap;

use carbonite::float::Single;
use carbonite::layout::Layout;
use carbonite::shared::ReadState;
use carbonite::skip::skip_value;
use carbonite::value::{Scalar, Value};
use carbonite::{
    ColumnCursor, Deserializer, Error, Primitive, RowsColumns, Schema, SchemaNode, Serializer,
    StaticSchema,
};

fn varint(out: &mut Vec<u8>, mut value: u64) {
    loop {
        let byte = (value & 0x7f) as u8;
        value >>= 7;
        if value == 0 {
            out.push(byte);
            return;
        }
        out.push(byte | 0x80);
    }
}

/// Assembles a blob header and columns the way `Batch::finish` does.
fn blob(rows: u64, columns: &[Vec<u8>]) -> Vec<u8> {
    let mut out = Vec::new();
    varint(&mut out, rows);
    varint(&mut out, columns.len() as u64);
    for column in columns {
        varint(&mut out, column.len() as u64);
    }
    for column in columns {
        out.extend_from_slice(column);
    }
    out
}

fn column(values: &[u64]) -> Vec<u8> {
    let mut out = Vec::new();
    for &value in values {
        varint(&mut out, value);
    }
    out
}

fn assert_limit_exceeded<T: std::fmt::Debug>(result: Result<T, Error>) {
    match result {
        Err(Error::LimitExceeded { .. }) => {}
        other => panic!("expected Error::LimitExceeded, got {other:?}"),
    }
}

/// A sensor and a temperature.
type Reading = (u16, Single);

fn reading(sensor: u16, celsius: f32) -> Reading {
    (sensor, Single(celsius.to_bits()))
}

/// A schema that occupies no columns at all, so nothing in the data bounds how
/// many of it a header can claim.
fn marker() -> SchemaNode {
    SchemaNode::UnitStruct {
        name: "Marker".to_owned(),
    }
}

/// A blob whose header claims far more rows than its columns could hold.
#[test]
fn tampered_row_count_is_rejected_when_the_blob_is_opened() {
    let schema = Reading::schema();
    let good = Serializer::new(&schema)
        .to_vec_columns(&reading(1, 2.0))
        .unwrap();

    // Rewrite only the leading row-count varint; every column stays valid.
    let mut tampered = Vec::new();
    varint(&mut tampered, 1_000_000_000_000_000);
    tampered.extend_from_slice(&good[1..]);
    assert!(tampered.len() < 32, "the whole attack fits in a few bytes");

    let de = Deserializer::<Reading>::new_static(Reading::schema());
    assert_limit_exceeded(de.rows(&tampered).map(|_| ()));
    assert_limit_exceeded(de.from_slice(&tampered));
    assert_limit_exceeded(de.rows_columns(&tampered).map(|_| ()));
    assert_limit_exceeded(de.from_slice_columns(&tampered));
}

/// The lower bound must stay at zero: a row that has not been decoded yet may
/// still fail, so no consumer should size an allocation from the claim.
#[test]
fn rows_size_hint_never_promises_rows_it_has_not_decoded() {
    let schema = Reading::schema();
    let ser = Serializer::new(&schema);
    let mut batch = ser.batch();
    for sensor in 0..4 {
        batch.push_columns(&reading(sensor, 1.0)).unwrap();
    }
    let bytes = batch.finish();

    let de = Deserializer::<Reading>::new_static(Reading::schema());
    let rows = de.rows(&bytes).unwrap();
    assert_eq!(rows.size_hint(), (0, Some(4)));

    let rows: RowsColumns<'_, Reading> = de.rows_columns(&bytes).unwrap();
    assert_eq!(rows.size_hint(), (0, Some(4)));
}

/// A zero-column row type carries nothing per row, so the count is capped
/// rather than bounded by the data.
#[test]
fn zero_column_row_count_is_capped() {
    let de = Deserializer::<()>::new_untraced(Schema::from_node(marker()));

    let ok = blob(1_000, &[]);
    let mut rows = de.rows(&ok).unwrap();
    let mut count = 0;
    while let Some(row) = rows.next() {
        row.unwrap();
        count += 1;
    }
    assert_eq!(count, 1_000);

    let absurd = blob(carbonite::columnar::MAX_ZERO_COLUMN_REPEAT + 1, &[]);
    assert!(absurd.len() < 16);
    assert_limit_exceeded(de.rows(&absurd).map(|_| ()));
}

/// A zero-column element consumes no input.
#[test]
fn zero_column_sequence_length_is_capped() {
    let de = Deserializer::<()>::new_untraced(Schema::from_node(SchemaNode::Sequence(Box::new(
        marker(),
    ))));

    let ok = blob(1, &[column(&[1_000])]);
    let Value::Sequence(decoded) = de.from_slice(&ok).unwrap() else {
        panic!("expected a sequence");
    };
    assert_eq!(decoded.len(), 1_000);

    let absurd = blob(1, &[column(&[500_000_000])]);
    assert!(absurd.len() < 16);
    assert_limit_exceeded(de.from_slice(&absurd));
}

/// For an element that does occupy columns, the remaining bytes are an exact
/// bound: a `u32` element cannot appear more often than there are bytes left.
#[test]
fn sequence_length_is_bounded_by_the_remaining_bytes() {
    let de = Deserializer::<Vec<u32>>::new_static(<Vec<u32>>::schema());

    let ok = blob(1, &[column(&[2]), vec![0; 8]]);
    let decoded: Vec<u32> = de.from_slice_columns(&ok).unwrap();
    assert_eq!(decoded, vec![0, 0]);
    assert_eq!(
        de.from_slice(&ok).unwrap(),
        Value::Sequence(vec![
            Value::Scalar(Scalar::U32(0)),
            Value::Scalar(Scalar::U32(0))
        ])
    );

    // Claims 500M elements but supplies eight bytes of payload.
    let absurd = blob(1, &[column(&[500_000_000]), vec![0; 8]]);
    assert_limit_exceeded(de.from_slice(&absurd));
    assert_limit_exceeded(de.from_slice_columns(&absurd));
}

#[test]
fn map_length_is_bounded_by_the_remaining_bytes() {
    let de = Deserializer::<()>::new_untraced(<BTreeMap<u8, u8>>::schema().cast());

    let ok = blob(1, &[column(&[2]), vec![1, 2], vec![3, 4]]);
    assert_eq!(
        de.from_slice(&ok).unwrap(),
        Value::Mapping(vec![
            (Value::Scalar(Scalar::U8(1)), Value::Scalar(Scalar::U8(3))),
            (Value::Scalar(Scalar::U8(2)), Value::Scalar(Scalar::U8(4))),
        ])
    );

    let absurd = blob(1, &[column(&[500_000_000]), vec![1, 2], vec![3, 4]]);
    assert_limit_exceeded(de.from_slice(&absurd));
}

/// The same bound has to apply when a field is being *skipped*: that walk is
/// just as much of a loop.
#[test]
fn lengths_are_bounded_while_skipping_a_removed_field() {
    let dropped = SchemaNode::Sequence(Box::new(SchemaNode::Primitive(Primitive::U32)));
    let layout = Layout::new(&dropped);

    let skip = |claimed: u64| {
        let lengths = column(&[claimed]);
        let data = vec![0u8; 4];
        let mut cursors = vec![ColumnCursor::new(&lengths), ColumnCursor::new(&data)];
        let mut regs: ReadState<u64> = ReadState::new(2);
        let result = skip_value(layout.spot(), &mut cursors, &mut regs);
        result.map(|()| cursors.iter().all(|cursor| cursor.at_end()))
    };
    assert!(skip(1).unwrap());
    assert_limit_exceeded(skip(500_000_000));
}

/// Overlong varints gave a value more than one valid encoding, so decoding
/// and re-encoding a blob was not guaranteed to reproduce its bytes.
#[test]
fn non_canonical_varints_are_rejected() {
    let de = Deserializer::<Vec<u8>>::new_static(<Vec<u8>>::schema());

    let canonical = blob(1, &[vec![0x02], vec![9, 9]]);
    let decoded: Vec<u8> = de.from_slice_columns(&canonical).unwrap();
    assert_eq!(decoded, vec![9, 9]);

    // The same length of 2, padded to two bytes.
    let padded = blob(1, &[vec![0x82, 0x00], vec![9, 9]]);
    assert!(matches!(de.from_slice(&padded), Err(Error::InvalidVarint)));
    assert!(matches!(
        de.from_slice_columns(&padded),
        Err(Error::InvalidVarint)
    ));
}

/// Round-tripping a blob must reproduce it byte for byte.
#[test]
fn decoding_and_re_encoding_reproduces_the_bytes() {
    let schema = Reading::schema();
    let ser = Serializer::new(&schema);
    let mut batch = ser.batch();
    for sensor in 0..8 {
        batch
            .push_columns(&reading(sensor, f32::from(sensor) * 0.5))
            .unwrap();
    }
    let original = batch.finish();

    let de = Deserializer::<Reading>::new_static(Reading::schema());
    let mut rows = de.rows(&original).unwrap();
    let mut again = ser.batch();
    while let Some(row) = rows.next() {
        again.push(&row.unwrap()).unwrap();
    }
    assert_eq!(again.finish(), original);
}

/// Every prefix of a valid blob, and every single-byte corruption of one,
/// must produce an error or a value rather than a panic.
#[test]
fn truncation_and_corruption_stay_clean() {
    type Wide = (u32, String, Vec<Option<u8>>, (bool, char));
    let value: Wide = (
        7,
        "carbonite".to_owned(),
        vec![Some(1), None, Some(3)],
        (true, 'z'),
    );
    let good = carbonite::to_vec_static(&value).unwrap();
    let de = carbonite::SelfDescribingDeserializer::<Wide>::new();
    assert_eq!(de.from_slice_columns(&good).unwrap(), value);

    for cut in 0..good.len() {
        assert!(de.from_slice(&good[..cut]).is_err());
        assert!(de.from_slice_columns(&good[..cut]).is_err());
    }
    for index in 0..good.len() {
        for bit in 0..8 {
            let mut corrupted = good.clone();
            corrupted[index] ^= 1 << bit;
            let _ = de.from_slice(&corrupted);
            let _ = de.from_slice_columns(&corrupted);
        }
    }
}
