//! Golden byte-layout tests: lock in the wire format and prove the encoding
//! really is columnar.

use carbonite::float::Single;
use carbonite::value::{Scalar, Value};
use carbonite::{Deserializer, Serializer, StaticSchema};

#[test]
fn vec_of_pairs_is_stored_column_wise() {
    let value: Vec<(u32, Single)> = vec![(1, Single(1.5f32.to_bits())), (2, Single(2.5f32.to_bits()))];
    let schema = <Vec<(u32, Single)>>::schema();
    let blob = Serializer::new(&schema).to_vec_columns(&value).unwrap();
    let plain = Value::Sequence(vec![
        Value::Tuple(vec![
            Value::Scalar(Scalar::U32(1)),
            Value::Scalar(Scalar::F32(1.5f32.to_bits())),
        ]),
        Value::Tuple(vec![
            Value::Scalar(Scalar::U32(2)),
            Value::Scalar(Scalar::F32(2.5f32.to_bits())),
        ]),
    ]);
    assert_eq!(Serializer::new(&schema).to_vec(&plain).unwrap(), blob);

    let expected: Vec<u8> = vec![
        // header
        1, // row count
        3, // column count
        1, 8, 8, // column byte lengths
        // column 0: sequence length
        2, // column 1: both u32s, contiguous, little-endian
        1, 0, 0, 0, //
        2, 0, 0, 0, //
        // column 2: both f32s, contiguous, little-endian
        0x00, 0x00, 0xC0, 0x3F, // 1.5
        0x00, 0x00, 0x20, 0x40, // 2.5
    ];
    assert_eq!(blob, expected);

    let de = Deserializer::<Vec<(u32, Single)>>::new_static(schema);
    let back: Vec<(u32, Single)> = de.from_slice_columns(&blob).unwrap();
    assert_eq!(back, value);
    assert_eq!(de.from_slice(&blob).unwrap(), plain);
}

#[test]
fn strings_share_one_data_column() {
    let value: Vec<String> = vec!["ab".into(), "".into(), "cde".into()];
    let schema = <Vec<String>>::schema();
    let blob = Serializer::new(&schema).to_vec_columns(&value).unwrap();

    let expected: Vec<u8> = vec![
        1, // row count
        3, // columns: seq len, string lens, string bytes
        1, 3, 5, // column byte lengths
        3, // three strings
        2, 0, 3, // per-string byte lengths
        b'a', b'b', b'c', b'd', b'e',
    ];
    assert_eq!(blob, expected);
}
