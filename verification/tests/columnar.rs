//! Column cursors, counts, and the columnar fast paths.

use std::borrow::Cow;
use std::collections::{BTreeMap, BTreeSet, HashMap, HashSet, VecDeque};
use std::marker::PhantomData;
use std::num::Wrapping;
use std::ops::Bound;

use carbonite::columnar::{
    checked_count, conversion_failed, invalid_variant, skipped_variant, MAX_ZERO_COLUMN_REPEAT,
};
use carbonite::float::{Double, Single};
use carbonite::layout::Layout;
use carbonite::nonzero::NonZero;
use carbonite::time::{Duration, SystemTime};
use carbonite::value::{Scalar, Value};
use carbonite::{
    ColumnCursor, Deserializer, DeserializeColumns, Error, SerializeColumns, Serializer,
    StaticSchema,
};

#[test]
fn cursor_can_be_built_and_read_directly() {
    let mut cursor = ColumnCursor::new(&[0x2a, 0x00, 0x00, 0x00]);
    assert_eq!(cursor.remaining(), 4);
    assert_eq!(u32::from_le_bytes(cursor.fixed().unwrap()), 42);
    assert!(cursor.at_end());
    assert!(matches!(cursor.byte(), Err(Error::UnexpectedEof)));
}

#[test]
fn checked_count_bounds_by_remaining_bytes() {
    let cursors = [ColumnCursor::new(&[0; 10])];
    assert_eq!(checked_count("test", 1, 10, &cursors).unwrap(), 10);
    assert!(matches!(
        checked_count("test", 1, 11, &cursors),
        Err(Error::LimitExceeded {
            claimed: 11,
            limit: 10,
            ..
        })
    ));
}

#[test]
fn checked_count_caps_zero_column_elements() {
    let cursors: [ColumnCursor<'_>; 0] = [];
    assert_eq!(
        checked_count("test", 0, MAX_ZERO_COLUMN_REPEAT, &cursors).unwrap(),
        MAX_ZERO_COLUMN_REPEAT as usize
    );
    assert!(matches!(
        checked_count("test", 0, MAX_ZERO_COLUMN_REPEAT + 1, &cursors),
        Err(Error::LimitExceeded { .. })
    ));
}

/// Every `StaticSchema::columns()` must equal what the layout builder
/// derives from the same type's schema tree, which is what the columnar
/// fast paths rely on for their column offsets.
fn assert_columns_agree<T: StaticSchema + ?Sized>() {
    assert_eq!(
        T::columns(),
        Layout::new(&T::schema_node()).columns,
        "columns() disagrees with the layout of {}",
        T::schema_node().describe(),
    );
}

#[test]
fn static_schema_column_counts_match_the_layout() {
    assert_columns_agree::<bool>();
    assert_columns_agree::<u8>();
    assert_columns_agree::<i128>();
    assert_columns_agree::<char>();
    assert_columns_agree::<usize>();
    assert_columns_agree::<()>();
    assert_columns_agree::<String>();
    assert_columns_agree::<str>();
    assert_columns_agree::<Option<u32>>();
    assert_columns_agree::<Option<Option<String>>>();
    assert_columns_agree::<Vec<u32>>();
    assert_columns_agree::<Vec<(u32, String)>>();
    assert_columns_agree::<VecDeque<u8>>();
    assert_columns_agree::<BTreeSet<u8>>();
    assert_columns_agree::<HashSet<u8>>();
    assert_columns_agree::<[u32; 4]>();
    assert_columns_agree::<[String; 3]>();
    assert_columns_agree::<[(); 5]>();
    assert_columns_agree::<HashMap<String, u32>>();
    assert_columns_agree::<BTreeMap<u8, Vec<Single>>>();
    assert_columns_agree::<(u8,)>();
    assert_columns_agree::<(u8, String, Option<Double>)>();
    assert_columns_agree::<&u32>();
    assert_columns_agree::<&str>();
    assert_columns_agree::<Box<Vec<u8>>>();
    assert_columns_agree::<std::rc::Rc<String>>();
    assert_columns_agree::<std::sync::Arc<u64>>();
    assert_columns_agree::<Result<u32, String>>();
    assert_columns_agree::<PhantomData<u8>>();
    assert_columns_agree::<std::time::Duration>();
    assert_columns_agree::<std::time::SystemTime>();
    assert_columns_agree::<[u8]>();
    assert_columns_agree::<Box<[u16]>>();
    assert_columns_agree::<Box<str>>();
    assert_columns_agree::<std::path::Path>();
    assert_columns_agree::<std::path::PathBuf>();
    assert_columns_agree::<std::ops::Range<u8>>();
    assert_columns_agree::<std::ops::RangeInclusive<String>>();
    assert_columns_agree::<Wrapping<u32>>();
    assert_columns_agree::<Bound<String>>();
    assert_columns_agree::<NonZero<u64>>();
}

#[test]
fn reports_say_what_happened() {
    assert_eq!(
        skipped_variant("Hidden").to_string(),
        "variant `Hidden` is marked serde(skip) and cannot be serialized"
    );
    assert_eq!(conversion_failed("empty range 5..2").to_string(), "empty range 5..2");
    assert!(matches!(
        invalid_variant(7),
        Error::InvalidTag {
            what: "enum variant",
            value: 7
        }
    ));
}

/// Writes through the columnar path and through the schema-driven one, and
/// reads both back both ways.
fn assert_paths_agree<T>(value: T, plain: Value)
where
    T: SerializeColumns + for<'de> DeserializeColumns<'de> + PartialEq + std::fmt::Debug,
{
    let schema = T::schema();
    let ser = Serializer::new(&schema);
    let fast = ser.to_vec_columns(&value).unwrap();
    let slow = ser.to_vec(&plain).unwrap();
    assert_eq!(fast, slow);
    let de = Deserializer::new_static(T::schema());
    assert_eq!(de.from_slice_columns(&fast).unwrap(), value);
    assert_eq!(de.from_slice(&fast).unwrap(), plain);
}

fn scalar(x: Scalar) -> Value {
    Value::Scalar(x)
}

#[test]
fn primitive_and_container_paths_agree() {
    assert_paths_agree(true, scalar(Scalar::Bool(true)));
    assert_paths_agree(-3i8, scalar(Scalar::I8(-3)));
    assert_paths_agree(i16::MIN, scalar(Scalar::I16(i16::MIN)));
    assert_paths_agree(-70_000i32, scalar(Scalar::I32(-70_000)));
    assert_paths_agree(i64::MIN, scalar(Scalar::I64(i64::MIN)));
    assert_paths_agree(i128::MIN, scalar(Scalar::I128(i128::MIN)));
    assert_paths_agree(u128::MAX, scalar(Scalar::U128(u128::MAX)));
    assert_paths_agree(7usize, scalar(Scalar::U64(7)));
    assert_paths_agree(-7isize, scalar(Scalar::I64(-7)));
    assert_paths_agree('\u{10ffff}', scalar(Scalar::Char('\u{10ffff}')));
    assert_paths_agree(Single(1.5f32.to_bits()), scalar(Scalar::F32(1.5f32.to_bits())));
    assert_paths_agree(Double(f64::NAN.to_bits()), scalar(Scalar::F64(f64::NAN.to_bits())));
    assert_paths_agree("h\u{e9}llo".to_owned(), Value::Str("h\u{e9}llo".to_owned()));
    assert_paths_agree((), Value::Unit);
    assert_paths_agree(
        Some(9u8),
        Value::Present(Box::new(scalar(Scalar::U8(9)))),
    );
    assert_paths_agree(None::<u8>, Value::Absent);
    assert_paths_agree(
        vec![Some(1u16), None],
        Value::Sequence(vec![
            Value::Present(Box::new(scalar(Scalar::U16(1)))),
            Value::Absent,
        ]),
    );
    assert_paths_agree(
        [1u8, 2, 3],
        Value::Tuple(vec![
            scalar(Scalar::U8(1)),
            scalar(Scalar::U8(2)),
            scalar(Scalar::U8(3)),
        ]),
    );
    assert_paths_agree(
        (1u8, "a".to_owned(), [true; 2]),
        Value::Tuple(vec![
            scalar(Scalar::U8(1)),
            Value::Str("a".to_owned()),
            Value::Tuple(vec![scalar(Scalar::Bool(true)), scalar(Scalar::Bool(true))]),
        ]),
    );
    assert_paths_agree(
        Ok::<u8, String>(4),
        Value::NewtypeVariant {
            index: 0,
            variant: "Ok".to_owned(),
            inner: Box::new(scalar(Scalar::U8(4))),
        },
    );
    assert_paths_agree(
        Err::<u8, String>("no".to_owned()),
        Value::NewtypeVariant {
            index: 1,
            variant: "Err".to_owned(),
            inner: Box::new(Value::Str("no".to_owned())),
        },
    );
}

#[test]
fn borrowed_columnar_roundtrip() {
    let schema = <(u8, String)>::schema();
    let blob = Serializer::new(&schema)
        .to_vec_columns(&(1, "zero copy".to_owned()))
        .unwrap();
    let de = Deserializer::<(u8, &str)>::new_static(schema.cast());
    let back: (u8, &str) = de.from_slice_columns(&blob).unwrap();
    assert_eq!(back, (1, "zero copy"));
}

#[test]
fn columnar_paths_reject_foreign_schemas() {
    let older = <(u16,)>::schema();
    let blob = Serializer::new(&older).to_vec_columns(&(1,)).unwrap();
    let de = Deserializer::<(u16, u16)>::new_static(older.cast());
    assert!(matches!(
        de.from_slice_columns(&blob),
        Err(Error::SchemaMismatch { .. })
    ));
    assert!(matches!(
        de.rows_columns(&blob).map(|_| ()),
        Err(Error::SchemaMismatch { .. })
    ));

    let foreign = <(u16,)>::schema().cast::<u8>();
    assert!(matches!(
        Serializer::new(&foreign).to_vec_columns(&1),
        Err(Error::SchemaMismatch { .. })
    ));
}

#[test]
fn truncated_input_never_panics() {
    let schema = <Vec<(u8, String)>>::schema();
    let blob = Serializer::new(&schema)
        .to_vec_columns(&vec![(1, "a".to_owned()), (2, "bc".to_owned())])
        .unwrap();
    let de = Deserializer::<Vec<(u8, String)>>::new_static(schema);
    for cut in 0..blob.len() {
        assert!(de.from_slice_columns(&blob[..cut]).is_err());
        assert!(de.from_slice(&blob[..cut]).is_err());
    }
}

#[test]
fn invalid_bytes_error_cleanly() {
    // One row, one column of one byte: not a bool.
    let de = Deserializer::<bool>::new_static(bool::schema());
    assert!(matches!(
        de.from_slice_columns(&[1, 1, 1, 2]),
        Err(Error::InvalidTag { what: "bool", value: 2 })
    ));
    // A surrogate is not a char.
    let de = Deserializer::<char>::new_static(char::schema());
    assert!(matches!(
        de.from_slice_columns(&[1, 1, 4, 0x00, 0xd8, 0, 0]),
        Err(Error::InvalidTag { what: "char", value: 0xd800 })
    ));
    // A presence byte is zero or one.
    let de = Deserializer::<Option<u8>>::new_static(<Option<u8>>::schema());
    assert!(matches!(
        de.from_slice_columns(&[1, 2, 1, 0, 3]),
        Err(Error::InvalidTag { what: "presence", value: 3 })
    ));
    // Strings are UTF-8.
    let de = Deserializer::<String>::new_static(String::schema());
    assert!(matches!(
        de.from_slice_columns(&[1, 2, 1, 1, 1, 0xff]),
        Err(Error::InvalidUtf8)
    ));
    assert!(matches!(
        de.from_slice(&[1, 2, 1, 1, 1, 0xff]),
        Err(Error::InvalidUtf8)
    ));
    // Data that no row reads.
    let de = Deserializer::<u8>::new_static(u8::schema());
    assert!(matches!(
        de.from_slice_columns(&[1, 1, 2, 5, 6]),
        Err(Error::TrailingBytes)
    ));
}

fn u8s(xs: &[u8]) -> Vec<Value> {
    xs.iter().map(|x| scalar(Scalar::U8(*x))).collect()
}

fn two_numbers(name: &str, a: (&str, Scalar), b: (&str, Scalar)) -> Value {
    Value::Struct {
        name: name.to_owned(),
        fields: vec![
            (a.0.to_owned(), scalar(a.1)),
            (b.0.to_owned(), scalar(b.1)),
        ],
    }
}

#[test]
fn primitive_and_container_roundtrips() {
    assert_paths_agree(42u8, scalar(Scalar::U8(42)));
    assert_paths_agree(-1i64, scalar(Scalar::I64(-1)));
    assert_paths_agree('é', scalar(Scalar::Char('é')));
    assert_paths_agree(String::from("solo"), Value::Str("solo".to_owned()));
    assert_paths_agree(
        Some(7u32),
        Value::Present(Box::new(scalar(Scalar::U32(7)))),
    );
    assert_paths_agree(None::<String>, Value::Absent);
    assert_paths_agree(Vec::<u64>::new(), Value::Sequence(vec![]));
    assert_paths_agree(
        vec![vec![1u8], vec![], vec![2, 3]],
        Value::Sequence(vec![
            Value::Sequence(u8s(&[1])),
            Value::Sequence(vec![]),
            Value::Sequence(u8s(&[2, 3])),
        ]),
    );
    assert_paths_agree(
        BTreeMap::from([(1u8, "one".to_owned())]),
        Value::Mapping(vec![(
            scalar(Scalar::U8(1)),
            Value::Str("one".to_owned()),
        )]),
    );
    assert_paths_agree(Box::new(9u32), scalar(Scalar::U32(9)));
    assert_paths_agree(
        (
            Duration::new(0, 5_000_000).unwrap(),
            PhantomData::<u16>,
        ),
        Value::Tuple(vec![
            two_numbers(
                "Duration",
                ("secs", Scalar::U64(0)),
                ("nanos", Scalar::U32(5_000_000)),
            ),
            Value::UnitStruct {
                name: "PhantomData".to_owned(),
            },
        ]),
    );
}

#[test]
fn pointers_and_queues_are_transparent() {
    assert_paths_agree(std::sync::Arc::new(9u32), scalar(Scalar::U32(9)));
    assert_paths_agree(std::rc::Rc::new(9u32), scalar(Scalar::U32(9)));
    assert_paths_agree(
        VecDeque::from([3u8, 1, 2]),
        Value::Sequence(u8s(&[3, 1, 2])),
    );
    let text: Cow<'_, str> = Cow::Borrowed("zero copy");
    let schema = <Cow<'_, str>>::schema();
    let blob = Serializer::new(&schema).to_vec_columns(&text).unwrap();
    assert_eq!(
        Serializer::new(&schema)
            .to_vec_columns(&Cow::Owned("zero copy".to_owned()))
            .unwrap(),
        blob
    );
    let back: Cow<'_, str> = Deserializer::new_static(schema)
        .from_slice_columns(&blob)
        .unwrap();
    assert!(matches!(back, Cow::Borrowed("zero copy")));
    let bytes: &[u8] = &[1, 2];
    assert_eq!(
        carbonite::to_vec_static(bytes).unwrap(),
        carbonite::to_vec_static(&vec![1u8, 2]).unwrap()
    );
}

/// Borrowed or owned, the bytes are those of what stands behind.
#[test]
fn values_that_may_be_borrowed_write_what_they_hold() {
    let items = vec![1u16, 2, 515];
    let schema = <Cow<'_, [u16]>>::schema();
    assert_eq!(schema, <Vec<u16>>::schema().cast());
    let ser = Serializer::new(&schema);
    let plain = carbonite::to_vec_static(&items).unwrap();
    let borrowed: Cow<'_, [u16]> = Cow::Borrowed(&items);
    assert_eq!(carbonite::to_vec_static(&borrowed).unwrap(), plain);
    let blob = ser.to_vec_columns(&Cow::Owned(items.clone())).unwrap();
    assert_eq!(blob, [1, 2, 1, 6, 3, 1, 0, 2, 0, 3, 2]);

    let number: Cow<'_, u32> = Cow::Owned(7);
    assert_eq!(
        carbonite::to_vec_static(&number).unwrap(),
        carbonite::to_vec_static(&7u32).unwrap()
    );
    assert_eq!(<Cow<'_, u32>>::fixed_width(), Some(4));
}

#[test]
fn ordered_collections_are_written_in_order() {
    assert_paths_agree(
        BTreeSet::from([3u8, 1, 2]),
        Value::Sequence(u8s(&[1, 2, 3])),
    );
    assert_paths_agree(
        BTreeMap::from([("b".to_owned(), 2u8), ("a".to_owned(), 1)]),
        Value::Mapping(vec![
            (Value::Str("a".to_owned()), scalar(Scalar::U8(1))),
            (Value::Str("b".to_owned()), scalar(Scalar::U8(2))),
        ]),
    );
}

#[test]
fn hashed_collections_round_trip() {
    let set = HashSet::from([3u8, 1, 2]);
    let schema = <HashSet<u8>>::schema();
    let blob = Serializer::new(&schema).to_vec_columns(&set).unwrap();
    let back: HashSet<u8> = Deserializer::new_static(schema)
        .from_slice_columns(&blob)
        .unwrap();
    assert_eq!(back, set);

    let map = HashMap::from([(3u32, -30i64), (5, 50)]);
    let schema = <HashMap<u32, i64>>::schema();
    let blob = Serializer::new(&schema).to_vec_columns(&map).unwrap();
    let back: HashMap<u32, i64> = Deserializer::new_static(schema)
        .from_slice_columns(&blob)
        .unwrap();
    assert_eq!(back, map);
}

type Shelf = (Vec<BTreeMap<u8, HashSet<u16>>>, Option<HashMap<u32, Vec<i8>>>);

fn shelf() -> Shelf {
    (
        vec![
            BTreeMap::from([(2, HashSet::from([5, 6, 7])), (1, HashSet::new())]),
            BTreeMap::new(),
        ],
        Some(HashMap::from([(9, vec![-1]), (8, vec![]), (7, vec![2, 3])])),
    )
}

/// Maps and sets come back wherever they stand, in whatever order they were
/// walked, and both writers give the same bytes for that order.
#[test]
fn maps_and_sets_come_back_inside_other_types() {
    let schema = Shelf::schema();
    let ser = Serializer::new(&schema);
    let blob = ser.to_vec_columns(&shelf()).unwrap();
    let de = Deserializer::<Shelf>::new_static(&schema);
    assert_eq!(de.from_slice_columns(&blob).unwrap(), shelf());

    let tree = de.from_slice(&blob).unwrap();
    assert_eq!(ser.to_vec(&tree).unwrap(), blob);

    let framed = carbonite::to_vec_static(&shelf()).unwrap();
    let back = carbonite::SelfDescribingDeserializer::<Shelf>::new()
        .from_slice_columns(&framed)
        .unwrap();
    assert_eq!(back, shelf());
}

#[test]
fn readers_of_maps_refuse_damaged_input() {
    let de = Deserializer::<BTreeMap<u8, u8>>::new_static(<BTreeMap<u8, u8>>::schema());
    assert!(matches!(
        de.from_slice_columns(&[]),
        Err(Error::UnexpectedEof)
    ));
    // One entry, and one byte more in the column of the values.
    let mut rows = de.rows_columns(&[1, 3, 1, 1, 2, 1, 7, 70, 71]).unwrap();
    assert!(matches!(rows.next(), Some(Err(Error::TrailingBytes))));
    assert!(rows.next().is_none());
}

#[test]
fn values_behind_mutable_references_write_what_they_hold() {
    let mut items = vec![1u8, 2];
    let plain = carbonite::to_vec_static(&items).unwrap();
    assert_eq!(carbonite::to_vec_static(&&mut items).unwrap(), plain);
}

#[test]
fn a_bad_length_is_not_consumed() {
    let mut cursor = ColumnCursor::new(&[0x80, 0x80]);
    assert!(cursor.varint_len().is_err());
    assert_eq!(cursor.remaining(), 2);
    let mut cursor = ColumnCursor::new(&[0x80, 0x01, 0xff]);
    assert_eq!(cursor.varint_len().unwrap(), 128);
    assert_eq!(cursor.remaining(), 1);
}

/// Reading takes entries in whatever order they stand: the last of a key stays.
#[test]
fn collections_read_any_order_and_repeats() {
    let schema = <Vec<(u8, u8)>>::schema();
    let blob = Serializer::new(&schema)
        .to_vec_columns(&vec![(2, 20), (1, 10), (2, 21)])
        .unwrap();
    let map: BTreeMap<u8, u8> = Deserializer::new_static(<BTreeMap<u8, u8>>::schema())
        .from_slice_columns(&blob)
        .unwrap();
    assert_eq!(map, BTreeMap::from([(1, 10), (2, 21)]));
    let map: HashMap<u8, u8> = Deserializer::new_static(<HashMap<u8, u8>>::schema())
        .from_slice_columns(&blob)
        .unwrap();
    assert_eq!(map, HashMap::from([(1, 10), (2, 21)]));

    let schema = <Vec<u8>>::schema();
    let blob = Serializer::new(&schema)
        .to_vec_columns(&vec![3, 1, 3])
        .unwrap();
    let set: BTreeSet<u8> = Deserializer::new_static(<BTreeSet<u8>>::schema())
        .from_slice_columns(&blob)
        .unwrap();
    assert_eq!(set, BTreeSet::from([1, 3]));
}

#[test]
fn a_map_claims_no_more_than_its_input_holds() {
    let de = Deserializer::new_static(<BTreeMap<u8, u8>>::schema());
    // Two rows of one byte are claimed to hold nine entries.
    let result = de.from_slice_columns(&[1, 3, 1, 1, 1, 9, 7, 7]);
    assert!(matches!(
        result,
        Err(Error::LimitExceeded {
            what: "map length",
            claimed: 9,
            limit: 2
        })
    ));
}

#[test]
fn ranges_are_structs_of_their_bounds() {
    assert_paths_agree(
        3u32..9,
        two_numbers(
            "Range",
            ("start", Scalar::U32(3)),
            ("end", Scalar::U32(9)),
        ),
    );
    assert_paths_agree(
        1u8..=5,
        two_numbers(
            "RangeInclusive",
            ("start", Scalar::U8(1)),
            ("end", Scalar::U8(5)),
        ),
    );
    assert_paths_agree(
        vec![0u64..10, 10..20],
        Value::Sequence(vec![
            two_numbers(
                "Range",
                ("start", Scalar::U64(0)),
                ("end", Scalar::U64(10)),
            ),
            two_numbers(
                "Range",
                ("start", Scalar::U64(10)),
                ("end", Scalar::U64(20)),
            ),
        ]),
    );
}

/// A bound in the terms in which it presents itself.
fn bound(index: u64, variant: &str, x: u16) -> Value {
    Value::NewtypeVariant {
        index,
        variant: variant.to_owned(),
        inner: Box::new(scalar(Scalar::U16(x))),
    }
}

#[test]
fn ranges_and_bounds() {
    assert_paths_agree(
        3u32..9,
        two_numbers("Range", ("start", Scalar::U32(3)), ("end", Scalar::U32(9))),
    );
    assert_paths_agree(
        1u8..=5,
        two_numbers(
            "RangeInclusive",
            ("start", Scalar::U8(1)),
            ("end", Scalar::U8(5)),
        ),
    );
    assert_paths_agree(
        Bound::<u16>::Unbounded,
        Value::UnitVariant {
            index: 0,
            variant: "Unbounded".to_owned(),
        },
    );
    assert_paths_agree(Bound::Included(7u16), bound(1, "Included", 7));
    assert_paths_agree(Bound::Excluded(8u16), bound(2, "Excluded", 8));
    assert_paths_agree(
        vec![0u64..10, 10..20],
        Value::Sequence(vec![
            two_numbers("Range", ("start", Scalar::U64(0)), ("end", Scalar::U64(10))),
            two_numbers("Range", ("start", Scalar::U64(10)), ("end", Scalar::U64(20))),
        ]),
    );
}

#[test]
fn bounds_are_tagged() {
    let ser_schema = <Bound<u16>>::schema();
    let blob = Serializer::new(&ser_schema)
        .to_vec_columns(&Bound::Excluded(0x0102u16))
        .unwrap();
    // One row, three columns: the tag, nothing included, and the value.
    assert_eq!(blob, [1, 3, 1, 0, 2, 2, 0x02, 0x01]);
    let mut bad = blob;
    bad[5] = 3;
    assert!(matches!(
        Deserializer::new_static(ser_schema).from_slice_columns(&bad),
        Err(Error::InvalidTag {
            what: "enum variant",
            value: 3
        })
    ));
}

#[test]
fn numeric_wrappers_and_boxes() {
    assert_paths_agree(Wrapping(250u8), scalar(Scalar::U8(250)));
    assert_paths_agree(Wrapping(-3i64), scalar(Scalar::I64(-3)));
    assert_paths_agree(Box::<str>::from("boxed"), Value::Str("boxed".to_owned()));
    assert_paths_agree(
        vec![1u32, 2, 3].into_boxed_slice(),
        Value::Sequence(vec![
            scalar(Scalar::U32(1)),
            scalar(Scalar::U32(2)),
            scalar(Scalar::U32(3)),
        ]),
    );
    assert_paths_agree(
        Vec::<Box<[u8]>>::from([
            Box::from([1u8, 2].as_slice()),
            Box::from([].as_slice()),
        ]),
        Value::Sequence(vec![
            Value::Sequence(u8s(&[1, 2])),
            Value::Sequence(vec![]),
        ]),
    );
}

#[test]
fn zero_is_refused_where_it_cannot_be() {
    assert_paths_agree(NonZero::new(7u32).unwrap(), scalar(Scalar::U32(7)));
    assert_paths_agree(NonZero::new(-1isize).unwrap(), scalar(Scalar::I64(-1)));
    assert!(NonZero::new(0u128).is_none());
    assert_eq!(NonZero::new(i8::MIN).unwrap().get(), i8::MIN);

    let schema = <NonZero<u16>>::schema();
    let blob = Serializer::new(&schema)
        .to_vec(&scalar(Scalar::U16(0)))
        .unwrap();
    assert_eq!(
        Deserializer::new_static(schema)
            .from_slice_columns(&blob)
            .unwrap_err(),
        Error::Message("expected a non-zero value".to_owned())
    );
}

#[test]
fn times_are_seconds_and_nanoseconds() {
    let span = Duration::new(88, 123_456_789).unwrap();
    assert_eq!(span.as_secs(), 88);
    assert_eq!(span.subsec_nanos(), 123_456_789);
    assert!(Duration::new(88, 1_000_000_000).is_none());
    assert_paths_agree(
        SystemTime::after_epoch(span).unwrap(),
        two_numbers(
            "SystemTime",
            ("secs_since_epoch", Scalar::U64(88)),
            ("nanos_since_epoch", Scalar::U32(123_456_789)),
        ),
    );
    // A second's worth of nanoseconds is not a span.
    let schema = <(u64, u32)>::schema();
    let blob = Serializer::new(&schema)
        .to_vec_columns(&(1, 1_000_000_000))
        .unwrap();
    assert!(matches!(
        Deserializer::new_static(<Duration>::schema()).from_slice_columns(&blob),
        Err(Error::Malformed("Duration nanoseconds out of range"))
    ));
}

#[test]
fn long_tuples_are_written_part_by_part() {
    assert_paths_agree(
        (1u8, 2u8, 3u8, 4u8, 5u8, 6u8, 7u8),
        Value::Tuple(u8s(&[1, 2, 3, 4, 5, 6, 7])),
    );
    assert_paths_agree(
        (1u8, 2u8, 3u8, 4u8, 5u8, 6u8, 7u8, 8u8, 9u8, 10u8, 11u8, 12u8),
        Value::Tuple(u8s(&[1, 2, 3, 4, 5, 6, 7, 8, 9, 10, 11, 12])),
    );
    let bytes: [u8; 16] = std::array::from_fn(|i| i as u8);
    let schema = Sixteen::schema();
    let long: Sixteen = (0, 1, 2, 3, 4, 5, 6, 7, 8, 9, 10, 11, 12, 13, 14, 15);
    let blob = Serializer::new(&schema).to_vec_columns(&long).unwrap();
    assert_eq!(
        Serializer::new(&schema)
            .to_vec(&Value::Tuple(u8s(&bytes)))
            .unwrap(),
        blob
    );
    let back: Sixteen = Deserializer::new_static(Sixteen::schema())
        .from_slice_columns(&blob)
        .unwrap();
    assert_eq!((back.0, back.5, back.6, back.11, back.12, back.15), (0, 5, 6, 11, 12, 15));
}

type Sixteen = (
    u8,
    u8,
    u8,
    u8,
    u8,
    u8,
    u8,
    u8,
    u8,
    u8,
    u8,
    u8,
    u8,
    u8,
    u8,
    u8,
);

#[test]
fn maps_and_sets_with_text_keys_come_back() {
    let pairs = [("b", 2u8), ("a", 1), ("c", 3)];
    let map: BTreeMap<String, u8> = pairs.iter().map(|(k, v)| (k.to_string(), *v)).collect();
    let turned: BTreeMap<String, u8> =
        pairs.iter().rev().map(|(k, v)| (k.to_string(), *v)).collect();
    let schema = <BTreeMap<String, u8>>::schema();
    let blob = Serializer::new(&schema).to_vec_columns(&map).unwrap();
    assert_eq!(Serializer::new(&schema).to_vec_columns(&turned).unwrap(), blob);
    let de = Deserializer::<BTreeMap<String, u8>>::new_static(&schema);
    assert_eq!(de.from_slice_columns(&blob).unwrap(), map);
    // The values stand in the last column, by the order of their keys.
    assert_eq!(blob[blob.len() - 3..], [1, 2, 3]);

    let names: HashSet<String> = pairs.iter().map(|(k, _)| k.to_string()).collect();
    let framed = carbonite::to_vec_static(&names).unwrap();
    let back = carbonite::SelfDescribingDeserializer::<HashSet<String>>::new()
        .from_slice_columns(&framed)
        .unwrap();
    assert_eq!(back, names);
}

#[test]
fn paths_and_times_have_the_schemas_that_serde_gives_them() {
    assert_eq!(std::path::Path::schema_node().describe(), "string");
    assert_eq!(
        std::path::PathBuf::schema_node(),
        String::schema_node()
    );
    assert_eq!(
        std::time::SystemTime::schema_node(),
        SystemTime::schema_node()
    );
}

#[test]
fn moments_before_the_epoch_are_refused() {
    let before = SystemTime::new(-1, 999_999_999).unwrap();
    assert!(before.since_epoch().is_none());
    assert!(SystemTime::new(0, 1_000_000_000).is_none());
    let refusal = Error::Message("SystemTime must be later than UNIX_EPOCH".to_owned());
    assert_eq!(carbonite::to_vec_static(&before).unwrap_err(), refusal);

    let after = SystemTime::new(3, 4).unwrap();
    assert_eq!(after.since_epoch(), Duration::new(3, 4));
    type Row = (u8, Vec<SystemTime>, Option<SystemTime>);
    let schema = Row::schema();
    let ser = Serializer::new(&schema);
    let mut batch = ser.batch();
    batch.push_columns(&(1, vec![after], None)).unwrap();
    let once = ser.to_vec_columns(&(1, vec![after], None)).unwrap();
    for row in [
        (2, vec![after, before, after], None),
        (3, vec![after], Some(before)),
    ] {
        assert_eq!(batch.push_columns(&row).unwrap_err(), refusal);
        assert_eq!(batch.rows(), 1);
    }
    assert_eq!(batch.finish(), once);

    let marks: HashMap<u64, SystemTime> = [(1, after), (2, before), (3, after)].into();
    assert_eq!(carbonite::to_vec_static(&marks).unwrap_err(), refusal);
}

#[test]
fn moments_beyond_the_clock_are_not_read() {
    let schema = <(u64, u32)>::schema();
    let ser = Serializer::new(&schema);
    let read = |secs: u64, nanos: u32| {
        let blob = ser.to_vec_columns(&(secs, nanos)).unwrap();
        Deserializer::new_static(<SystemTime>::schema()).from_slice_columns(&blob)
    };
    let last = i64::MAX as u64;
    assert_eq!(read(last, 999_999_999).unwrap(), SystemTime::new(i64::MAX, 999_999_999).unwrap());
    assert_eq!(
        read(last + 1, 0).unwrap_err(),
        Error::Message("SystemTime overflows the representable range".to_owned())
    );
    assert!(matches!(
        read(last + 1, 1_000_000_000),
        Err(Error::Malformed("Duration nanoseconds out of range"))
    ));
    for (secs, nanos) in [(0, 0), (last, 999_999_999), (last + 1, 0), (u64::MAX, 0)] {
        let span = std::time::Duration::new(secs, nanos);
        assert_eq!(
            SystemTime::after_epoch(Duration::new(secs, nanos).unwrap()).is_some(),
            std::time::UNIX_EPOCH.checked_add(span).is_some()
        );
    }
}

#[test]
fn typed_rows_come_back_in_their_order() {
    type Row = (u16, String, BTreeMap<u8, Vec<bool>>);
    let rows: Vec<Row> = vec![
        (1, "one".to_owned(), BTreeMap::from([(2, vec![true])])),
        (2, String::new(), BTreeMap::new()),
        (3, "three".to_owned(), BTreeMap::from([(0, vec![]), (9, vec![false, true])])),
    ];
    let schema = Row::schema();
    let ser = Serializer::new(&schema);
    let mut batch = ser.batch();
    for row in &rows {
        batch.push_columns(row).unwrap();
    }
    let blob = batch.finish();
    let de = Deserializer::<Row>::new_static(&schema);
    let mut read = de.rows_columns(&blob).unwrap();
    assert_eq!(read.remaining(), 3);
    for row in &rows {
        assert_eq!(&read.next().unwrap().unwrap(), row);
    }
    assert!(read.next().is_none());
    assert!(matches!(
        de.from_slice_columns(&blob),
        Err(Error::Malformed("expected a single-value blob"))
    ));
}
