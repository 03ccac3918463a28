//! The public API surface: the shapes and guarantees downstream code is
//! allowed to depend on.

use std::fmt::Debug;

use carbonite::error::Fault;
use carbonite::float::Single;
use carbonite::get::Cur;
use carbonite::put::Row;
use carbonite::shape::Shape;
use carbonite::typed_ser::{Base, Image, Modeled, Walk};
use carbonite::value::{Scalar, Val, Value};
use carbonite::{
    Batch, ColumnCursor, Deserializer, DeserializeColumns, Error, Primitive, Rows, RowsColumns,
    Schema, SchemaNode, SelfDescribingDeserializer, SelfDescribingSerializer, SerializeColumns,
    Serializer, StaticSchema,
};

#[derive(PartialEq, Debug, Clone)]
struct Reading {
    sensor: u16,
    celsius: f32,
}

impl Modeled for Reading {
    fn val(&self, _: Walk) -> Val {
        unreachable!()
    }
}

impl StaticSchema for Reading {
    fn node() -> Shape {
        unreachable!()
    }

    fn lemma_node() {}

    fn schema_node() -> SchemaNode {
        SchemaNode::Struct {
            name: "Reading".to_owned(),
            fields: vec![
                ("sensor".to_owned(), SchemaNode::Primitive(Primitive::U16)),
                ("celsius".to_owned(), SchemaNode::Primitive(Primitive::F32)),
            ],
        }
    }

    fn columns() -> usize {
        2
    }

    fn fixed_width() -> Option<usize> {
        None
    }
}

impl SerializeColumns for Reading {
    fn writes(&self) -> bool {
        true
    }

    fn image(&self, _: Walk) -> Image {
        unreachable!()
    }

    fn lemma_image(&self, _: Walk, _: Base, _: Row) {}

    fn serialize_columns(&self, columns: &mut [Vec<u8>]) -> carbonite::Result<()> {
        self.sensor.serialize_columns(&mut columns[..1])?;
        Single(self.celsius.to_bits()).serialize_columns(&mut columns[1..])
    }
}

impl<'de> DeserializeColumns<'de> for Reading {
    fn sound() -> bool {
        true
    }

    fn read(_: Cur) -> Result<(Val, Cur), Fault> {
        unreachable!()
    }

    fn lemma_read(_: Base, _: Cur) {}

    fn deserialize_columns(cursors: &mut [ColumnCursor<'de>]) -> carbonite::Result<Self> {
        Ok(Reading {
            sensor: u16::deserialize_columns(&mut cursors[..1])?,
            celsius: f32::from_bits(Single::deserialize_columns(&mut cursors[1..])?.0),
        })
    }
}

/// A reading in the terms in which it presents itself.
fn presented(reading: &Reading) -> Value {
    Value::Struct {
        name: "Reading".to_owned(),
        fields: vec![
            ("sensor".to_owned(), Value::Scalar(Scalar::U16(reading.sensor))),
            (
                "celsius".to_owned(),
                Value::Scalar(Scalar::F32(reading.celsius.to_bits())),
            ),
        ],
    }
}

/// What a reading was before it had a temperature.
struct Older {
    sensor: u16,
}

impl Modeled for Older {
    fn val(&self, _: Walk) -> Val {
        unreachable!()
    }
}

impl StaticSchema for Older {
    fn node() -> Shape {
        unreachable!()
    }

    fn lemma_node() {}

    fn schema_node() -> SchemaNode {
        SchemaNode::Struct {
            name: "Older".to_owned(),
            fields: vec![("sensor".to_owned(), SchemaNode::Primitive(Primitive::U16))],
        }
    }

    fn columns() -> usize {
        1
    }

    fn fixed_width() -> Option<usize> {
        None
    }
}

impl SerializeColumns for Older {
    fn writes(&self) -> bool {
        true
    }

    fn image(&self, _: Walk) -> Image {
        unreachable!()
    }

    fn lemma_image(&self, _: Walk, _: Base, _: Row) {}

    fn serialize_columns(&self, columns: &mut [Vec<u8>]) -> carbonite::Result<()> {
        self.sensor.serialize_columns(columns)
    }
}

fn readings(n: u16) -> Vec<Reading> {
    (0..n)
        .map(|sensor| Reading {
            sensor,
            celsius: f32::from(sensor) * 0.25,
        })
        .collect()
}

#[test]
fn columns_is_declared_once() {
    assert_eq!(Reading::columns(), 2);
    assert_eq!(<Vec<Reading>>::columns(), 3);
    assert_eq!(<Option<String>>::columns(), 3);
    assert_eq!(<()>::columns(), 0);
}

#[test]
fn column_cursor_is_constructible_downstream() {
    let mut cursor = ColumnCursor::new(&[0x2a, 0, 0, 0]);
    assert_eq!(cursor.remaining(), 4);
    assert_eq!(u32::from_le_bytes(cursor.fixed().unwrap()), 42);
    assert!(cursor.at_end());
}

/// A batch written with `push_columns` must be readable through the
/// monomorphized reader, not only through the schema-driven one.
#[test]
fn rows_columns_reads_a_batch_written_with_push_columns() {
    let schema = Reading::schema();
    let ser = Serializer::new(&schema);
    let mut batch = ser.batch();
    let expected = readings(64);
    for reading in &expected {
        batch.push_columns(reading).unwrap();
    }
    let bytes = batch.finish();

    let de = Deserializer::new_static(Reading::schema());
    let mut rows: RowsColumns<'_, Reading> = de.rows_columns(&bytes).unwrap();
    let mut via_columns = Vec::new();
    while let Some(row) = rows.next() {
        via_columns.push(row.unwrap());
    }
    let mut plain = de.rows(&bytes).unwrap();
    let mut via_schema = Vec::new();
    while let Some(row) = plain.next() {
        via_schema.push(row.unwrap());
    }

    assert_eq!(via_columns, expected);
    assert_eq!(
        via_schema,
        expected.iter().map(presented).collect::<Vec<_>>()
    );
}

/// Once a row iterator has ended it stays ended.
#[test]
fn handle_types_implement_debug() {
    fn assert_debug<T: Debug>() {}
    assert_debug::<Serializer<'_, Reading>>();
    assert_debug::<Deserializer<Reading>>();
    assert_debug::<Batch<'_, Reading>>();
    assert_debug::<Rows<'_, '_, Reading>>();
    assert_debug::<RowsColumns<'_, Reading>>();
    assert_debug::<SelfDescribingSerializer<'_, Reading>>();
    assert_debug::<SelfDescribingDeserializer<Reading>>();
    assert_debug::<ColumnCursor<'_>>();
    assert_debug::<Schema<Reading>>();
    assert_debug::<Error>();

    // Debug output should say something useful, not just the type name.
    let schema = Reading::schema();
    let rendered = format!("{:?}", Serializer::new(&schema));
    assert!(rendered.contains("Reading"), "{rendered}");
    assert!(rendered.contains("columns"), "{rendered}");
}

#[test]
fn row_iterators_are_fused() {
    let schema = Reading::schema();
    let bytes = Serializer::new(&schema)
        .to_vec_columns(&readings(1)[0])
        .unwrap();
    let de = Deserializer::new_static(Reading::schema());
    let mut rows = de.rows(&bytes).unwrap();
    assert!(rows.next().is_some());
    assert!(rows.next().is_none());
    assert!(rows.next().is_none());
    let mut columns: RowsColumns<'_, Reading> = de.rows_columns(&bytes).unwrap();
    assert!(columns.next().is_some());
    assert!(columns.next().is_none());
    assert!(columns.next().is_none());
}

#[test]
fn rows_columns_rejects_a_foreign_schema() {
    let bytes = carbonite::to_vec_static(&Older { sensor: 1 }).unwrap();
    let (schema, data) = carbonite::peek_schema::<Reading>(&bytes).unwrap();
    let de = Deserializer::new_static(schema);
    let attempt: Result<RowsColumns<'_, Reading>, _> = de.rows_columns(data);
    assert!(matches!(attempt, Err(Error::SchemaMismatch { .. })));
}

/// The self-describing writer must be able to use the fast path too, and
/// produce the same bytes as the schema-driven writer.
#[test]
fn self_describing_columnar_writer_matches_the_serde_writer() {
    let schema = Reading::schema();
    let ser = SelfDescribingSerializer::new(&schema);
    let value = Reading {
        sensor: 3,
        celsius: 1.5,
    };
    assert_eq!(
        ser.to_vec_columns(&value).unwrap(),
        ser.to_vec(&presented(&value)).unwrap()
    );
    let bytes = carbonite::to_vec_static(&value).unwrap();
    assert_eq!(bytes, ser.to_vec(&presented(&value)).unwrap());

    let de = SelfDescribingDeserializer::<Reading>::new();
    assert_eq!(de.from_slice_columns(&bytes).unwrap(), value);
    assert_eq!(de.from_slice(&bytes).unwrap(), presented(&value));
}

#[test]
fn finish_into_reuses_the_column_buffers() {
    let schema = Reading::schema();
    let ser = Serializer::new(&schema);
    let mut batch = ser.batch();
    let mut blob = Vec::new();

    for reading in &readings(4) {
        blob.clear();
        batch.push_columns(reading).unwrap();
        batch.finish_into(&mut blob);
        assert_eq!(batch.rows(), 0, "finish_into leaves the batch empty");

        let de = Deserializer::new_static(Reading::schema());
        let back: Reading = de.from_slice_columns(&blob).unwrap();
        assert_eq!(&back, reading);
    }
}

#[test]
fn reset_discards_pushed_rows() {
    let schema = Reading::schema();
    let ser = Serializer::new(&schema);
    let mut batch = ser.batch();
    batch.push_columns(&readings(1)[0]).unwrap();
    assert_eq!(batch.rows(), 1);
    batch.reset();
    assert_eq!(batch.rows(), 0);
    assert_eq!(batch.finish(), ser.batch().finish());
}

#[test]
fn a_failed_push_leaves_the_batch_alone() {
    let schema = Reading::schema();
    let ser = Serializer::new(&schema);
    let mut batch = ser.batch();
    batch.push(&presented(&readings(1)[0])).unwrap();
    let half = Value::Struct {
        name: "Reading".to_owned(),
        fields: vec![("sensor".to_owned(), Value::Scalar(Scalar::U16(1)))],
    };
    assert!(matches!(batch.push(&half), Err(Error::IncompleteRow)));
    assert_eq!(batch.rows(), 1);
    let mut again = ser.batch();
    again.push(&presented(&readings(1)[0])).unwrap();
    assert_eq!(batch.finish(), again.finish());
}

#[test]
fn schema_bytes_lead_with_the_schema_version() {
    let bytes = Reading::schema().to_bytes();
    assert_eq!(bytes[0] as u64, carbonite::SCHEMA_VERSION);
    assert_eq!(
        Schema::<Reading>::from_bytes(&bytes).unwrap(),
        Reading::schema()
    );
}

#[test]
fn a_newer_schema_version_is_rejected_rather_than_misread() {
    let mut bytes = Reading::schema().to_bytes();
    bytes[0] = (carbonite::SCHEMA_VERSION + 1) as u8;
    assert!(matches!(
        Schema::<Reading>::from_bytes(&bytes),
        Err(Error::UnsupportedVersion { what: "schema", .. })
    ));
}

#[test]
fn a_newer_frame_version_is_rejected_rather_than_misread() {
    let mut bytes = carbonite::to_vec_static(&readings(1)[0]).unwrap();
    bytes[carbonite::MAGIC.len()] = (carbonite::FORMAT_VERSION + 1) as u8;
    assert!(matches!(
        SelfDescribingDeserializer::<Reading>::new().from_slice(&bytes),
        Err(Error::UnsupportedVersion { what: "frame", .. })
    ));
}

#[test]
fn a_frame_can_be_sniffed_and_its_schema_read_without_decoding() {
    let value = readings(1).remove(0);
    let bytes = carbonite::to_vec_static(&value).unwrap();

    assert!(carbonite::is_self_describing(&bytes));
    assert!(!carbonite::is_self_describing(b"not carbonite"));

    let (schema, data) = carbonite::peek_schema::<Reading>(&bytes).unwrap();
    assert_eq!(schema, Reading::schema());
    assert_eq!(schema.to_string(), "struct `Reading`");

    // The data half is a plain blob the writer's schema can decode.
    let back = Deserializer::new_static(schema).from_slice(data).unwrap();
    assert_eq!(back, presented(&value));

    assert!(matches!(
        carbonite::peek_schema::<Reading>(b"nope"),
        Err(Error::Malformed(_))
    ));
}

#[test]
fn the_deserializer_reports_which_path_it_took() {
    assert!(Deserializer::new_static(Reading::schema()).uses_fast_path());

    let older: Schema<Reading> = Older::schema().cast();
    assert!(!Deserializer::new_static(older).uses_fast_path());
    assert!(!Deserializer::new_untraced(Reading::schema()).uses_fast_path());
}

#[test]
fn schema_displays_its_shape() {
    assert_eq!(Reading::schema().to_string(), "struct `Reading`");
    assert_eq!(<Vec<Reading>>::schema().to_string(), "sequence");
    assert_eq!(<Option<u8>>::schema().to_string(), "option<u8>");
}

#[test]
fn errors_say_what_went_wrong() {
    fn assert_debug<T: Debug>() {}
    assert_debug::<Error>();
    assert_debug::<Schema<Reading>>();
    assert_debug::<ColumnCursor<'_>>();
    assert_eq!(
        Error::SchemaMismatch {
            expected: "u8".to_owned(),
            found: "string".to_owned()
        }
        .to_string(),
        "schema mismatch: expected u8, found string"
    );
    assert_eq!(
        Error::LimitExceeded {
            what: "row count",
            claimed: 12,
            limit: 3
        }
        .to_string(),
        "row count of 12 exceeds the 3 that the input can justify"
    );
}

/// Every engine takes its schema borrowed, to share one long-lived schema, or
/// owned, when it was parsed from the wire for this engine alone.
#[test]
fn engines_take_schemas_borrowed_or_owned() {
    let value = Reading {
        sensor: 1,
        celsius: 20.0,
    };
    let schema = Reading::schema();

    let borrowed = Serializer::new(&schema).to_vec_columns(&value).unwrap();
    let owned = Serializer::new(Reading::schema())
        .to_vec_columns(&value)
        .unwrap();
    assert_eq!(borrowed, owned);

    let de_borrowed = Deserializer::new_static(&schema);
    let de_owned = Deserializer::new_static(Reading::schema());
    let via_borrowed: Reading = de_borrowed.from_slice_columns(&borrowed).unwrap();
    let via_owned: Reading = de_owned.from_slice_columns(&owned).unwrap();
    assert_eq!(via_borrowed, via_owned);

    let framed = SelfDescribingSerializer::new(&schema)
        .to_vec_columns(&value)
        .unwrap();
    assert_eq!(
        framed,
        SelfDescribingSerializer::new(Reading::schema())
            .to_vec_columns(&value)
            .unwrap()
    );
}
