//! End-to-end round-trips across the supported data model.

use carbonite::float::{Double, Single};
use carbonite::value::{Scalar, Value};
use carbonite::{
    Deserializer, DeserializeColumns, Error, Primitive, Schema, SchemaNode,
    SelfDescribingDeserializer, SelfDescribingSerializer, SerializeColumns, Serializer,
    StaticSchema, VariantNode,
};

fn prim(p: Primitive) -> Box<SchemaNode> {
    Box::new(SchemaNode::Primitive(p))
}

fn named(fields: Vec<(&str, Box<SchemaNode>)>) -> Vec<(String, SchemaNode)> {
    fields
        .into_iter()
        .map(|(name, node)| (name.to_owned(), *node))
        .collect()
}

fn shade() -> SchemaNode {
    SchemaNode::Enum {
        name: "Shade".to_owned(),
        variants: vec![
            ("Plain".to_owned(), VariantNode::Unit),
            (
                "Tinted".to_owned(),
                VariantNode::Newtype(prim(Primitive::U8)),
            ),
            (
                "Blend".to_owned(),
                VariantNode::Tuple(vec![*prim(Primitive::F32), *prim(Primitive::F32)]),
            ),
            (
                "Custom".to_owned(),
                VariantNode::Struct(named(vec![
                    ("red", prim(Primitive::U8)),
                    (
                        "alpha",
                        Box::new(SchemaNode::Option(prim(Primitive::F64))),
                    ),
                ])),
            ),
        ],
    }
}

fn kitchen() -> SchemaNode {
    let meters = SchemaNode::NewtypeStruct {
        name: "Meters".to_owned(),
        inner: prim(Primitive::F64),
    };
    let list = |p| Box::new(SchemaNode::Sequence(prim(p)));
    SchemaNode::Struct {
        name: "Kitchen".to_owned(),
        fields: named(vec![
            ("id", prim(Primitive::U128)),
            ("delta", prim(Primitive::I128)),
            ("letter", prim(Primitive::Char)),
            ("text", Box::new(SchemaNode::String)),
            ("raw", list(Primitive::U8)),
            ("flagged", list(Primitive::Bool)),
            (
                "fixed",
                Box::new(SchemaNode::Tuple(vec![*prim(Primitive::U16); 3])),
            ),
            (
                "pair",
                Box::new(SchemaNode::Tuple(vec![
                    *prim(Primitive::I8),
                    *prim(Primitive::U64),
                ])),
            ),
            (
                "maybe",
                Box::new(SchemaNode::Option(Box::new(SchemaNode::Option(prim(
                    Primitive::U32,
                ))))),
            ),
            ("shades", Box::new(SchemaNode::Sequence(Box::new(shade())))),
            (
                "lookup",
                Box::new(SchemaNode::Mapping {
                    key: Box::new(SchemaNode::String),
                    value: Box::new(meters),
                }),
            ),
            (
                "counts",
                Box::new(SchemaNode::Mapping {
                    key: prim(Primitive::U32),
                    value: prim(Primitive::I64),
                }),
            ),
            (
                "marker",
                Box::new(SchemaNode::UnitStruct {
            name: "Marker".to_owned(),
        }),
            ),
            ("unit", Box::new(SchemaNode::Unit)),
        ]),
    }
}

fn scalar(x: Scalar) -> Value {
    Value::Scalar(x)
}

fn f32v(x: f32) -> Value {
    scalar(Scalar::F32(x.to_bits()))
}

fn f64v(x: f64) -> Value {
    scalar(Scalar::F64(x.to_bits()))
}

fn text(s: &str) -> Value {
    Value::Str(s.to_owned())
}

fn meters(x: f64) -> Value {
    Value::NewtypeStruct {
        name: "Meters".to_owned(),
        inner: Box::new(f64v(x)),
    }
}

fn custom(red: u8, alpha: Value) -> Value {
    Value::StructVariant {
        index: 3,
        variant: "Custom".to_owned(),
        fields: vec![
            ("red".to_owned(), scalar(Scalar::U8(red))),
            ("alpha".to_owned(), alpha),
        ],
    }
}

fn sample_with(id: u128, shades: Vec<Value>) -> Value {
    let fields = vec![
        ("id", scalar(Scalar::U128(id))),
        ("delta", scalar(Scalar::I128(i128::MIN + 3))),
        ("letter", scalar(Scalar::Char('🦀'))),
        ("text", text("héllo — こんにちは")),
        (
            "raw",
            Value::Sequence(Vec::from([0, 255, 42].map(|x| scalar(Scalar::U8(x))))),
        ),
        (
            "flagged",
            Value::Sequence(Vec::from(
                [true, false, true].map(|x| scalar(Scalar::Bool(x))),
            )),
        ),
        (
            "fixed",
            Value::Tuple(Vec::from(
                [1, 2, u16::MAX].map(|x| scalar(Scalar::U16(x))),
            )),
        ),
        (
            "pair",
            Value::Tuple(vec![
                scalar(Scalar::I8(-8)),
                scalar(Scalar::U64(u64::MAX)),
            ]),
        ),
        ("maybe", Value::Present(Box::new(Value::Absent))),
        ("shades", Value::Sequence(shades)),
        (
            "lookup",
            Value::Mapping(vec![
                (text("a"), meters(1.5)),
                (text("b"), meters(-0.5)),
            ]),
        ),
        (
            "counts",
            Value::Mapping(vec![
                (scalar(Scalar::U32(3)), scalar(Scalar::I64(-30))),
                (scalar(Scalar::U32(5)), scalar(Scalar::I64(50))),
            ]),
        ),
        ("marker", Value::UnitStruct {
                name: "Marker".to_owned(),
            }),
        ("unit", Value::Unit),
    ];
    Value::Struct {
        name: "Kitchen".to_owned(),
        fields: fields
            .into_iter()
            .map(|(name, value)| (name.to_owned(), value))
            .collect(),
    }
}

fn sample() -> Value {
    sample_with(
        u128::MAX - 7,
        vec![
            Value::UnitVariant {
                index: 0,
                variant: "Plain".to_owned(),
            },
            Value::NewtypeVariant {
                index: 1,
                variant: "Tinted".to_owned(),
                inner: Box::new(scalar(Scalar::U8(9))),
            },
            Value::TupleVariant {
                index: 2,
                variant: "Blend".to_owned(),
                fields: vec![f32v(0.25), f32v(-3.5)],
            },
            custom(200, Value::Present(Box::new(f64v(0.125)))),
            custom(1, Value::Absent),
        ],
    )
}

fn kitchen_schema() -> Schema<()> {
    Schema::from_node(kitchen())
}

fn framed(value: &Value) -> Vec<u8> {
    let schema = kitchen_schema();
    SelfDescribingSerializer::new(&schema).to_vec(value).unwrap()
}

fn unframed(bytes: &[u8]) -> Result<Value, Error> {
    SelfDescribingDeserializer::<()>::new().from_slice(bytes)
}

#[test]
fn kitchen_sink_round_trips() {
    let value = sample();
    assert_eq!(unframed(&framed(&value)).unwrap(), value);
}

#[test]
fn self_describing_wrappers_round_trip() {
    let value = sample();
    let schema = kitchen_schema();
    let bytes = SelfDescribingSerializer::new(&schema)
        .to_vec(&value)
        .unwrap();
    let back = SelfDescribingDeserializer::<()>::new()
        .from_slice(&bytes)
        .unwrap();
    assert_eq!(back, value);
}

#[test]
fn nan_and_extremes_round_trip_bit_exact() {
    let bits: Vec<(Single, Double)> = [
        (f32::NAN, f64::NAN),
        (f32::NEG_INFINITY, f64::INFINITY),
        (-0.0, -0.0),
        (f32::MIN_POSITIVE, f64::MIN_POSITIVE),
    ]
    .map(|(a, b)| (Single(a.to_bits()), Double(b.to_bits())))
    .to_vec();
    let bytes = carbonite::to_vec_static(&bits).unwrap();
    let back: Vec<(Single, Double)> = SelfDescribingDeserializer::new()
        .from_slice_columns(&bytes)
        .unwrap();
    assert_eq!(back, bits);
    let driven = unframed(&bytes).unwrap();
    assert_eq!(
        driven,
        Value::Sequence(
            bits.iter()
                .map(|(a, b)| Value::Tuple(vec![
                    scalar(Scalar::F32(a.0)),
                    scalar(Scalar::F64(b.0))
                ]))
                .collect()
        )
    );
}

#[test]
fn schema_reuse_across_blobs_and_batches() {
    let schema = kitchen_schema();
    let ser = Serializer::new(&schema);
    let de = Deserializer::<()>::new_untraced(schema.clone());

    // Per-message blobs against one schema.
    let a = sample();
    let b = sample_with(1, vec![]);
    for value in [&a, &b] {
        let blob = ser.to_vec(value).unwrap();
        assert_eq!(&de.from_slice(&blob).unwrap(), value);
    }

    // Many rows in one blob.
    let mut batch = ser.batch();
    batch.push(&a).unwrap();
    batch.push(&b).unwrap();
    batch.push(&a).unwrap();
    assert_eq!(batch.rows(), 3);
    let blob = batch.finish();
    let mut rows = de.rows(&blob).unwrap();
    let mut back = Vec::new();
    while let Some(row) = rows.next() {
        back.push(row.unwrap());
    }
    assert_eq!(back, vec![sample(), b, a]);
}

fn round_trip<T>(value: &T) -> T
where
    T: SerializeColumns + for<'de> DeserializeColumns<'de>,
{
    let bytes = carbonite::to_vec_static(value).unwrap();
    // The schema-driven path takes the same bytes.
    let schema = T::schema();
    let driven = SelfDescribingDeserializer::<T>::new()
        .from_slice(&bytes)
        .unwrap();
    assert_eq!(
        SelfDescribingSerializer::new(&schema).to_vec(&driven).unwrap(),
        bytes
    );
    SelfDescribingDeserializer::new()
        .from_slice_columns(&bytes)
        .unwrap()
}

#[test]
fn top_level_primitives_and_containers() {
    assert_eq!(round_trip(&42u8), 42);
    assert_eq!(round_trip(&-1i64), -1);
    assert_eq!(round_trip(&'é'), 'é');
    assert!(round_trip(&true));
    assert_eq!(round_trip(&String::from("solo")), "solo");
    assert_eq!(round_trip(&Some(7u32)), Some(7));
    assert_eq!(round_trip(&None::<String>), None);
    assert_eq!(round_trip(&Vec::<u64>::new()), Vec::<u64>::new());
    assert_eq!(
        round_trip(&vec![vec![1u8], vec![], vec![2, 3]]),
        vec![vec![1u8], vec![], vec![2, 3]]
    );
}

#[test]
fn borrowed_strings_deserialize_zero_copy() {
    let schema = <(String, Vec<u8>)>::schema();
    let blob = Serializer::new(&schema)
        .to_vec_columns(&("zero copy".to_owned(), vec![1, 2]))
        .unwrap();
    let de = Deserializer::<(&str, Vec<u8>)>::new_static(schema.cast());
    let (text, bytes) = de.from_slice_columns(&blob).unwrap();
    assert_eq!(text, "zero copy");
    assert_eq!(bytes, [1, 2]);
    assert!(blob.as_ptr_range().contains(&text.as_ptr()));
}

#[test]
fn corrupted_input_errors_cleanly() {
    let bytes = framed(&sample());

    // Bad magic.
    let mut bad = bytes.clone();
    bad[0] = b'X';
    assert!(matches!(unframed(&bad), Err(Error::Malformed(_))));

    // Truncation anywhere must never panic.
    for cut in 0..bytes.len() {
        assert!(unframed(&bytes[..cut]).is_err());
    }
}

#[test]
fn skip_serializing_if_is_rejected() {
    let schema: Schema<()> = Schema::from_node(SchemaNode::Struct {
        name: "Sparse".to_owned(),
        fields: named(vec![(
            "note",
            Box::new(SchemaNode::Option(Box::new(SchemaNode::String))),
        )]),
    });
    let ser = Serializer::new(&schema);
    let sparse = |fields: Vec<(String, Value)>| Value::Struct {
        name: "Sparse".to_owned(),
        fields,
    };
    // Present value serializes fine...
    ser.to_vec(&sparse(vec![(
        "note".to_owned(),
        Value::Present(Box::new(text("x"))),
    )]))
    .unwrap();
    // ...but a skipped field would leave the row incomplete.
    assert!(matches!(
        ser.to_vec(&sparse(vec![])),
        Err(Error::IncompleteRow)
    ));
}

#[test]
fn a_failed_row_leaves_the_batch_as_it_was() {
    let schema = kitchen_schema();
    let ser = Serializer::new(&schema);
    let mut batch = ser.batch();
    batch.push(&sample()).unwrap();
    // Fails late, past columns that were already written.
    let Value::Struct { name, mut fields } = sample() else {
        panic!("expected a struct");
    };
    fields.pop();
    assert!(matches!(
        batch.push(&Value::Struct { name, fields }),
        Err(Error::IncompleteRow)
    ));
    assert_eq!(batch.rows(), 1);
    assert_eq!(batch.finish(), ser.to_vec(&sample()).unwrap());
}
