//! Structs and enums with columnar code of their own, as the derive plans it.

use std::collections::BTreeMap;
use std::fmt::Debug;
use std::marker::PhantomData;

use carbonite::columnar::{invalid_variant, skipped_variant, write_varint};
use carbonite::derive::rename::RenameRule;
use carbonite::error::Fault;
use carbonite::float::{Double, Single};
use carbonite::get::Cur;
use carbonite::nonzero::NonZero;
use carbonite::put::Row;
use carbonite::shape::Shape;
use carbonite::time::Duration;
use carbonite::typed_ser::{Base, Image, Modeled, Walk};
use carbonite::value::{Scalar, Val, Value};
use carbonite::{
    ColumnCursor, Deserializer, DeserializeColumns, SchemaNode, SelfDescribingDeserializer,
    SelfDescribingSerializer, SerializeColumns, Serializer, StaticSchema, VariantNode,
};

/// A type, as a struct of the parts of a tuple that holds its fields.
trait Record: Sized {
    type Refs<'a>: SerializeColumns
    where
        Self: 'a;
    type Parts: for<'de> DeserializeColumns<'de>;

    fn node() -> SchemaNode;
    fn refs(&self) -> Self::Refs<'_>;
    fn build(parts: Self::Parts) -> Self;

    /// The value in the terms in which it presents itself.
    fn present(&self) -> Value;
}

/// The columnar code of a [`Record`].
#[derive(PartialEq, Debug, Clone)]
struct Typed<R>(R);

impl<R> Modeled for Typed<R> {
    fn val(&self, _: Walk) -> Val {
        unreachable!()
    }
}

impl<R: Record> StaticSchema for Typed<R> {
    fn node() -> Shape {
        unreachable!()
    }

    fn lemma_node() {}

    fn schema_node() -> SchemaNode {
        R::node()
    }

    fn columns() -> usize {
        R::Parts::columns()
    }

    fn fixed_width() -> Option<usize> {
        None
    }
}

impl<R: Record> SerializeColumns for Typed<R> {
    fn writes(&self) -> bool {
        true
    }

    fn image(&self, _: Walk) -> Image {
        unreachable!()
    }

    fn lemma_image(&self, _: Walk, _: Base, _: Row) {}

    fn serialize_columns(&self, columns: &mut [Vec<u8>]) -> carbonite::Result<()> {
        self.0.refs().serialize_columns(columns)
    }
}

impl<'de, R: Record> DeserializeColumns<'de> for Typed<R> {
    fn sound() -> bool {
        true
    }

    fn read(_: Cur) -> Result<(Val, Cur), Fault> {
        unreachable!()
    }

    fn lemma_read(_: Base, _: Cur) {}

    fn deserialize_columns(cursors: &mut [ColumnCursor<'de>]) -> carbonite::Result<Self> {
        Ok(Typed(R::build(R::Parts::deserialize_columns(cursors)?)))
    }
}

fn scalar(x: Scalar) -> Value {
    Value::Scalar(x)
}

fn text(s: &str) -> Value {
    Value::Str(s.to_owned())
}

fn f64v(x: f64) -> Value {
    scalar(Scalar::F64(x.to_bits()))
}

fn double(x: f64) -> Double {
    Double(x.to_bits())
}

#[derive(PartialEq, Debug, Clone)]
struct Marker;

impl Record for Marker {
    type Refs<'a> = ();
    type Parts = ();

    fn node() -> SchemaNode {
        SchemaNode::UnitStruct {
            name: "Marker".to_owned(),
        }
    }

    fn refs(&self) {}

    fn build(_: ()) -> Self {
        Marker
    }

    fn present(&self) -> Value {
        Value::UnitStruct {
            name: "Marker".to_owned(),
        }
    }
}

#[derive(PartialEq, Debug, Clone)]
struct Meters(f64);

impl Record for Meters {
    type Refs<'a> = (Double,);
    type Parts = (Double,);

    fn node() -> SchemaNode {
        SchemaNode::NewtypeStruct {
            name: "Meters".to_owned(),
            inner: Box::new(Double::schema_node()),
        }
    }

    fn refs(&self) -> (Double,) {
        (double(self.0),)
    }

    fn build(parts: (Double,)) -> Self {
        Meters(f64::from_bits(parts.0 .0))
    }

    fn present(&self) -> Value {
        Value::NewtypeStruct {
            name: "Meters".to_owned(),
            inner: Box::new(f64v(self.0)),
        }
    }
}

#[derive(PartialEq, Debug, Clone)]
struct Pair(u8, String);

impl Record for Pair {
    type Refs<'a> = (u8, &'a String);
    type Parts = (u8, String);

    fn node() -> SchemaNode {
        SchemaNode::TupleStruct {
            name: "Pair".to_owned(),
            fields: vec![u8::schema_node(), String::schema_node()],
        }
    }

    fn refs(&self) -> (u8, &String) {
        (self.0, &self.1)
    }

    fn build(parts: (u8, String)) -> Self {
        Pair(parts.0, parts.1)
    }

    fn present(&self) -> Value {
        Value::TupleStruct {
            name: "Pair".to_owned(),
            fields: vec![scalar(Scalar::U8(self.0)), text(&self.1)],
        }
    }
}

#[derive(PartialEq, Debug, Clone)]
enum Shade {
    Plain,
    Tinted(u8),
    Blend(f32, f32),
    Custom {
        red: u8,
        alpha: Option<f64>,
    },
    /// Skipped on the wire.
    Secret(String),
}

impl Shade {
    fn present(&self) -> Value {
        match self {
            Shade::Plain => Value::UnitVariant {
                index: 0,
                variant: "Plain".to_owned(),
            },
            Shade::Tinted(x) => Value::NewtypeVariant {
                index: 1,
                variant: "Tinted".to_owned(),
                inner: Box::new(scalar(Scalar::U8(*x))),
            },
            Shade::Blend(x, y) => Value::TupleVariant {
                index: 2,
                variant: "Blend".to_owned(),
                fields: vec![
                    scalar(Scalar::F32(x.to_bits())),
                    scalar(Scalar::F32(y.to_bits())),
                ],
            },
            Shade::Custom { red, alpha } => Value::StructVariant {
                index: 3,
                variant: "Custom".to_owned(),
                fields: vec![
                    ("red".to_owned(), scalar(Scalar::U8(*red))),
                    (
                        "alpha".to_owned(),
                        match alpha {
                            Some(x) => Value::Present(Box::new(f64v(*x))),
                            None => Value::Absent,
                        },
                    ),
                ],
            },
            Shade::Secret(s) => Value::NewtypeVariant {
                index: 4,
                variant: "Secret".to_owned(),
                inner: Box::new(text(s)),
            },
        }
    }
}

impl Modeled for Shade {
    fn val(&self, _: Walk) -> Val {
        unreachable!()
    }
}

impl StaticSchema for Shade {
    fn node() -> Shape {
        unreachable!()
    }

    fn lemma_node() {}

    fn schema_node() -> SchemaNode {
        SchemaNode::Enum {
            name: "Shade".to_owned(),
            variants: vec![
                ("Plain".to_owned(), VariantNode::Unit),
                (
                    "Tinted".to_owned(),
                    VariantNode::Newtype(Box::new(u8::schema_node())),
                ),
                (
                    "Blend".to_owned(),
                    VariantNode::Tuple(vec![Single::schema_node(), Single::schema_node()]),
                ),
                (
                    "Custom".to_owned(),
                    VariantNode::Struct(vec![
                        ("red".to_owned(), u8::schema_node()),
                        ("alpha".to_owned(), <Option<Double>>::schema_node()),
                    ]),
                ),
            ],
        }
    }

    fn columns() -> usize {
        7
    }

    fn fixed_width() -> Option<usize> {
        None
    }
}

impl SerializeColumns for Shade {
    fn writes(&self) -> bool {
        true
    }

    fn image(&self, _: Walk) -> Image {
        unreachable!()
    }

    fn lemma_image(&self, _: Walk, _: Base, _: Row) {}

    fn serialize_columns(&self, columns: &mut [Vec<u8>]) -> carbonite::Result<()> {
        match self {
            Shade::Plain => {
                write_varint(&mut columns[0], 0);
                Ok(())
            }
            Shade::Tinted(x) => {
                write_varint(&mut columns[0], 1);
                x.serialize_columns(&mut columns[1..2])
            }
            Shade::Blend(x, y) => {
                write_varint(&mut columns[0], 2);
                (Single(x.to_bits()), Single(y.to_bits())).serialize_columns(&mut columns[2..4])
            }
            Shade::Custom { red, alpha } => {
                write_varint(&mut columns[0], 3);
                (*red, alpha.map(double)).serialize_columns(&mut columns[4..7])
            }
            Shade::Secret(_) => Err(skipped_variant("Secret")),
        }
    }
}

impl<'de> DeserializeColumns<'de> for Shade {
    fn sound() -> bool {
        true
    }

    fn read(_: Cur) -> Result<(Val, Cur), Fault> {
        unreachable!()
    }

    fn lemma_read(_: Base, _: Cur) {}

    fn deserialize_columns(cursors: &mut [ColumnCursor<'de>]) -> carbonite::Result<Self> {
        match cursors[0].varint()? {
            0 => Ok(Shade::Plain),
            1 => Ok(Shade::Tinted(u8::deserialize_columns(&mut cursors[1..2])?)),
            2 => {
                let (x, y) = <(Single, Single)>::deserialize_columns(&mut cursors[2..4])?;
                Ok(Shade::Blend(f32::from_bits(x.0), f32::from_bits(y.0)))
            }
            3 => {
                let (red, alpha) =
                    <(u8, Option<Double>)>::deserialize_columns(&mut cursors[4..7])?;
                Ok(Shade::Custom {
                    red,
                    alpha: alpha.map(|x| f64::from_bits(x.0)),
                })
            }
            other => Err(invalid_variant(other)),
        }
    }
}

type Lookup = BTreeMap<String, Typed<Meters>>;
type Outcome = Result<u32, String>;

#[derive(PartialEq, Debug)]
struct NoHeap {
    id: u128,
    letter: char,
    text: String,
    signed: isize,
    non_zero: NonZero<u32>,
    /// Skipped on the wire.
    cache: Option<String>,
    fixed: [u16; 3],
    pair: (i8, u64, Typed<Pair>),
    maybe: Option<Option<u32>>,
    shades: Vec<Shade>,
    lookup: Lookup,
    /// A transparent struct of bytes.
    wrapper: Vec<u8>,
    outcome: Outcome,
    elapsed: Duration,
    marker: Typed<Marker>,
    ghost: PhantomData<u8>,
    unit: (),
    flags: Vec<bool>,
}

impl Record for NoHeap {
    type Refs<'a> = (
        (u128, char, &'a String, isize, &'a NonZero<u32>, &'a [u16; 3]),
        &'a (i8, u64, Typed<Pair>),
        Option<Option<u32>>,
        &'a Vec<Shade>,
        &'a Lookup,
        &'a Vec<u8>,
        &'a Outcome,
        &'a Duration,
        &'a Typed<Marker>,
        PhantomData<u8>,
        (),
        &'a Vec<bool>,
    );
    type Parts = (
        (u128, char, String, isize, NonZero<u32>, [u16; 3]),
        (i8, u64, Typed<Pair>),
        Option<Option<u32>>,
        Vec<Shade>,
        Lookup,
        Vec<u8>,
        Outcome,
        Duration,
        Typed<Marker>,
        PhantomData<u8>,
        (),
        Vec<bool>,
    );

    fn node() -> SchemaNode {
        SchemaNode::Struct {
            name: "NoHeap".to_owned(),
            fields: vec![
                ("id".to_owned(), u128::schema_node()),
                ("letter".to_owned(), char::schema_node()),
                ("text".to_owned(), String::schema_node()),
                ("signed".to_owned(), isize::schema_node()),
                ("non_zero".to_owned(), <NonZero<u32>>::schema_node()),
                ("fixed".to_owned(), <[u16; 3]>::schema_node()),
                (
                    "pair".to_owned(),
                    <(i8, u64, Typed<Pair>)>::schema_node(),
                ),
                ("maybe".to_owned(), <Option<Option<u32>>>::schema_node()),
                ("shades".to_owned(), <Vec<Shade>>::schema_node()),
                ("lookup".to_owned(), Lookup::schema_node()),
                ("wrapper".to_owned(), <Vec<u8>>::schema_node()),
                ("outcome".to_owned(), Outcome::schema_node()),
                ("elapsed".to_owned(), Duration::schema_node()),
                ("marker".to_owned(), <Typed<Marker>>::schema_node()),
                ("ghost".to_owned(), <PhantomData<u8>>::schema_node()),
                ("unit".to_owned(), <()>::schema_node()),
                ("flags".to_owned(), <Vec<bool>>::schema_node()),
            ],
        }
    }

    fn refs(&self) -> Self::Refs<'_> {
        (
            (
                self.id,
                self.letter,
                &self.text,
                self.signed,
                &self.non_zero,
                &self.fixed,
            ),
            &self.pair,
            self.maybe,
            &self.shades,
            &self.lookup,
            &self.wrapper,
            &self.outcome,
            &self.elapsed,
            &self.marker,
            self.ghost,
            self.unit,
            &self.flags,
        )
    }

    fn build(parts: Self::Parts) -> Self {
        let (id, letter, text, signed, non_zero, fixed) = parts.0;
        NoHeap {
            id,
            letter,
            text,
            signed,
            non_zero,
            cache: None,
            fixed,
            pair: parts.1,
            maybe: parts.2,
            shades: parts.3,
            lookup: parts.4,
            wrapper: parts.5,
            outcome: parts.6,
            elapsed: parts.7,
            marker: parts.8,
            ghost: parts.9,
            unit: parts.10,
            flags: parts.11,
        }
    }

    fn present(&self) -> Value {
        let fields: Vec<(&str, Value)> = vec![
            ("id", scalar(Scalar::U128(self.id))),
            ("letter", scalar(Scalar::Char(self.letter))),
            ("text", text(&self.text)),
            ("signed", scalar(Scalar::I64(self.signed as i64))),
            ("non_zero", scalar(Scalar::U32(7))),
            (
                "fixed",
                Value::Tuple(self.fixed.iter().map(|x| scalar(Scalar::U16(*x))).collect()),
            ),
            (
                "pair",
                Value::Tuple(vec![
                    scalar(Scalar::I8(self.pair.0)),
                    scalar(Scalar::U64(self.pair.1)),
                    self.pair.2 .0.present(),
                ]),
            ),
            (
                "maybe",
                match self.maybe {
                    Some(Some(x)) => Value::Present(Box::new(Value::Present(Box::new(scalar(
                        Scalar::U32(x),
                    ))))),
                    Some(None) => Value::Present(Box::new(Value::Absent)),
                    None => Value::Absent,
                },
            ),
            (
                "shades",
                Value::Sequence(self.shades.iter().map(Shade::present).collect()),
            ),
            (
                "lookup",
                Value::Mapping(
                    self.lookup
                        .iter()
                        .map(|(k, v)| (text(k), v.0.present()))
                        .collect(),
                ),
            ),
            (
                "wrapper",
                Value::Sequence(self.wrapper.iter().map(|x| scalar(Scalar::U8(*x))).collect()),
            ),
            (
                "outcome",
                match &self.outcome {
                    Ok(x) => Value::NewtypeVariant {
                        index: 0,
                        variant: "Ok".to_owned(),
                        inner: Box::new(scalar(Scalar::U32(*x))),
                    },
                    Err(e) => Value::NewtypeVariant {
                        index: 1,
                        variant: "Err".to_owned(),
                        inner: Box::new(text(e)),
                    },
                },
            ),
            (
                "elapsed",
                Value::Struct {
                    name: "Duration".to_owned(),
                    fields: vec![
                        ("secs".to_owned(), scalar(Scalar::U64(88))),
                        ("nanos".to_owned(), scalar(Scalar::U32(123_456_789))),
                    ],
                },
            ),
            ("marker", self.marker.0.present()),
            (
                "ghost",
                Value::UnitStruct {
                    name: "PhantomData".to_owned(),
                },
            ),
            ("unit", Value::Unit),
            (
                "flags",
                Value::Sequence(self.flags.iter().map(|x| scalar(Scalar::Bool(*x))).collect()),
            ),
        ];
        Value::Struct {
            name: "NoHeap".to_owned(),
            fields: fields
                .into_iter()
                .map(|(name, value)| (name.to_owned(), value))
                .collect(),
        }
    }
}

fn sample() -> NoHeap {
    NoHeap {
        id: u128::MAX - 7,
        letter: '🦀',
        text: "héllo — こんにちは".to_owned(),
        signed: -42,
        non_zero: NonZero::new(7).unwrap(),
        cache: None,
        fixed: [1, 2, u16::MAX],
        pair: (-8, u64::MAX, Typed(Pair(3, "pair".to_owned()))),
        maybe: Some(None),
        shades: vec![
            Shade::Plain,
            Shade::Tinted(9),
            Shade::Blend(0.25, -3.5),
            Shade::Custom {
                red: 200,
                alpha: Some(0.125),
            },
            Shade::Custom {
                red: 1,
                alpha: None,
            },
        ],
        lookup: BTreeMap::from([
            ("a".to_owned(), Typed(Meters(1.5))),
            ("b".to_owned(), Typed(Meters(-0.5))),
        ]),
        wrapper: vec![1, 2, 3],
        outcome: Err("nope".to_owned()),
        elapsed: Duration::new(88, 123_456_789).unwrap(),
        marker: Typed(Marker),
        ghost: PhantomData,
        unit: (),
        flags: vec![true, false, true],
    }
}

/// Both writers produce identical bytes, and both readers accept either
/// writer's output.
fn assert_paths_interchangeable<T>(value: &T, plain: &Value)
where
    T: SerializeColumns + for<'de> DeserializeColumns<'de> + PartialEq + Debug,
{
    let schema = T::schema();
    let ser = Serializer::new(&schema);
    let serde_bytes = ser.to_vec(plain).expect("serde path serialize");
    let columnar_bytes = ser.to_vec_columns(value).expect("columnar path serialize");
    assert_eq!(
        serde_bytes, columnar_bytes,
        "writers must produce identical bytes"
    );

    let de = Deserializer::<T>::new_static(T::schema());
    let via_serde = de.from_slice(&serde_bytes).expect("serde path deserialize");
    let via_columnar = de
        .from_slice_columns(&serde_bytes)
        .expect("columnar path deserialize");
    assert_eq!(&via_serde, plain);
    assert_eq!(&via_columnar, value);
}

#[test]
fn kitchen_sink_paths_are_interchangeable() {
    let value = sample();
    let plain = value.present();
    assert_paths_interchangeable(&Typed(value), &plain);
    assert_paths_interchangeable(
        &vec![Typed(sample()), Typed(sample())],
        &Value::Sequence(vec![sample().present(), sample().present()]),
    );
}

#[test]
fn batches_mix_both_writers() {
    let schema = <Vec<Shade>>::schema();
    let ser = Serializer::new(&schema);
    let rows = [
        vec![Shade::Plain, Shade::Tinted(1)],
        vec![],
        vec![Shade::Custom {
            red: 3,
            alpha: None,
        }],
    ];

    let mut serde_batch = ser.batch();
    let mut mixed_batch = ser.batch();
    for (i, row) in rows.iter().enumerate() {
        let plain = Value::Sequence(row.iter().map(Shade::present).collect());
        serde_batch.push(&plain).unwrap();
        if i % 2 == 0 {
            mixed_batch.push_columns(row).unwrap();
        } else {
            mixed_batch.push(&plain).unwrap();
        }
    }
    assert_eq!(serde_batch.finish(), mixed_batch.finish());
}

#[test]
fn columnar_write_of_skipped_variant_errors_like_serde() {
    let schema = Shade::schema();
    let ser = Serializer::new(&schema);
    let value = Shade::Secret("boo".to_owned());
    assert!(
        ser.to_vec(&value.present()).is_err(),
        "serde path must reject skipped variants"
    );
    assert!(
        ser.to_vec_columns(&value).is_err(),
        "columnar path must reject skipped variants"
    );
}

#[derive(PartialEq, Debug, Clone)]
struct Save {
    player_name: String,
    hit_points: u32,
    inventory: Vec<(String, u8)>,
}

/// What the fields of a [`Save`] are called on the wire.
fn save_names() -> [String; 3] {
    let rule = RenameRule::from_str("camelCase").unwrap();
    ["player_name", "hit_points", "inventory"].map(|name| rule.apply_to_field(name))
}

impl Record for Save {
    type Refs<'a> = (&'a String, u32, &'a Vec<(String, u8)>);
    type Parts = (String, u32, Vec<(String, u8)>);

    fn node() -> SchemaNode {
        let nodes = [
            String::schema_node(),
            u32::schema_node(),
            <Vec<(String, u8)>>::schema_node(),
        ];
        SchemaNode::Struct {
            name: "Save".to_owned(),
            fields: save_names().into_iter().zip(nodes).collect(),
        }
    }

    fn refs(&self) -> (&String, u32, &Vec<(String, u8)>) {
        (&self.player_name, self.hit_points, &self.inventory)
    }

    fn build(parts: (String, u32, Vec<(String, u8)>)) -> Self {
        Save {
            player_name: parts.0,
            hit_points: parts.1,
            inventory: parts.2,
        }
    }

    fn present(&self) -> Value {
        let items = self
            .inventory
            .iter()
            .map(|(name, n)| Value::Tuple(vec![text(name), scalar(Scalar::U8(*n))]))
            .collect();
        let values = [
            text(&self.player_name),
            scalar(Scalar::U32(self.hit_points)),
            Value::Sequence(items),
        ];
        Value::Struct {
            name: "Save".to_owned(),
            fields: save_names().into_iter().zip(values).collect(),
        }
    }
}

#[test]
fn derived_schema_round_trips_end_to_end() {
    let value = Save {
        player_name: "Ada".to_owned(),
        hit_points: 90,
        inventory: vec![("rope".to_owned(), 2), ("torch".to_owned(), 5)],
    };
    assert_eq!(save_names(), ["playerName", "hitPoints", "inventory"]);

    let schema = <Typed<Save>>::schema();
    let blob = Serializer::new(&schema).to_vec(&value.present()).unwrap();

    // new_static must detect the fast path (schemas are identical).
    let de = Deserializer::<Typed<Save>>::new_static(schema);
    assert!(de.uses_fast_path());
    assert_eq!(de.from_slice(&blob).unwrap(), value.present());
    assert_eq!(de.from_slice_columns(&blob).unwrap(), Typed(value));
}

#[derive(PartialEq, Debug)]
struct LogLine<'a> {
    message: &'a str,
    code: u32,
}

impl LogLine<'_> {
    fn present(&self) -> Value {
        Value::Struct {
            name: "LogLine".to_owned(),
            fields: vec![
                ("message".to_owned(), text(self.message)),
                ("code".to_owned(), scalar(Scalar::U32(self.code))),
            ],
        }
    }
}

impl Modeled for LogLine<'_> {
    fn val(&self, _: Walk) -> Val {
        unreachable!()
    }
}

impl StaticSchema for LogLine<'_> {
    fn node() -> Shape {
        unreachable!()
    }

    fn lemma_node() {}

    fn schema_node() -> SchemaNode {
        SchemaNode::Struct {
            name: "LogLine".to_owned(),
            fields: vec![
                ("message".to_owned(), <&str>::schema_node()),
                ("code".to_owned(), u32::schema_node()),
            ],
        }
    }

    fn columns() -> usize {
        <(&str, u32)>::columns()
    }

    fn fixed_width() -> Option<usize> {
        None
    }
}

impl<'de: 'a, 'a> DeserializeColumns<'de> for LogLine<'a> {
    fn sound() -> bool {
        true
    }

    fn read(_: Cur) -> Result<(Val, Cur), Fault> {
        unreachable!()
    }

    fn lemma_read(_: Base, _: Cur) {}

    fn deserialize_columns(cursors: &mut [ColumnCursor<'de>]) -> carbonite::Result<Self> {
        let (message, code): (&'de str, u32) = DeserializeColumns::deserialize_columns(cursors)?;
        Ok(LogLine { message, code })
    }
}

#[test]
fn borrowing_types_get_the_static_fast_path() {
    // A type that borrows cannot be traced, but it has a schema of its own, and
    // therefore the fast path and self-describing decoding.
    let value = LogLine {
        message: "zero copy",
        code: 7,
    };
    let schema = LogLine::schema();

    let blob = Serializer::new(&schema).to_vec(&value.present()).unwrap();
    let de = Deserializer::<LogLine<'_>>::new_static(schema.clone());
    let back = de.from_slice_columns(&blob).unwrap();
    assert_eq!(back, value);
    // The text is the blob's own.
    assert!(blob.as_ptr_range().contains(&back.message.as_ptr()));

    let framed = SelfDescribingSerializer::new(&schema)
        .to_vec(&value.present())
        .unwrap();
    let back = SelfDescribingDeserializer::<LogLine<'_>>::new()
        .from_slice_columns(&framed)
        .unwrap();
    assert_eq!(back, value);
}
