//! Fields whose types only ship serde impls.

use std::marker::PhantomData;
use std::rc::Rc;

use carbonite::error::Fault;
use carbonite::fallback::{Registry, Traced};
use carbonite::get::Cur;
use carbonite::layout::Layout;
use carbonite::put::Row;
use carbonite::shape::Shape;
use carbonite::shared::{ReadState, WriteState};
use carbonite::typed_ser::{Base, Image, Modeled, Walk};
use carbonite::value::{Scalar, Val, Value};
use carbonite::{
    ColumnCursor, Deserializer, DeserializeColumns, Error, Primitive, Schema, SchemaNode,
    SelfDescribingDeserializer, SerializeColumns, Serializer, StaticSchema, VariantNode,
};

/// What tracing finds for a struct of a number and a string.
fn foreign() -> SchemaNode {
    SchemaNode::Struct {
        name: "Foreign".to_owned(),
        fields: vec![
            ("a".to_owned(), SchemaNode::Primitive(Primitive::U32)),
            ("b".to_owned(), SchemaNode::String),
        ],
    }
}

#[test]
fn traces_once_and_memoizes() {
    let mut registry = Registry::new();
    assert!(registry.get(7).is_none());
    registry.enter(7, Traced::new(foreign()));
    // A concurrent trace that lands later changes nothing.
    registry.enter(7, Traced::new(SchemaNode::Unit));
    let first = registry.get(7).unwrap();
    let second = registry.get(7).unwrap();
    assert!(
        std::ptr::eq(first, second),
        "the registry must hand back one entry per type"
    );
    assert_eq!(first.columns(), 3);
    assert_eq!(*first.node(), foreign());
    assert_eq!(first.layout().columns, Layout::new(&foreign()).columns);
    assert!(registry.get(8).is_none());
}

fn endpoint() -> SchemaNode {
    SchemaNode::Struct {
        name: "EndpointAddr".to_owned(),
        fields: vec![
            (
                "id".to_owned(),
                SchemaNode::Tuple(vec![SchemaNode::Primitive(Primitive::U8); 4]),
            ),
            (
                "relay".to_owned(),
                SchemaNode::Option(Box::new(SchemaNode::String)),
            ),
            (
                "paths".to_owned(),
                SchemaNode::Sequence(Box::new(SchemaNode::Enum {
                    name: "Path".to_owned(),
                    variants: vec![
                        (
                            "Direct".to_owned(),
                            VariantNode::Newtype(Box::new(SchemaNode::String)),
                        ),
                        (
                            "Relayed".to_owned(),
                            VariantNode::Struct(vec![
                                ("via".to_owned(), SchemaNode::String),
                                ("hops".to_owned(), SchemaNode::Primitive(Primitive::U8)),
                            ]),
                        ),
                        ("Unknown".to_owned(), VariantNode::Unit),
                    ],
                })),
            ),
        ],
    }
}

#[test]
fn the_fallback_field_is_described_in_full() {
    // Not an opaque blob: the schema spells the foreign type out, so a reader
    // holding only the schema sees the same shape a traced writer would emit.
    let traced = Traced::new(endpoint());
    let peer = Schema::<u8>::from_node(SchemaNode::Struct {
        name: "Peer".to_owned(),
        fields: vec![
            ("id".to_owned(), SchemaNode::Primitive(Primitive::U64)),
            ("addr".to_owned(), traced.node().clone()),
            ("label".to_owned(), SchemaNode::String),
        ],
    });
    let rendered = format!("{peer:?}");
    assert!(rendered.contains("EndpointAddr"), "{rendered}");
    assert!(rendered.contains("Relayed"), "{rendered}");
    assert!(rendered.contains("relay"), "{rendered}");
}

fn value(a: u32, b: &str) -> Value {
    Value::Struct {
        name: "Foreign".to_owned(),
        fields: vec![
            ("a".to_owned(), Value::Scalar(Scalar::U32(a))),
            ("b".to_owned(), Value::Str(b.to_owned())),
        ],
    }
}

#[test]
fn batches_stay_row_aligned() {
    // The field's columns stand between those of others.
    let traced = Traced::new(foreign());
    let mut columns: Vec<Vec<u8>> = vec![vec![0xee], vec![], vec![], vec![], vec![0xff]];
    for (a, b) in [(1, "x"), (2, "yz")] {
        let mut state = WriteState::new(3);
        traced
            .serialize(&value(a, b), &mut columns[1..4], &mut state)
            .unwrap();
    }
    assert_eq!(
        columns,
        [
            vec![0xee],
            vec![1, 0, 0, 0, 2, 0, 0, 0],
            vec![1, 2],
            b"xyz".to_vec(),
            vec![0xff]
        ]
    );

    let mut cursors: Vec<ColumnCursor<'_>> =
        columns[1..4].iter().map(|c| ColumnCursor::new(c)).collect();
    for (a, b) in [(1, "x"), (2, "yz")] {
        let mut regs = ReadState::new(3);
        assert_eq!(
            traced.deserialize(&mut cursors, &mut regs).unwrap(),
            value(a, b)
        );
    }
    let mut regs = ReadState::new(3);
    assert!(matches!(
        traced.deserialize(&mut cursors, &mut regs),
        Err(Error::UnexpectedEof)
    ));
}

#[test]
fn a_value_of_another_shape_is_refused() {
    let traced = Traced::new(foreign());
    let mut columns: Vec<Vec<u8>> = vec![vec![], vec![], vec![]];
    let mut state = WriteState::new(3);
    assert!(matches!(
        traced.serialize(&Value::Unit, &mut columns, &mut state),
        Err(Error::SchemaMismatch { .. })
    ));
}

// ---------------------------------------------------------------------------
// A field of a struct with columnar code of its own.
// ---------------------------------------------------------------------------

/// A type that is traced, as the trace finds it.
trait Foreign {
    fn traced() -> SchemaNode;
}

/// A field of such a type: it keeps the columns and the bytes that it would
/// have had if the whole struct had been traced.
#[derive(PartialEq, Debug)]
struct Routed<F>(Value, PhantomData<F>);

fn routed<F>(value: Value) -> Routed<F> {
    Routed(value, PhantomData)
}

impl<F> Modeled for Routed<F> {
    fn val(&self, _: Walk) -> Val {
        unreachable!()
    }
}

impl<F: Foreign> StaticSchema for Routed<F> {
    fn node() -> Shape {
        unreachable!()
    }

    fn lemma_node() {}

    fn schema_node() -> SchemaNode {
        F::traced()
    }

    fn columns() -> usize {
        Traced::new(F::traced()).columns()
    }

    fn fixed_width() -> Option<usize> {
        None
    }
}

impl<F: Foreign> SerializeColumns for Routed<F> {
    fn writes(&self) -> bool {
        false
    }

    fn image(&self, _: Walk) -> Image {
        unreachable!()
    }

    fn lemma_image(&self, _: Walk, _: Base, _: Row) {}

    fn serialize_columns(&self, columns: &mut [Vec<u8>]) -> carbonite::Result<()> {
        let mut state = WriteState::new(columns.len());
        Traced::new(F::traced()).serialize(&self.0, columns, &mut state)
    }
}

impl<'de, F: Foreign> DeserializeColumns<'de> for Routed<F> {
    fn sound() -> bool {
        false
    }

    fn read(_: Cur) -> Result<(Val, Cur), Fault> {
        unreachable!()
    }

    fn lemma_read(_: Base, _: Cur) {}

    fn deserialize_columns(cursors: &mut [ColumnCursor<'de>]) -> carbonite::Result<Self> {
        let mut regs = ReadState::new(cursors.len());
        let value = Traced::new(F::traced()).deserialize(cursors, &mut regs)?;
        Ok(routed(value))
    }
}

#[derive(PartialEq, Debug)]
struct EndpointAddr;

impl Foreign for EndpointAddr {
    fn traced() -> SchemaNode {
        endpoint()
    }
}

fn path(index: u64, variant: &str, fields: Vec<(&str, Value)>) -> Value {
    Value::StructVariant {
        index,
        variant: variant.to_owned(),
        fields: fields
            .into_iter()
            .map(|(name, value)| (name.to_owned(), value))
            .collect(),
    }
}

fn text(s: &str) -> Value {
    Value::Str(s.to_owned())
}

fn addr(relay: Option<&str>) -> Value {
    Value::Struct {
        name: "EndpointAddr".to_owned(),
        fields: vec![
            (
                "id".to_owned(),
                Value::Tuple((1..5).map(|x| Value::Scalar(Scalar::U8(x))).collect()),
            ),
            (
                "relay".to_owned(),
                match relay {
                    Some(relay) => Value::Present(Box::new(text(relay))),
                    None => Value::Absent,
                },
            ),
            (
                "paths".to_owned(),
                Value::Sequence(vec![
                    Value::NewtypeVariant {
                        index: 0,
                        variant: "Direct".to_owned(),
                        inner: Box::new(text("192.0.2.1:4433")),
                    },
                    path(
                        1,
                        "Relayed",
                        vec![
                            ("via", text("eu-west")),
                            ("hops", Value::Scalar(Scalar::U8(3))),
                        ],
                    ),
                    Value::UnitVariant {
                        index: 2,
                        variant: "Unknown".to_owned(),
                    },
                ]),
            ),
        ],
    }
}

type Peer = (u64, Routed<EndpointAddr>, String);

fn peer(id: u64) -> Peer {
    (id, routed(addr(Some("eu-west"))), format!("peer-{id}"))
}

/// A peer in the terms in which it presents itself.
fn present(peer: &Peer, addr: Value) -> Value {
    Value::Tuple(vec![
        Value::Scalar(Scalar::U64(peer.0)),
        addr,
        text(&peer.2),
    ])
}

/// Both writers produce identical bytes, and both readers accept either
/// writer's output.
fn assert_paths_interchangeable<T>(value: &T, plain: &Value)
where
    T: SerializeColumns + for<'de> DeserializeColumns<'de> + PartialEq + std::fmt::Debug,
{
    let schema = T::schema();
    let ser = Serializer::new(&schema);
    let bytes = ser.to_vec(plain).unwrap();
    assert_eq!(bytes, ser.to_vec_columns(value).unwrap());

    let de = Deserializer::<T>::new_static(T::schema());
    assert_eq!(&de.from_slice(&bytes).unwrap(), plain);
    assert_eq!(&de.from_slice_columns(&bytes).unwrap(), value);
}

#[test]
fn both_paths_agree_on_a_fallback_field() {
    let relayed = || addr(Some("eu-west"));
    assert_paths_interchangeable(&peer(7), &present(&peer(7), relayed()));
    assert_paths_interchangeable(
        &vec![peer(1), peer(2), peer(3)],
        &Value::Sequence(vec![
            present(&peer(1), relayed()),
            present(&peer(2), relayed()),
            present(&peer(3), relayed()),
        ]),
    );
    assert_paths_interchangeable(
        &Some(peer(9)),
        &Value::Present(Box::new(present(&peer(9), relayed()))),
    );
    let bare: Peer = (0, routed(addr(None)), String::new());
    assert_paths_interchangeable(&bare, &present(&bare, addr(None)));
}

#[test]
fn column_count_matches_the_traced_layout() {
    // The sum over the fields must agree with what the serde path allocates
    // from the same schema, which every column offset rests on.
    let schema = Peer::schema();
    let blob = Serializer::new(&schema).to_vec_columns(&peer(1)).unwrap();
    // Header: row count, then column count.
    assert_eq!(blob[0], 1);
    assert_eq!(usize::from(blob[1]), Peer::columns());
    assert_eq!(Layout::new(schema.node()).columns, Peer::columns());
}

#[test]
fn a_plain_type_reads_a_fallback_written_blob() {
    // A reader with no knowledge that the writer treated the field specially:
    // the bytes are ordinary bytes.
    let bytes = carbonite::to_vec_static(&peer(3)).unwrap();
    let read = SelfDescribingDeserializer::<()>::new()
        .from_slice(&bytes)
        .unwrap();
    let Value::Tuple(fields) = read else {
        panic!("expected a tuple");
    };
    assert_eq!(fields[0], Value::Scalar(Scalar::U64(3)));
    assert_eq!(fields[1], addr(Some("eu-west")));
    assert_eq!(fields[2], text("peer-3"));
}

#[derive(PartialEq, Debug)]
struct Ticket;

impl Foreign for Ticket {
    fn traced() -> SchemaNode {
        SchemaNode::TupleStruct {
            name: "Ticket".to_owned(),
            fields: vec![SchemaNode::Primitive(Primitive::U64), SchemaNode::String],
        }
    }
}

fn ticket() -> Value {
    Value::TupleStruct {
        name: "Ticket".to_owned(),
        fields: vec![Value::Scalar(Scalar::U64(42)), text("hunter2")],
    }
}

/// The field itself must own its data, but the rest can still borrow from the
/// input.
#[test]
fn the_rest_of_the_type_can_still_borrow() {
    let value: (&str, Routed<Ticket>) = ("zero-copy", routed(ticket()));
    let schema = <(&str, Routed<Ticket>)>::schema();
    let ser = Serializer::new(&schema);
    let bytes = ser.to_vec_columns(&value).unwrap();
    let plain = Value::Tuple(vec![text("zero-copy"), ticket()]);
    assert_eq!(bytes, ser.to_vec(&plain).unwrap());

    let de = Deserializer::<(&str, Routed<Ticket>)>::new_static(schema.clone());
    let back = de.from_slice_columns(&bytes).unwrap();
    assert_eq!(back, value);
}

#[derive(PartialEq, Debug)]
struct Assets;

impl Foreign for Assets {
    fn traced() -> SchemaNode {
        SchemaNode::Struct {
            name: "Assets".to_owned(),
            fields: vec![
                (
                    "meshes".to_owned(),
                    SchemaNode::Sequence(Box::new(SchemaNode::Shared(Box::new(
                        SchemaNode::String,
                    )))),
                ),
                ("count".to_owned(), SchemaNode::Primitive(Primitive::U32)),
            ],
        }
    }
}

fn assets(meshes: Vec<Value>) -> Value {
    Value::Struct {
        name: "Assets".to_owned(),
        fields: vec![
            ("meshes".to_owned(), Value::Sequence(meshes)),
            ("count".to_owned(), Value::Scalar(Scalar::U32(3))),
        ],
    }
}

fn mesh(id: u64) -> Value {
    Value::Shared {
        id,
        inner: Rc::new(text("teapot.obj")),
    }
}

#[test]
fn shared_dedup_survives_the_boundary() {
    let scene: (u32, Routed<Assets>) = (1, routed(assets(vec![mesh(5), mesh(5), mesh(5)])));
    let plain = Value::Tuple(vec![
        Value::Scalar(Scalar::U32(1)),
        assets(vec![mesh(5), mesh(5), mesh(5)]),
    ]);

    // Both writers must run the same dictionary protocol at the same schema
    // position, so the payload is written once either way.
    let schema = <(u32, Routed<Assets>)>::schema();
    let ser = Serializer::new(&schema);
    let bytes = ser.to_vec_columns(&scene).unwrap();
    assert_eq!(bytes, ser.to_vec(&plain).unwrap());

    let de = Deserializer::<(u32, Routed<Assets>)>::new_static(schema.clone());
    let back = de.from_slice_columns(&bytes).unwrap();
    let Value::Struct { fields, .. } = back.1 .0 else {
        panic!("expected a struct");
    };
    let Value::Sequence(meshes) = &fields[0].1 else {
        panic!("expected a sequence");
    };
    let pointers: Vec<&Rc<Value>> = meshes
        .iter()
        .map(|mesh| match mesh {
            Value::Shared { inner, .. } => inner,
            other => panic!("expected a shared value, found {other:?}"),
        })
        .collect();
    assert!(Rc::ptr_eq(pointers[0], pointers[1]));
    assert!(Rc::ptr_eq(pointers[0], pointers[2]));

    // One payload, three keys: the dictionary really did dedupe.
    let one_mesh: (u32, Routed<Assets>) = (1, routed(assets(vec![mesh(5)])));
    let single = ser.to_vec_columns(&one_mesh).unwrap();
    assert_eq!(
        bytes.len(),
        single.len() + 2,
        "three occurrences should add only two more key bytes"
    );
}
