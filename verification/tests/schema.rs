//! Schema trees and their binary form.

use carbonite::varint;
use carbonite::{Error, Primitive, Schema, SchemaNode, VariantNode, SCHEMA_VERSION};

/// The deepest nesting that a schema may have.
const MAX_DEPTH: usize = carbonite::schema::MAX_DEPTH;

fn sample() -> SchemaNode {
    SchemaNode::Struct {
        name: "Save".to_owned(),
        fields: vec![
            ("id".to_owned(), SchemaNode::Primitive(Primitive::U32)),
            ("name".to_owned(), SchemaNode::String),
            (
                "tags".to_owned(),
                SchemaNode::Sequence(Box::new(SchemaNode::Option(Box::new(SchemaNode::Enum {
                    name: "Tag".to_owned(),
                    variants: vec![
                        ("None".to_owned(), VariantNode::Unit),
                        (
                            "Pair".to_owned(),
                            VariantNode::Tuple(vec![
                                SchemaNode::Primitive(Primitive::F64),
                                SchemaNode::Bytes,
                            ]),
                        ),
                        (
                            "At".to_owned(),
                            VariantNode::Struct(vec![(
                                "pos".to_owned(),
                                SchemaNode::Tuple(vec![
                                    SchemaNode::Primitive(Primitive::I128),
                                    SchemaNode::Primitive(Primitive::Char),
                                ]),
                            )]),
                        ),
                    ],
                })))),
            ),
            (
                "lookup".to_owned(),
                SchemaNode::Mapping {
                    key: Box::new(SchemaNode::String),
                    value: Box::new(SchemaNode::NewtypeStruct {
                        name: "Meters".to_owned(),
                        inner: Box::new(SchemaNode::Primitive(Primitive::F32)),
                    }),
                },
            ),
            (
                "marker".to_owned(),
                SchemaNode::UnitStruct {
                    name: "Marker".to_owned(),
                },
            ),
            ("unit".to_owned(), SchemaNode::Unit),
            (
                "mesh".to_owned(),
                SchemaNode::Shared(Box::new(SchemaNode::String)),
            ),
        ],
    }
}

#[test]
fn binary_encoding_round_trips() {
    let node = sample();
    let bytes = node.to_bytes();
    assert_eq!(SchemaNode::from_bytes(&bytes).unwrap(), node);
}

#[test]
fn rejects_trailing_bytes() {
    let mut bytes = sample().to_bytes();
    bytes.push(0);
    assert!(matches!(
        SchemaNode::from_bytes(&bytes),
        Err(Error::TrailingBytes)
    ));
}

#[test]
fn rejects_unknown_tags() {
    assert!(matches!(
        SchemaNode::from_bytes(&[SCHEMA_VERSION as u8, 0xfe]),
        Err(Error::Malformed(_))
    ));
}

#[test]
fn rejects_deep_nesting() {
    // A long chain of Option tags with no terminal leaf.
    let mut bytes = vec![SCHEMA_VERSION as u8];
    bytes.extend(std::iter::repeat(17u8).take(MAX_DEPTH + 1));
    assert!(matches!(
        SchemaNode::from_bytes(&bytes),
        Err(Error::DepthLimitExceeded)
    ));
}

#[test]
fn encoding_starts_with_the_schema_version() {
    let bytes = sample().to_bytes();
    assert_eq!(varint::read(&bytes).unwrap(), (SCHEMA_VERSION, 1));
}

#[test]
fn rejects_a_newer_schema_version() {
    let mut bytes = Vec::new();
    varint::write(&mut bytes, SCHEMA_VERSION + 1);
    sample().encode_into(&mut bytes);
    assert!(matches!(
        SchemaNode::from_bytes(&bytes),
        Err(Error::UnsupportedVersion {
            what: "schema",
            found,
            supported: SCHEMA_VERSION,
        }) if found == SCHEMA_VERSION + 1
    ));
}

#[test]
fn display_describes_the_shape() {
    assert_eq!(
        Schema::<()>::from_node(sample()).to_string(),
        "struct `Save`"
    );
}

#[test]
fn rejects_a_truncated_schema() {
    let bytes = sample().to_bytes();
    for cut in 0..bytes.len() {
        assert!(SchemaNode::from_bytes(&bytes[..cut]).is_err());
    }
    assert!(matches!(
        SchemaNode::from_bytes(&[]),
        Err(Error::UnexpectedEof)
    ));
}

#[test]
fn rejects_a_name_that_is_not_text() {
    let node = SchemaNode::UnitStruct {
        name: "ab".to_owned(),
    };
    let mut bytes = node.to_bytes();
    let last = bytes.len() - 1;
    bytes[last] = 0xff;
    assert!(matches!(
        SchemaNode::from_bytes(&bytes),
        Err(Error::InvalidUtf8)
    ));
}

#[test]
fn schemas_are_equal_when_their_trees_are() {
    let a = Schema::<u8>::from_node(sample());
    let b = Schema::<u8>::from_bytes(&a.to_bytes()).unwrap();
    assert!(a == b);
    let c = Schema::<u8>::from_node(SchemaNode::Unit);
    assert!(a != c);
    assert_eq!(a.cast::<u16>().into_node(), sample());
}

/// No encoding starts with another, so a node is decoded from wherever it
/// stands and nothing past it is consumed.
#[test]
fn encodings_are_prefix_free() {
    let nodes = [
        SchemaNode::Unit,
        SchemaNode::String,
        SchemaNode::Option(Box::new(SchemaNode::Unit)),
        SchemaNode::Option(Box::new(SchemaNode::String)),
        SchemaNode::Tuple(vec![]),
        SchemaNode::Tuple(vec![SchemaNode::Unit]),
        SchemaNode::Tuple(vec![SchemaNode::Unit, SchemaNode::Unit]),
        sample(),
    ];
    let codes: Vec<Vec<u8>> = nodes
        .iter()
        .map(|node| {
            let mut out = Vec::new();
            node.encode_into(&mut out);
            out
        })
        .collect();
    for (i, a) in codes.iter().enumerate() {
        for (j, b) in codes.iter().enumerate() {
            assert_eq!(b.starts_with(a), i == j);
        }
        let mut buf = vec![0xee];
        buf.extend_from_slice(a);
        buf.push(0xff);
        let mut pos = 1;
        assert_eq!(SchemaNode::decode(&buf, &mut pos, 0).unwrap(), nodes[i]);
        assert_eq!(pos, 1 + a.len());
    }
}
