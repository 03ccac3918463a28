//! The assignment of columns.

use carbonite::layout::Layout;
use carbonite::node::Node;
use carbonite::{Primitive, SchemaNode};

#[test]
fn assigns_columns_depth_first() {
    // Vec<(u32, f32)>: seq length column, then one column per tuple field.
    let schema = SchemaNode::Sequence(Box::new(SchemaNode::Tuple(vec![
        SchemaNode::Primitive(Primitive::U32),
        SchemaNode::Primitive(Primitive::F32),
    ])));
    let layout = Layout::new(&schema);
    assert_eq!(layout.columns, 3);
    let Node::Sequence {
        len,
        elem,
        elem_columns,
    } = &layout.root
    else {
        panic!("expected seq layout");
    };
    assert_eq!(*len, 0);
    assert_eq!(*elem_columns, 2);
    let Node::Tuple { name: None, fields } = &**elem else {
        panic!("expected tuple layout");
    };
    assert!(matches!(fields[0], Node::Primitive(Primitive::U32, 1)));
    assert!(matches!(fields[1], Node::Primitive(Primitive::F32, 2)));
}

/// The annotated tree must describe itself exactly as the schema it was
/// built from does, since both feed the same error messages.
#[test]
fn descriptions_match_the_schema() {
    for schema in [
        SchemaNode::Primitive(Primitive::I64),
        SchemaNode::String,
        SchemaNode::Bytes,
        SchemaNode::Unit,
        SchemaNode::UnitStruct {
            name: "Marker".to_owned(),
        },
        SchemaNode::NewtypeStruct {
            name: "Meters".to_owned(),
            inner: Box::new(SchemaNode::Primitive(Primitive::F64)),
        },
        SchemaNode::Option(Box::new(SchemaNode::String)),
        SchemaNode::Sequence(Box::new(SchemaNode::Primitive(Primitive::U8))),
        SchemaNode::Tuple(vec![SchemaNode::Unit, SchemaNode::Unit]),
        SchemaNode::TupleStruct {
            name: "Pair".to_owned(),
            fields: vec![SchemaNode::Unit],
        },
        SchemaNode::Mapping {
            key: Box::new(SchemaNode::String),
            value: Box::new(SchemaNode::Unit),
        },
        SchemaNode::Struct {
            name: "Save".to_owned(),
            fields: vec![],
        },
        SchemaNode::Enum {
            name: "State".to_owned(),
            variants: vec![],
        },
        SchemaNode::Shared(Box::new(SchemaNode::String)),
    ] {
        assert_eq!(Layout::new(&schema).root.describe(), schema.describe());
    }
}

#[test]
fn descriptions_name_what_they_describe() {
    assert_eq!(
        SchemaNode::Tuple(vec![SchemaNode::Unit, SchemaNode::Unit]).describe(),
        "2-tuple"
    );
    assert_eq!(
        SchemaNode::Shared(Box::new(SchemaNode::Option(Box::new(SchemaNode::Bytes)))).describe(),
        "shared<option<bytes>>"
    );
}
