//! What the tracer hands over, what it knows, and what it records.

use carbonite::probe::{can_sample, is_inhabited, sample};
use carbonite::request::{
    consumed, enum_failed, inner_priors, map_priors, newtype_variant_priors, record_map,
    record_seq, record_struct, record_struct_variant, record_tuple, record_tuple_struct,
    record_tuple_variant, record_wrapper, refuse, seq_priors, struct_failed, struct_priors,
    struct_variant_priors, synthetic, tuple_priors, tuple_struct_priors, tuple_variant_priors,
    wrapper_of, Refused, Wrapper,
};
use carbonite::trace::{TNode, TVariant};
use carbonite::tracer::{TraceSeq, TraceStruct};
use carbonite::value::{Scalar, SHARED_TOKEN};
use carbonite::{Error, Primitive, SchemaNode, VariantNode};

fn u8_node() -> TNode {
    TNode::Primitive(Primitive::U8)
}

fn untraceable(reason: &str) -> Error {
    Error::Untraceable {
        reason: reason.to_owned(),
    }
}

fn read(limit: usize, nodes: Vec<TNode>) -> TraceSeq {
    let mut parts = TraceSeq::new(limit);
    for node in nodes {
        parts.record(node);
    }
    parts
}

fn read_named(names: &[&str], nodes: Vec<TNode>) -> TraceStruct {
    let mut fields = TraceStruct::new(names.iter().map(|name| (*name).to_owned()).collect());
    for node in nodes {
        fields.next_key().unwrap();
        fields.next_value().unwrap();
        fields.record(node);
    }
    fields
}

#[test]
fn requests_that_cannot_be_traced_say_why() {
    assert_eq!(
        refuse(Refused::Any),
        untraceable(
            "the type calls deserialize_any, which requires a self-describing format \
             (untagged or internally tagged enums, serde(flatten), and Value types \
             cannot be encoded columnar)"
        )
    );
    assert_eq!(
        refuse(Refused::Identifier),
        untraceable("unexpected deserialize_identifier at a value position")
    );
    assert_eq!(
        refuse(Refused::Ignored),
        untraceable("unexpected deserialize_ignored_any while tracing")
    );
}

#[test]
fn synthetic_values_survive_validation() {
    assert_eq!(synthetic(Primitive::Bool), Scalar::Bool(false));
    assert_eq!(synthetic(Primitive::I8), Scalar::I8(1));
    assert_eq!(synthetic(Primitive::U128), Scalar::U128(1));
    assert_eq!(synthetic(Primitive::F32), Scalar::F32(1.0f32.to_bits()));
    assert_eq!(synthetic(Primitive::F64), Scalar::F64(1.0f64.to_bits()));
    assert_eq!(synthetic(Primitive::Char), Scalar::Char('A'));
}

#[test]
fn an_impl_that_reads_nothing_is_reported() {
    assert_eq!(consumed(Some(u8_node())).unwrap(), u8_node());
    assert_eq!(
        consumed(None).unwrap_err(),
        untraceable("a Deserialize impl returned without consuming input")
    );
}

#[test]
fn wrappers_are_told_apart_by_name() {
    assert_eq!(wrapper_of(SHARED_TOKEN), Wrapper::Shared);
    assert_eq!(wrapper_of("Meters"), Wrapper::Newtype);
}

#[test]
fn wrappers_are_recorded() {
    assert_eq!(
        record_wrapper(Wrapper::Option, "", Some(u8_node())).unwrap(),
        TNode::Option(Box::new(u8_node()))
    );
    assert_eq!(
        record_wrapper(Wrapper::Newtype, "Meters", Some(u8_node())).unwrap(),
        TNode::NewtypeStruct("Meters".to_owned(), Box::new(u8_node()))
    );
    assert_eq!(
        record_wrapper(Wrapper::Shared, SHARED_TOKEN, Some(u8_node())).unwrap(),
        TNode::Shared(Box::new(u8_node()))
    );
    assert_eq!(
        record_wrapper(Wrapper::Option, "", None).unwrap_err(),
        untraceable("an Option impl returned without consuming input")
    );
    assert_eq!(
        record_wrapper(Wrapper::Newtype, "Meters", None).unwrap_err(),
        untraceable("a newtype impl returned without consuming input")
    );
    assert_eq!(
        record_wrapper(Wrapper::Shared, SHARED_TOKEN, None).unwrap_err(),
        untraceable("a shared impl returned without consuming input")
    );
}

#[test]
fn previous_passes_steer_only_what_they_found() {
    let option = TNode::Option(Box::new(u8_node()));
    assert_eq!(
        inner_priors(Wrapper::Option, Some(&option)).get(0),
        Some(&u8_node())
    );
    assert_eq!(inner_priors(Wrapper::Option, Some(&option)).get(1), None);
    assert_eq!(inner_priors(Wrapper::Newtype, Some(&option)).get(0), None);
    assert_eq!(inner_priors(Wrapper::Shared, None).get(0), None);

    let list = TNode::Sequence(Box::new(u8_node()));
    assert_eq!(seq_priors(Some(&list)).get(0), Some(&u8_node()));
    assert_eq!(tuple_priors(Some(&list)).get(0), None);

    let pair = TNode::Tuple(vec![TNode::Unit, u8_node()]);
    assert_eq!(tuple_priors(Some(&pair)).get(1), Some(&u8_node()));
    assert_eq!(tuple_struct_priors(Some(&pair)).get(1), None);

    let tuple = TNode::TupleStruct("P".to_owned(), vec![TNode::Unit, u8_node()]);
    assert_eq!(tuple_struct_priors(Some(&tuple)).get(1), Some(&u8_node()));

    let map = TNode::Mapping(Box::new(TNode::String), Box::new(u8_node()));
    assert_eq!(
        map_priors(Some(&map)),
        (Some(&TNode::String), Some(&u8_node()))
    );
    assert_eq!(map_priors(Some(&list)), (None, None));

    let record = TNode::Struct("R".to_owned(), vec![("x".to_owned(), u8_node())]);
    assert_eq!(struct_priors(Some(&record)).get(0), Some(&u8_node()));
    assert_eq!(struct_priors(Some(&tuple)).get(0), None);

    let newtype = TVariant::Newtype(Box::new(u8_node()));
    assert_eq!(newtype_variant_priors(Some(&newtype)).get(0), Some(&u8_node()));
    assert_eq!(tuple_variant_priors(Some(&newtype)).get(0), None);
    let fields = TVariant::Tuple(vec![u8_node()]);
    assert_eq!(tuple_variant_priors(Some(&fields)).get(0), Some(&u8_node()));
    let named = TVariant::Struct(vec![("x".to_owned(), u8_node())]);
    assert_eq!(struct_variant_priors(Some(&named)).get(0), Some(&u8_node()));
    assert_eq!(struct_variant_priors(None).get(0), None);
}

#[test]
fn parts_are_recorded_once_all_are_read() {
    assert_eq!(
        record_seq(read(1, vec![u8_node()])).unwrap(),
        TNode::Sequence(Box::new(u8_node()))
    );
    assert_eq!(
        record_seq(read(1, vec![])).unwrap_err(),
        untraceable("a sequence visitor did not read its element")
    );
    assert_eq!(
        record_tuple(read(2, vec![u8_node(), TNode::Unit])).unwrap(),
        TNode::Tuple(vec![u8_node(), TNode::Unit])
    );
    assert_eq!(
        record_tuple(read(2, vec![u8_node()])).unwrap_err(),
        untraceable("a tuple visitor did not read every element")
    );
    assert_eq!(
        record_tuple_struct("P", read(1, vec![u8_node()])).unwrap(),
        TNode::TupleStruct("P".to_owned(), vec![u8_node()])
    );
    assert_eq!(
        record_tuple_struct("P", read(1, vec![])).unwrap_err(),
        untraceable("a tuple struct visitor did not read every field")
    );
    assert_eq!(
        record_tuple_variant(read(1, vec![u8_node()])).unwrap(),
        TVariant::Tuple(vec![u8_node()])
    );
    assert_eq!(
        record_tuple_variant(read(1, vec![])).unwrap_err(),
        untraceable("a tuple variant visitor did not read every element")
    );
}

#[test]
fn maps_are_recorded_by_one_entry() {
    assert_eq!(
        record_map(Some(TNode::String), Some(u8_node())).unwrap(),
        TNode::Mapping(Box::new(TNode::String), Box::new(u8_node()))
    );
    assert_eq!(
        record_map(None, Some(u8_node())).unwrap_err(),
        untraceable("a map visitor did not read a key")
    );
    assert_eq!(
        record_map(Some(TNode::String), None).unwrap_err(),
        untraceable("a map visitor did not read a value")
    );
}

#[test]
fn named_fields_are_recorded_once_all_are_read() {
    assert_eq!(
        record_struct("R", read_named(&["x"], vec![u8_node()])).unwrap(),
        TNode::Struct("R".to_owned(), vec![("x".to_owned(), u8_node())])
    );
    assert_eq!(
        record_struct("R", read_named(&["x"], vec![])).unwrap_err(),
        untraceable("a struct visitor did not read every field")
    );
    assert_eq!(
        record_struct_variant(read_named(&["x"], vec![u8_node()])).unwrap(),
        TVariant::Struct(vec![("x".to_owned(), u8_node())])
    );
    assert_eq!(
        record_struct_variant(read_named(&["x"], vec![])).unwrap_err(),
        untraceable("a struct variant visitor did not read every field")
    );
}

#[test]
fn failures_on_an_alias_are_reported_as_such() {
    let odd = || Error::Message("odd".to_owned());
    assert_eq!(struct_failed("R", false, odd()), odd());
    assert_eq!(enum_failed("E", false, odd()), odd());
    assert!(struct_failed("R", true, odd())
        .to_string()
        .contains("`R` has a field with #[serde(alias"));
    assert!(enum_failed("E", true, odd())
        .to_string()
        .contains("`E` has a variant with #[serde(alias"));
}

fn never() -> SchemaNode {
    SchemaNode::Enum {
        name: "Never".to_owned(),
        variants: vec![],
    }
}

#[test]
fn an_enum_without_variants_has_no_sample() {
    let byte = || SchemaNode::Primitive(Primitive::U8);
    assert!(is_inhabited(&byte()));
    assert!(!is_inhabited(&never()));
    assert!(!can_sample(&SchemaNode::Tuple(vec![never(), byte()])));
    assert!(!is_inhabited(&SchemaNode::Enum {
        name: "E".to_owned(),
        variants: vec![
            ("A".to_owned(), VariantNode::Unit),
            ("B".to_owned(), VariantNode::Newtype(Box::new(never()))),
        ],
    }));

    // Where every row would write it, there are no rows: a count of zero, then
    // one empty column.
    assert!(can_sample(&never()));
    assert_eq!(sample(&never()), [0, 1, 0]);
    assert!(can_sample(&SchemaNode::Option(Box::new(never()))));
    assert_eq!(
        sample(&SchemaNode::Option(Box::new(never()))),
        [0, 2, 0, 0]
    );
}
