//! What the derive makes of a type: names, schemas, columnar code, and what it
//! refuses.

use carbonite::derive::as_repr::{check_as, repr_assertion, ReprRefusal};
use carbonite::derive::attrs::{
    parse_container_attrs, parse_field_attrs, parse_variant_attrs, Form, Item, Literal, Rejection,
    Space,
};
use carbonite::derive::columnar::Source;
use carbonite::derive::expand::{expand, Expansion, Refusal};
use carbonite::derive::model::{
    fallback_assertions, is_placeholder, mentions, Body, Field, ParamRole, Style, Token, Variant,
};
use carbonite::derive::options::{parse_carbonite_attrs, parse_carbonite_variant_attrs};
use carbonite::derive::removed::{EnumMisuse, Misuse, Retired};
use carbonite::derive::rename::{strip_raw, RenameRule};
use carbonite::{Primitive, SchemaNode, VariantNode};

fn item(space: Space, name: &str, form: Form) -> Item {
    Item {
        space,
        name: name.to_owned(),
        form,
    }
}

fn serde(name: &str, text: &str) -> Item {
    item(Space::Serde, name, Form::Text(text.to_owned()))
}

fn flag(name: &str) -> Item {
    item(Space::Serde, name, Form::Word)
}

fn removed(slots: Vec<Literal>) -> Item {
    item(Space::Carbonite, "removed", Form::List(slots))
}

fn name_slot(name: &str) -> Literal {
    Literal::Text(name.to_owned())
}

fn ident(name: &str) -> Token {
    Token::Ident(name.to_owned())
}

fn unit_type() -> Vec<Token> {
    vec![Token::Group(true, vec![])]
}

/// A field with the schema that its type has.
fn field(name: &str, attrs: Vec<Item>, node: SchemaNode) -> (Field, SchemaNode) {
    typed(name, vec![ident("Type")], attrs, node)
}

fn typed(
    name: &str,
    ty: Vec<Token>,
    attrs: Vec<Item>,
    node: SchemaNode,
) -> (Field, SchemaNode) {
    let field = Field {
        ident: name.to_owned(),
        ty,
        attrs: parse_field_attrs(&attrs).unwrap(),
    };
    (field, node)
}

fn variant(
    name: &str,
    attrs: Vec<Item>,
    style: Style,
    fields: Vec<(Field, SchemaNode)>,
) -> (Variant, Vec<SchemaNode>) {
    let (fields, nodes) = fields.into_iter().unzip();
    let variant = Variant {
        ident: name.to_owned(),
        attrs: parse_variant_attrs(&attrs).unwrap(),
        retired: parse_carbonite_variant_attrs(&attrs).unwrap(),
        style,
        fields,
    };
    (variant, nodes)
}

/// The schema that the derive gives a struct.
fn of_struct(
    name: &str,
    attrs: Vec<Item>,
    style: Style,
    fields: Vec<(Field, SchemaNode)>,
) -> Result<SchemaNode, Refusal> {
    let container = parse_container_attrs(&attrs).unwrap();
    let options = parse_carbonite_attrs(&attrs).unwrap();
    let (fields, nodes): (Vec<Field>, Vec<SchemaNode>) = fields.into_iter().unzip();
    let body = Body::Struct(style, fields);
    match expand(name, &container, &options, &body)? {
        Expansion::Struct { name, plan, parts } => {
            let live = parts.active.iter().map(|i| nodes[*i].clone()).collect();
            Ok(plan.struct_node(name, live))
        }
        _ => panic!("expected a struct"),
    }
}

/// The schema that the derive gives an enum.
fn of_enum(
    name: &str,
    attrs: Vec<Item>,
    variants: Vec<(Variant, Vec<SchemaNode>)>,
) -> Result<SchemaNode, Refusal> {
    let container = parse_container_attrs(&attrs).unwrap();
    let options = parse_carbonite_attrs(&attrs).unwrap();
    let (variants, nodes): (Vec<Variant>, Vec<Vec<SchemaNode>>) = variants.into_iter().unzip();
    let body = Body::Enum(variants);
    match expand(name, &container, &options, &body)? {
        Expansion::Enum {
            name,
            variants,
            parts,
        } => Ok(SchemaNode::Enum {
            name,
            variants: variants
                .into_iter()
                .zip(parts.active)
                .map(|(plan, parts)| {
                    assert_eq!(plan.variant, parts.variant);
                    let live = parts
                        .fields
                        .active
                        .iter()
                        .map(|i| nodes[plan.variant][*i].clone())
                        .collect();
                    (plan.name, plan.payload.variant_node(live))
                })
                .collect(),
        }),
        _ => panic!("expected an enum"),
    }
}

fn prim(p: Primitive) -> SchemaNode {
    SchemaNode::Primitive(p)
}

fn named(fields: Vec<(&str, SchemaNode)>) -> Vec<(String, SchemaNode)> {
    fields
        .into_iter()
        .map(|(name, node)| (name.to_owned(), node))
        .collect()
}

// ---------------------------------------------------------------------------
// Schemas.
// ---------------------------------------------------------------------------

#[test]
fn struct_shapes_match_trace() {
    assert_eq!(
        of_struct("Marker", vec![], Style::Unit, vec![]).unwrap(),
        SchemaNode::UnitStruct {
            name: "Marker".to_owned(),
        }
    );
    assert_eq!(
        of_struct(
            "Meters",
            vec![],
            Style::Unnamed,
            vec![field("", vec![], prim(Primitive::F64))]
        )
        .unwrap(),
        SchemaNode::NewtypeStruct {
            name: "Meters".to_owned(),
            inner: Box::new(prim(Primitive::F64)),
        }
    );
    assert_eq!(
        of_struct(
            "Pair",
            vec![],
            Style::Unnamed,
            vec![
                field("", vec![], prim(Primitive::U8)),
                field("", vec![], SchemaNode::String)
            ]
        )
        .unwrap(),
        SchemaNode::TupleStruct {
            name: "Pair".to_owned(),
            fields: vec![prim(Primitive::U8), SchemaNode::String],
        }
    );
    assert_eq!(
        of_struct("Empty", vec![], Style::Named, vec![]).unwrap(),
        SchemaNode::Struct {
            name: "Empty".to_owned(),
            fields: vec![],
        }
    );
}

#[test]
fn enum_shapes_match_trace() {
    let float = || prim(Primitive::F32);
    let shade = of_enum(
        "Shade",
        vec![],
        vec![
            variant("Plain", vec![], Style::Unit, vec![]),
            variant(
                "Tinted",
                vec![],
                Style::Unnamed,
                vec![field("", vec![], prim(Primitive::U8))],
            ),
            variant(
                "Blend",
                vec![],
                Style::Unnamed,
                vec![field("", vec![], float()), field("", vec![], float())],
            ),
            variant(
                "Custom",
                vec![],
                Style::Named,
                vec![
                    field("red", vec![], prim(Primitive::U8)),
                    field(
                        "alpha",
                        vec![],
                        SchemaNode::Option(Box::new(prim(Primitive::F64))),
                    ),
                ],
            ),
        ],
    )
    .unwrap();
    assert_eq!(
        shade,
        SchemaNode::Enum {
            name: "Shade".to_owned(),
            variants: vec![
                ("Plain".to_owned(), VariantNode::Unit),
                (
                    "Tinted".to_owned(),
                    VariantNode::Newtype(Box::new(prim(Primitive::U8)))
                ),
                (
                    "Blend".to_owned(),
                    VariantNode::Tuple(vec![float(), float()])
                ),
                (
                    "Custom".to_owned(),
                    VariantNode::Struct(named(vec![
                        ("red", prim(Primitive::U8)),
                        (
                            "alpha",
                            SchemaNode::Option(Box::new(prim(Primitive::F64)))
                        ),
                    ]))
                ),
            ],
        }
    );
}

#[test]
fn rename_attributes_match_trace() {
    let string = || SchemaNode::String;
    assert_eq!(
        of_struct(
            "Renamed",
            vec![serde("rename", "WireName"), serde("rename_all", "camelCase")],
            Style::Named,
            vec![
                field("user_id", vec![], prim(Primitive::U64)),
                field("display_name", vec![serde("rename", "display")], string()),
                field(
                    "home_address_line",
                    vec![],
                    SchemaNode::Option(Box::new(string()))
                ),
            ],
        )
        .unwrap(),
        SchemaNode::Struct {
            name: "WireName".to_owned(),
            fields: named(vec![
                ("userId", prim(Primitive::U64)),
                ("display", string()),
                ("homeAddressLine", SchemaNode::Option(Box::new(string()))),
            ]),
        }
    );
    assert_eq!(
        of_struct(
            "Screaming",
            vec![serde("rename_all", "SCREAMING-KEBAB-CASE")],
            Style::Named,
            vec![field("max_retry_count", vec![], prim(Primitive::U32))],
        )
        .unwrap(),
        SchemaNode::Struct {
            name: "Screaming".to_owned(),
            fields: named(vec![("MAX-RETRY-COUNT", prim(Primitive::U32))]),
        }
    );

    // The snake_case rule splits on any Unicode uppercase, not just ASCII.
    let unit = |name: &str| variant(name, vec![], Style::Unit, vec![]);
    let SchemaNode::Enum { variants, .. } = of_enum(
        "Units",
        vec![serde("rename_all", "snake_case")],
        vec![unit("MetresPerSecond"), unit("AÉrogare"), unit("Watt")],
    )
    .unwrap() else {
        panic!("expected an enum");
    };
    let names: Vec<&str> = variants.iter().map(|(name, _)| name.as_str()).collect();
    assert_eq!(names, ["metres_per_second", "a_Érogare", "watt"]);

    assert_eq!(
        of_enum(
            "HttpEvent",
            vec![
                serde("rename_all", "snake_case"),
                serde("rename_all_fields", "kebab-case")
            ],
            vec![
                unit("RequestStarted"),
                variant(
                    "HeaderParsed",
                    vec![serde("rename", "hdr")],
                    Style::Unnamed,
                    vec![field("", vec![], string())]
                ),
                variant(
                    "BodyChunk",
                    vec![],
                    Style::Named,
                    vec![
                        field("byte_count", vec![], prim(Primitive::U64)),
                        field("is_last", vec![], prim(Primitive::Bool)),
                    ]
                ),
                variant(
                    "ConnectionClosed",
                    vec![serde("rename_all", "UPPERCASE")],
                    Style::Named,
                    vec![field("reason_code", vec![], prim(Primitive::U16))]
                ),
            ],
        )
        .unwrap(),
        SchemaNode::Enum {
            name: "HttpEvent".to_owned(),
            variants: vec![
                ("request_started".to_owned(), VariantNode::Unit),
                (
                    "hdr".to_owned(),
                    VariantNode::Newtype(Box::new(string()))
                ),
                (
                    "body_chunk".to_owned(),
                    VariantNode::Struct(named(vec![
                        ("byte-count", prim(Primitive::U64)),
                        ("is-last", prim(Primitive::Bool)),
                    ]))
                ),
                (
                    "connection_closed".to_owned(),
                    VariantNode::Struct(named(vec![("REASON_CODE", prim(Primitive::U16))]))
                ),
            ],
        }
    );
}

#[test]
fn skip_and_transparent_match_trace() {
    assert_eq!(
        of_struct(
            "WithSkip",
            vec![],
            Style::Named,
            vec![
                field("kept", vec![], prim(Primitive::U32)),
                field("cache", vec![flag("skip")], SchemaNode::Unit),
                field("also_kept", vec![], prim(Primitive::Bool)),
            ],
        )
        .unwrap(),
        SchemaNode::Struct {
            name: "WithSkip".to_owned(),
            fields: named(vec![
                ("kept", prim(Primitive::U32)),
                ("also_kept", prim(Primitive::Bool))
            ]),
        }
    );
    let bytes = SchemaNode::Sequence(Box::new(prim(Primitive::U8)));
    assert_eq!(
        of_struct(
            "Wrapper",
            vec![flag("transparent")],
            Style::Named,
            vec![field("inner", vec![], bytes.clone())],
        )
        .unwrap(),
        bytes
    );
    assert_eq!(
        of_enum(
            "WithSkippedVariant",
            vec![],
            vec![
                variant(
                    "Used",
                    vec![],
                    Style::Unnamed,
                    vec![field("", vec![], prim(Primitive::U8))]
                ),
                variant(
                    "Hidden",
                    vec![flag("skip")],
                    Style::Unnamed,
                    vec![field("", vec![], SchemaNode::String)]
                ),
                variant("AlsoUsed", vec![], Style::Unit, vec![]),
            ],
        )
        .unwrap(),
        SchemaNode::Enum {
            name: "WithSkippedVariant".to_owned(),
            variants: vec![
                (
                    "Used".to_owned(),
                    VariantNode::Newtype(Box::new(prim(Primitive::U8)))
                ),
                ("AlsoUsed".to_owned(), VariantNode::Unit),
            ],
        }
    );
}

// ---------------------------------------------------------------------------
// Names.
// ---------------------------------------------------------------------------

#[test]
fn every_rule_renames_fields_and_variants() {
    for (rule, of_field, of_variant) in [
        ("lowercase", "very_tasty", "verytasty"),
        ("UPPERCASE", "VERY_TASTY", "VERYTASTY"),
        ("PascalCase", "VeryTasty", "VeryTasty"),
        ("camelCase", "veryTasty", "veryTasty"),
        ("snake_case", "very_tasty", "very_tasty"),
        ("SCREAMING_SNAKE_CASE", "VERY_TASTY", "VERY_TASTY"),
        ("kebab-case", "very-tasty", "very-tasty"),
        ("SCREAMING-KEBAB-CASE", "VERY-TASTY", "VERY-TASTY"),
    ] {
        let rule = RenameRule::from_str(rule).unwrap();
        assert_eq!(rule.apply_to_field("very_tasty"), of_field);
        assert_eq!(rule.apply_to_variant("VeryTasty"), of_variant);
    }
    assert!(RenameRule::from_str("Train-Case").is_none());
}

#[test]
fn raw_identifiers_lose_their_prefix() {
    assert_eq!(strip_raw("r#type"), "type");
    assert_eq!(strip_raw("kind"), "kind");
    assert_eq!(
        of_struct(
            "Raw",
            vec![],
            Style::Named,
            vec![field("r#type", vec![], prim(Primitive::U8))]
        )
        .unwrap(),
        SchemaNode::Struct {
            name: "Raw".to_owned(),
            fields: named(vec![("type", prim(Primitive::U8))]),
        }
    );
}

// ---------------------------------------------------------------------------
// Attributes that have no columnar meaning.
// ---------------------------------------------------------------------------

fn message<T>(result: Result<T, Rejection>) -> String {
    match result {
        Ok(_) => panic!("expected a rejection"),
        Err(rejection) => {
            assert_eq!(rejection.at, 0);
            rejection.message
        }
    }
}

#[test]
fn containers_without_a_columnar_layout_are_refused() {
    for name in ["untagged", "tag", "content"] {
        assert!(message(parse_container_attrs(&[flag(name)])).contains("only externally tagged"));
    }
    assert!(message(parse_container_attrs(&[flag("field_identifier")])).contains("identifier"));
    assert!(message(parse_container_attrs(&[serde("remote", "T")])).contains("serde(remote)"));
    assert!(message(parse_container_attrs(&[serde("rename_all", "Train-Case")]))
        .contains("unknown rename_all rule `Train-Case`"));
    assert!(message(parse_container_attrs(&[item(
        Space::Serde,
        "rename",
        Form::List(vec![])
    )]))
    .contains("split serialize/deserialize"));
    // Attributes that change nothing on the wire are let through.
    assert!(parse_container_attrs(&[flag("deny_unknown_fields")]).is_ok());
}

#[test]
fn asymmetric_fields_are_refused() {
    for (name, reason) in [
        ("skip_serializing", "symmetric fields"),
        ("skip_deserializing", "symmetric fields"),
        ("skip_serializing_if", "rows must be complete"),
        ("flatten", "serde(flatten)"),
        ("with", "serde(with)"),
        ("serialize_with", "serde(with)"),
        ("deserialize_with", "serde(with)"),
    ] {
        assert!(message(parse_field_attrs(&[flag(name)])).contains(reason));
    }
    assert!(message(parse_field_attrs(&[item(
        Space::Carbonite,
        "json",
        Form::Word
    )]))
    .contains("unrecognized carbonite field attribute"));
    // A skipped field has nothing to route through serde.
    let err = parse_field_attrs(&[
        flag("skip"),
        item(Space::Carbonite, "serde", Form::Word),
    ])
    .unwrap_err();
    assert_eq!(err.at, 1);
    assert!(err.message.contains("no columns"));
}

#[test]
fn asymmetric_variants_are_refused() {
    for (name, reason) in [
        ("skip_serializing", "symmetric variants"),
        ("untagged", "untagged variants"),
        ("with", "serde(with)"),
    ] {
        assert!(message(parse_variant_attrs(&[flag(name)])).contains(reason));
    }
}

#[test]
fn unknown_options_are_refused() {
    let odd = || [item(Space::Carbonite, "odd", Form::Word)];
    assert!(message(parse_carbonite_attrs(&odd())).contains("the three are"));
    assert!(message(parse_carbonite_variant_attrs(&odd())).contains("`removed(...)`"));
    assert!(message(parse_carbonite_attrs(&[removed(vec![Literal::Other])]))
        .contains("a retired slot is"));
    let options = parse_carbonite_attrs(&[
        item(Space::Carbonite, "crate", Form::Text("other".to_owned())),
        item(Space::Carbonite, "as", Form::Text("u8".to_owned())),
    ])
    .unwrap();
    assert_eq!(options.krate.as_deref(), Some("other"));
    assert_eq!(options.repr.as_deref(), Some("u8"));
}

#[test]
fn transparent_needs_one_live_field() {
    let err = of_struct("Two", vec![flag("transparent")], Style::Named, vec![]).unwrap_err();
    let Refusal::Container(reason) = err else {
        panic!("expected the container, got {err:?}");
    };
    assert!(reason.contains("exactly one non-skipped field"));
}

// ---------------------------------------------------------------------------
// Retired slots.
// ---------------------------------------------------------------------------

fn u32_field(name: &str, attrs: Vec<Item>) -> (Field, SchemaNode) {
    field(name, attrs, prim(Primitive::U32))
}

#[test]
fn a_retirement_does_not_reach_the_schema() {
    let fields = || vec![u32_field("id", vec![]), u32_field("health", vec![])];
    assert_eq!(
        of_struct(
            "Save",
            vec![removed(vec![name_slot("hp")])],
            Style::Named,
            fields()
        )
        .unwrap(),
        of_struct("Save", vec![], Style::Named, fields()).unwrap()
    );
}

#[test]
fn retirements_are_matched_against_the_wire_name() {
    let attrs = |slot: &str| {
        vec![
            serde("rename_all", "camelCase"),
            removed(vec![name_slot(slot)]),
        ]
    };
    // `hit_points` would be the ident; `hitPoints` is what the schema records,
    // and what the retirement names.
    assert!(of_struct(
        "Save",
        attrs("hitPoints"),
        Style::Named,
        vec![u32_field("id", vec![])]
    )
    .is_ok());
    assert!(of_struct(
        "Save",
        attrs("hit_points"),
        Style::Named,
        vec![u32_field("hit_points", vec![])]
    )
    .is_ok());
    let err = of_struct(
        "Save",
        attrs("hitPoints"),
        Style::Named,
        vec![u32_field("id", vec![]), u32_field("hit_points", vec![])],
    )
    .unwrap_err();
    let Refusal::Field(Misuse { field: at, message }) = err else {
        panic!("expected a field, got {err:?}");
    };
    assert_eq!(at, 1);
    assert!(message.contains("the name `hitPoints` is retired"));
}

#[test]
fn an_alias_may_not_claim_a_retired_name() {
    let err = of_struct(
        "Save",
        vec![removed(vec![name_slot("hp")])],
        Style::Named,
        vec![u32_field("health", vec![serde("alias", "hp")])],
    )
    .unwrap_err();
    let Refusal::Field(Misuse { message, .. }) = err else {
        panic!("expected a field, got {err:?}");
    };
    assert!(message.contains("alias claims the retired name `hp`"));
}

#[test]
fn only_a_placeholder_may_hold_a_retired_slot() {
    let held = |ty: Vec<Token>| {
        of_struct(
            "Point",
            vec![removed(vec![Literal::Position(1)])],
            Style::Unnamed,
            vec![
                u32_field("", vec![]),
                typed("", ty, vec![], SchemaNode::Unit),
                u32_field("", vec![]),
            ],
        )
    };
    assert!(held(unit_type()).is_ok());
    let err = held(vec![ident("u32")]).unwrap_err();
    let Refusal::Field(Misuse { field: at, message }) = err else {
        panic!("expected a field, got {err:?}");
    };
    assert_eq!(at, 1);
    assert!(message.contains("position 1 is retired"));

    assert!(of_struct(
        "Save",
        vec![removed(vec![name_slot("hp")])],
        Style::Named,
        vec![typed("hp", unit_type(), vec![], SchemaNode::Unit)],
    )
    .is_ok());
    assert!(is_placeholder(&unit_type()));
    assert!(!is_placeholder(&vec![ident("u32")]));
    assert!(!is_placeholder(&vec![Token::Group(
        true,
        vec![ident("u32")]
    )]));
}

#[test]
fn an_enum_retires_variants_and_its_variants_retire_fields() {
    let weapon = |slot: Literal, taken: &str| {
        of_enum(
            "Weapon",
            vec![removed(vec![slot])],
            vec![
                variant("Sword", vec![], Style::Unit, vec![]),
                variant(
                    "Bow",
                    vec![removed(vec![name_slot("range")])],
                    Style::Named,
                    vec![u32_field(taken, vec![])],
                ),
            ],
        )
    };
    assert_eq!(
        weapon(name_slot("Wand"), "reach").unwrap(),
        SchemaNode::Enum {
            name: "Weapon".to_owned(),
            variants: vec![
                ("Sword".to_owned(), VariantNode::Unit),
                (
                    "Bow".to_owned(),
                    VariantNode::Struct(named(vec![("reach", prim(Primitive::U32))]))
                ),
            ],
        }
    );
    assert!(matches!(
        weapon(name_slot("Sword"), "reach"),
        Err(Refusal::Enum(EnumMisuse::Variant(0, _)))
    ));
    assert!(matches!(
        weapon(name_slot("Wand"), "range"),
        Err(Refusal::Enum(EnumMisuse::Field(1, Misuse { field: 0, .. })))
    ));
    assert!(matches!(
        weapon(Literal::Position(0), "reach"),
        Err(Refusal::Enum(EnumMisuse::Slot(0, _)))
    ));
}

#[test]
fn slots_have_names() {
    assert_eq!(Retired::Name("old".to_owned()).name(), "old");
    assert_eq!(Retired::Position(12).name(), "12");
}

// ---------------------------------------------------------------------------
// Types represented as others.
// ---------------------------------------------------------------------------

fn as_repr(attrs: Vec<Item>, fields: Vec<(Field, SchemaNode)>) -> Result<(), ReprRefusal> {
    let container = parse_container_attrs(&attrs).unwrap();
    let fields = fields.into_iter().map(|(field, _)| field).collect();
    check_as(&container, &Body::Struct(Style::Named, fields))
}

#[test]
fn representations_convert_both_ways() {
    let fields = || vec![u32_field("lo", vec![]), u32_field("hi", vec![])];
    assert!(as_repr(vec![serde("from", "R"), serde("into", "R")], fields()).is_ok());
    assert!(as_repr(vec![serde("try_from", "R"), serde("into", "R")], fields()).is_ok());
    // Hand-written impls need no attribute at all.
    assert!(as_repr(vec![], fields()).is_ok());

    let Err(ReprRefusal::Conversion(0, reason)) = as_repr(vec![serde("try_from", "R")], fields())
    else {
        panic!("expected a conversion");
    };
    assert!(reason.contains("serde(try_from) converts only when reading"));
    assert!(reason.contains("#[serde(into = \"R\")]"));
    let Err(ReprRefusal::Conversion(0, reason)) = as_repr(vec![serde("into", "R")], fields())
    else {
        panic!("expected a conversion");
    };
    assert!(reason.contains("#[serde(from = \"R\")]"));
    assert!(matches!(
        as_repr(vec![flag("transparent")], fields()),
        Err(ReprRefusal::Container(_))
    ));
    assert!(matches!(
        as_repr(
            vec![],
            vec![
                u32_field("lo", vec![]),
                u32_field("hi", vec![item(Space::Carbonite, "serde", Form::Word)])
            ]
        ),
        Err(ReprRefusal::Routed(0, 1, _))
    ));
}

#[test]
fn conversions_need_a_representation() {
    let convert = |attrs: Vec<Item>| {
        let container = parse_container_attrs(&attrs).unwrap();
        let options = parse_carbonite_attrs(&attrs).unwrap();
        expand(
            "Degrees",
            &container,
            &options,
            &Body::Struct(Style::Unnamed, vec![field("", vec![], SchemaNode::Unit).0]),
        )
    };
    let both = || vec![serde("from", "f64"), serde("into", "f64")];
    assert!(matches!(convert(both()), Err(Refusal::Item(0, _))));
    let mut attrs = both();
    attrs.push(item(Space::Carbonite, "as", Form::Text("f64".to_owned())));
    assert!(matches!(convert(attrs), Ok(Expansion::Represented)));
}

#[test]
fn assertions_stay_clear_of_parameters() {
    let list_of = |param: &str| vec![ident("Vec"), Token::Other, ident(param), Token::Other];
    let params = vec!["T".to_owned()];
    assert!(repr_assertion(&list_of("u8"), &list_of("u8"), &params));
    assert!(!repr_assertion(&list_of("T"), &list_of("T"), &params));
    assert!(!repr_assertion(&list_of("u8"), &list_of("T"), &params));
    assert!(mentions(&list_of("T"), "T"));
    assert!(mentions(&vec![Token::Group(false, vec![ident("T")])], "T"));
    assert!(!mentions(&list_of("u8"), "T"));
}

// ---------------------------------------------------------------------------
// Columnar code.
// ---------------------------------------------------------------------------

fn routed() -> Vec<Item> {
    vec![item(Space::Carbonite, "serde", Form::Word)]
}

#[test]
fn fields_come_from_their_columns_in_order() {
    let attrs = vec![];
    let container = parse_container_attrs(&attrs).unwrap();
    let options = parse_carbonite_attrs(&attrs).unwrap();
    let fields = vec![
        u32_field("a", vec![]).0,
        u32_field("b", vec![flag("skip")]).0,
        u32_field("c", routed()).0,
    ];
    let Ok(Expansion::Struct { parts, .. }) = expand(
        "Mixed",
        &container,
        &options,
        &Body::Struct(Style::Named, fields),
    ) else {
        panic!("expected a struct");
    };
    assert_eq!(parts.active, [0, 2]);
    assert_eq!(
        parts.sources,
        [Source::Columns, Source::Default, Source::Serde]
    );
    assert!(parts.has_fallback);
}

#[test]
fn variants_stand_past_those_before_them() {
    let attrs = vec![];
    let container = parse_container_attrs(&attrs).unwrap();
    let options = parse_carbonite_attrs(&attrs).unwrap();
    let variants = vec![
        variant(
            "A",
            vec![],
            Style::Unnamed,
            vec![u32_field("", vec![]), u32_field("", vec![])],
        )
        .0,
        variant(
            "Hidden",
            vec![flag("skip")],
            Style::Unnamed,
            vec![u32_field("", vec![])],
        )
        .0,
        variant("B", vec![], Style::Unit, vec![]).0,
        variant(
            "C",
            vec![],
            Style::Named,
            vec![u32_field("x", vec![])],
        )
        .0,
    ];
    let Ok(Expansion::Enum { parts, .. }) =
        expand("E", &container, &options, &Body::Enum(variants))
    else {
        panic!("expected an enum");
    };
    let tags: Vec<(usize, u64)> = parts
        .active
        .iter()
        .map(|part| (part.variant, part.tag))
        .collect();
    assert_eq!(tags, [(0, 0), (2, 1), (3, 2)]);
    assert!(parts.active[0].preceding.is_empty());
    assert_eq!(parts.active[1].preceding, [(0, 0), (0, 1)]);
    assert_eq!(parts.active[2].preceding, [(0, 0), (0, 1)]);
    assert_eq!(parts.skipped, [(1, "Hidden".to_owned())]);
}

#[test]
fn parameters_are_bounded_by_how_they_are_reached() {
    let of = |name: &str| vec![ident(name)];
    let body = Body::Struct(
        Style::Named,
        vec![
            typed("a", of("T"), vec![], SchemaNode::Unit).0,
            typed("b", of("U"), routed(), SchemaNode::Unit).0,
            typed("c", of("V"), routed(), SchemaNode::Unit).0,
            typed("d", of("V"), vec![], SchemaNode::Unit).0,
        ],
    );
    let role = |fallback, primary| ParamRole { fallback, primary };
    assert_eq!(body.param_role("T"), role(false, true));
    assert_eq!(body.param_role("U"), role(true, false));
    assert_eq!(body.param_role("V"), role(true, true));
    // One that no field mentions keeps the trait.
    assert_eq!(body.param_role("W"), role(false, true));
    let Body::Struct(_, fields) = body else {
        panic!("expected a struct");
    };
    assert_eq!(
        fallback_assertions(&fields, &vec!["U".to_owned()]),
        [2]
    );
}
