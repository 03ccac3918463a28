//! Data written by one version of a type, read by another.
//!
//! A reading type is described here by a value, [`Type`], and driven the way a
//! derived `Deserialize` impl would be: it asks for one shape at a time, matches
//! fields and variants by name, and fills what is missing from defaults. The
//! same description is traced, written, and checked for compatibility.

use std::borrow::Cow;
use std::rc::Rc;

use carbonite::compat::{narrowings, verdict, Incompatible};
use carbonite::plan::{Ask, Plan, VariantAsk, VariantPlan};
use carbonite::probe::{sample, variant_span};
use carbonite::reader::{dispatch, read_shared, FieldsLeft, Step};
use carbonite::request::{
    enum_failed, inner_priors, map_priors, newtype_variant_priors, record_map, record_seq,
    record_struct, record_struct_variant, record_tuple, record_tuple_struct, record_tuple_variant,
    record_wrapper, refuse, seq_priors, struct_failed, struct_priors, struct_variant_priors,
    synthetic, tuple_priors, tuple_struct_priors, tuple_variant_priors, wrapper_of, Refused,
    Wrapper,
};
use carbonite::shared::{ReadSlot, ReadState};
use carbonite::skip::{skip_rest, skip_value, skip_variant};
use carbonite::spot::{FieldList, Spot};
use carbonite::trace::{TNode, TVariant};
use carbonite::tracer::{
    annotate, choose_variant, deeper, prior_variant, record_enum, Priors, TraceMap, TraceSeq,
    TraceStruct, Tracing,
};
use carbonite::value::{Scalar, Value, SHARED_TOKEN};
use carbonite::{
    ColumnCursor, Deserializer, Error, Primitive, Schema, SchemaNode, SelfDescribingSerializer,
    Serializer, VariantNode,
};

// ---------------------------------------------------------------------------
// Types.
// ---------------------------------------------------------------------------

#[derive(Clone)]
enum Type {
    Bool,
    Int(Primitive),
    Float,
    Wide,
    Char,
    Text,
    Unit,
    /// An even number; others are rejected.
    Even,
    /// A type that asks for whatever comes, as an untagged enum does.
    Loose,
    Opt(Box<Type>),
    List(Box<Type>),
    Dict(Box<Type>, Box<Type>),
    Shared(Box<Type>),
    Tuple(Vec<Type>),
    Newtype(&'static str, Box<Type>),
    TupleStruct(&'static str, Vec<Slot>),
    Struct(&'static str, Vec<Slot>),
    Enum(&'static str, Vec<Case>),
}

/// A field, with the other names it is read from and its default.
#[derive(Clone)]
struct Slot {
    name: &'static str,
    aliases: Vec<&'static str>,
    ty: Type,
    default: Option<fn() -> Value>,
}

#[derive(Clone)]
struct Case {
    name: &'static str,
    aliases: Vec<&'static str>,
    body: Body,
}

#[derive(Clone)]
enum Body {
    Unit,
    Newtype(Type),
    Tuple(Vec<Slot>),
    Struct(Vec<Slot>),
}

const U8: Type = Type::Int(Primitive::U8);
const U16: Type = Type::Int(Primitive::U16);
const U32: Type = Type::Int(Primitive::U32);
const U64: Type = Type::Int(Primitive::U64);
const I8: Type = Type::Int(Primitive::I8);
const I32: Type = Type::Int(Primitive::I32);
const I64: Type = Type::Int(Primitive::I64);

fn field(name: &'static str, ty: Type) -> Slot {
    Slot {
        name,
        aliases: Vec::new(),
        ty,
        default: None,
    }
}

fn alias(other: &'static str, mut slot: Slot) -> Slot {
    slot.aliases.push(other);
    slot
}

fn default(value: fn() -> Value, mut slot: Slot) -> Slot {
    slot.default = Some(value);
    slot
}

/// A positional field.
fn at(ty: Type) -> Slot {
    field("", ty)
}

fn case(name: &'static str, body: Body) -> Case {
    Case {
        name,
        aliases: Vec::new(),
        body,
    }
}

fn list(ty: Type) -> Type {
    Type::List(Box::new(ty))
}

fn opt(ty: Type) -> Type {
    Type::Opt(Box::new(ty))
}

// ---------------------------------------------------------------------------
// The schema of a type, as a derive would write it.
// ---------------------------------------------------------------------------

fn node(ty: &Type) -> SchemaNode {
    match ty {
        Type::Bool => SchemaNode::Primitive(Primitive::Bool),
        Type::Int(p) => SchemaNode::Primitive(*p),
        Type::Float => SchemaNode::Primitive(Primitive::F32),
        Type::Wide => SchemaNode::Primitive(Primitive::F64),
        Type::Char => SchemaNode::Primitive(Primitive::Char),
        Type::Text => SchemaNode::String,
        Type::Unit => SchemaNode::Unit,
        Type::Even => SchemaNode::Primitive(Primitive::U32),
        Type::Loose => panic!("no schema"),
        Type::Opt(inner) => SchemaNode::Option(Box::new(node(inner))),
        Type::List(inner) => SchemaNode::Sequence(Box::new(node(inner))),
        Type::Dict(key, value) => SchemaNode::Mapping {
            key: Box::new(node(key)),
            value: Box::new(node(value)),
        },
        Type::Shared(inner) => SchemaNode::Shared(Box::new(node(inner))),
        Type::Tuple(parts) => SchemaNode::Tuple(parts.iter().map(node).collect()),
        Type::Newtype(name, inner) => SchemaNode::NewtypeStruct {
            name: (*name).to_owned(),
            inner: Box::new(node(inner)),
        },
        Type::TupleStruct(name, slots) => SchemaNode::TupleStruct {
            name: (*name).to_owned(),
            fields: slots.iter().map(|slot| node(&slot.ty)).collect(),
        },
        Type::Struct(name, slots) => SchemaNode::Struct {
            name: (*name).to_owned(),
            fields: named_nodes(slots),
        },
        Type::Enum(name, cases) => SchemaNode::Enum {
            name: (*name).to_owned(),
            variants: cases
                .iter()
                .map(|case| {
                    let body = match &case.body {
                        Body::Unit => VariantNode::Unit,
                        Body::Newtype(inner) => VariantNode::Newtype(Box::new(node(inner))),
                        Body::Tuple(slots) => {
                            VariantNode::Tuple(slots.iter().map(|slot| node(&slot.ty)).collect())
                        }
                        Body::Struct(slots) => VariantNode::Struct(named_nodes(slots)),
                    };
                    (case.name.to_owned(), body)
                })
                .collect(),
        },
    }
}

fn named_nodes(slots: &[Slot]) -> Vec<(String, SchemaNode)> {
    slots
        .iter()
        .map(|slot| (slot.name.to_owned(), node(&slot.ty)))
        .collect()
}

// ---------------------------------------------------------------------------
// Reading.
// ---------------------------------------------------------------------------

type Read<T> = Result<T, Error>;

fn say(text: String) -> Error {
    Error::Message(text)
}

struct Reader<'c, 'de> {
    cursors: &'c mut [ColumnCursor<'de>],
    regs: ReadState<Rc<Value>>,
    fast: bool,
}

fn whole(x: Scalar) -> Option<i128> {
    Some(match x {
        Scalar::I8(v) => i128::from(v),
        Scalar::I16(v) => i128::from(v),
        Scalar::I32(v) => i128::from(v),
        Scalar::I64(v) => i128::from(v),
        Scalar::U8(v) => i128::from(v),
        Scalar::U16(v) => i128::from(v),
        Scalar::U32(v) => i128::from(v),
        Scalar::U64(v) => i128::from(v),
        _ => return None,
    })
}

fn into_int(p: Primitive, v: i128) -> Option<Scalar> {
    match p {
        Primitive::U8 => u8::try_from(v).ok().map(Scalar::U8),
        Primitive::U16 => u16::try_from(v).ok().map(Scalar::U16),
        Primitive::U32 => u32::try_from(v).ok().map(Scalar::U32),
        Primitive::U64 => u64::try_from(v).ok().map(Scalar::U64),
        Primitive::I8 => i8::try_from(v).ok().map(Scalar::I8),
        Primitive::I16 => i16::try_from(v).ok().map(Scalar::I16),
        Primitive::I32 => i32::try_from(v).ok().map(Scalar::I32),
        Primitive::I64 => i64::try_from(v).ok().map(Scalar::I64),
        _ => None,
    }
}

fn float(x: f32) -> Value {
    Value::Scalar(Scalar::F32(x.to_bits()))
}

impl<'de> Reader<'_, 'de> {
    fn step<'s>(&mut self, spot: Spot<'s>) -> Read<Step<'s, 'de>> {
        dispatch(spot, self.fast, self.cursors, &mut self.regs)
    }

    fn read(&mut self, ty: &Type, spot: Spot<'_>) -> Read<Value> {
        match ty {
            Type::Bool | Type::Int(_) | Type::Float | Type::Wide | Type::Char | Type::Even => {
                let Step::Scalar(x) = self.step(spot)? else {
                    return Err(say("invalid type: expected a number".to_owned()));
                };
                self.scalar(ty, x)
            }
            Type::Text => match self.step(spot)? {
                Step::Str(text) => Ok(Value::Str(text.to_owned())),
                _ => Err(say("invalid type: expected a string".to_owned())),
            },
            Type::Unit => {
                skip_value(spot, self.cursors, &mut self.regs)?;
                Ok(Value::Unit)
            }
            Type::Loose => Err(say("nothing to read".to_owned())),
            Type::Opt(inner) => match spot.plan(self.fast, &Ask::Option)? {
                Plan::Present => Ok(Value::Present(Box::new(self.read(inner, spot)?))),
                _ => match self.step(spot)? {
                    Step::Absent => Ok(Value::Absent),
                    Step::Present(held) => Ok(Value::Present(Box::new(self.read(inner, held)?))),
                    _ => Err(say("invalid type: expected an option".to_owned())),
                },
            },
            Type::List(inner) => match self.step(spot)? {
                Step::Items(mut items) => {
                    let mut out = Vec::new();
                    while let Some(elem) = items.next_element() {
                        out.push(self.read(inner, elem)?);
                    }
                    Ok(Value::Sequence(out))
                }
                _ => Err(say("invalid type: expected a sequence".to_owned())),
            },
            Type::Dict(key, value) => match self.step(spot)? {
                Step::Entries(mut entries) => {
                    let mut out = Vec::new();
                    while let Some(place) = entries.next_key() {
                        let k = self.read(key, place)?;
                        let place = entries.next_value()?;
                        out.push((k, self.read(value, place)?));
                    }
                    Ok(Value::Mapping(out))
                }
                _ => Err(say("invalid type: expected a map".to_owned())),
            },
            Type::Shared(inner) => match spot.plan(self.fast, &Ask::Newtype(SHARED_TOKEN))? {
                Plan::Shared { key, inner: held } => {
                    match read_shared(key, self.cursors, &mut self.regs)? {
                        ReadSlot::Repeat(object) => Ok(Value::Shared {
                            id: 0,
                            inner: object,
                        }),
                        ReadSlot::New(index) => {
                            let object = Rc::new(self.read(inner, held)?);
                            self.regs.fulfill(key, index, object.clone());
                            Ok(Value::Shared {
                                id: 0,
                                inner: object,
                            })
                        }
                    }
                }
                Plan::Newtype(held) => Ok(Value::Shared {
                    id: 0,
                    inner: Rc::new(self.read(inner, held)?),
                }),
                _ => Err(say("invalid type: expected a shared value".to_owned())),
            },
            Type::Newtype(name, inner) => match spot.plan(self.fast, &Ask::Newtype(name))? {
                Plan::Newtype(held) => Ok(Value::NewtypeStruct {
                    name: (*name).to_owned(),
                    inner: Box::new(self.read(inner, held)?),
                }),
                Plan::Product(fields) => {
                    let slots = [at((**inner).clone())];
                    let mut parts = self.in_order(&slots, fields)?;
                    Ok(Value::NewtypeStruct {
                        name: (*name).to_owned(),
                        inner: Box::new(parts.remove(0)),
                    })
                }
                _ => Err(say("invalid type: expected a newtype struct".to_owned())),
            },
            Type::Tuple(parts) => {
                let slots: Vec<Slot> = parts.iter().map(|part| at(part.clone())).collect();
                Ok(Value::Tuple(self.positional(&slots, spot)?))
            }
            Type::TupleStruct(name, slots) => Ok(Value::TupleStruct {
                name: (*name).to_owned(),
                fields: self.positional(slots, spot)?,
            }),
            Type::Struct(name, slots) => {
                let names = all_names(slots);
                let fields = match spot.plan(self.fast, &Ask::Struct(&names))? {
                    Plan::Product(fields) => pair(slots, self.in_order(slots, fields)?),
                    Plan::ByName(fields) => self.by_key(slots, fields, false)?,
                    Plan::Numbered(fields) => self.by_key(slots, fields, true)?,
                    _ => match self.step(spot)? {
                        Step::ByName(fields) => self.by_key(slots, fields, false)?,
                        Step::Fields(fields) => pair(slots, self.in_order(slots, fields)?),
                        _ => return Err(say(format!("invalid type: expected struct {name}"))),
                    },
                };
                Ok(Value::Struct {
                    name: (*name).to_owned(),
                    fields,
                })
            }
            Type::Enum(_, cases) => self.variant(cases, spot),
        }
    }

    fn scalar(&mut self, ty: &Type, x: Scalar) -> Read<Value> {
        let found = match (ty, x) {
            (Type::Bool, Scalar::Bool(_)) | (Type::Char, Scalar::Char(_)) => Some(x),
            (Type::Int(p), x) => whole(x).and_then(|v| into_int(*p, v)),
            (Type::Float, Scalar::F32(_)) | (Type::Wide, Scalar::F64(_)) => Some(x),
            (Type::Float, x) => whole(x).map(|v| Scalar::F32((v as f32).to_bits())),
            (Type::Even, Scalar::U32(v)) => {
                if v % 2 != 0 {
                    return Err(say("odd".to_owned()));
                }
                Some(x)
            }
            _ => None,
        };
        match found {
            Some(x) => Ok(Value::Scalar(x)),
            None => Err(say(format!("invalid value {x:?}"))),
        }
    }

    fn positional(&mut self, slots: &[Slot], spot: Spot<'_>) -> Read<Vec<Value>> {
        match spot.plan(self.fast, &Ask::Positional)? {
            Plan::Product(fields) => self.in_order(slots, fields),
            _ => match self.step(spot)? {
                Step::Fields(fields) => self.in_order(slots, fields),
                _ => Err(say("invalid type: expected a tuple".to_owned())),
            },
        }
    }

    /// Reads fields by position, and passes over those that are left.
    fn in_order(&mut self, slots: &[Slot], fields: FieldList<'_>) -> Read<Vec<Value>> {
        let mut left = FieldsLeft::new(fields);
        let mut out = Vec::new();
        for slot in slots {
            match left.next_field() {
                Some(spot) => out.push(self.read(&slot.ty, spot)?),
                None => match slot.default {
                    Some(default) => out.push(default()),
                    None => {
                        return Err(say(format!("invalid length {}", out.len())));
                    }
                },
            }
        }
        skip_rest(fields, left.index(), self.cursors, &mut self.regs)?;
        Ok(out)
    }

    /// Reads fields by the writer's names, or by number.
    fn by_key(
        &mut self,
        slots: &[Slot],
        fields: FieldList<'_>,
        numbered: bool,
    ) -> Read<Vec<(String, Value)>> {
        let mut left = FieldsLeft::new(fields);
        let mut found: Vec<Option<Value>> = slots.iter().map(|_| None).collect();
        loop {
            let key = if numbered {
                left.next_number()
            } else {
                left.next_name().map(str::to_owned)
            };
            let Some(key) = key else { break };
            let spot = left.next_field().unwrap();
            match slots.iter().position(|slot| answers(slot, &key)) {
                Some(i) => found[i] = Some(self.read(&slots[i].ty, spot)?),
                None => skip_value(spot, self.cursors, &mut self.regs)?,
            }
        }
        let mut out = Vec::new();
        for (slot, value) in slots.iter().zip(found) {
            let value = match (value, slot.default) {
                (Some(value), _) => value,
                (None, Some(default)) => default(),
                (None, None) => return Err(say(format!("missing field `{}`", slot.name))),
            };
            out.push((slot.name.to_owned(), value));
        }
        Ok(out)
    }

    fn variant(&mut self, cases: &[Case], spot: Spot<'_>) -> Read<Value> {
        let Step::Variant(held) = self.step(spot)? else {
            return Err(say("invalid type: expected an enum".to_owned()));
        };
        let Some(index) = cases
            .iter()
            .position(|case| case.name == held.name() || case.aliases.contains(&held.name()))
        else {
            return Err(say(format!("unknown variant `{}`", held.name())));
        };
        let case = &cases[index];
        let index = index as u64;
        let variant = case.name.to_owned();
        match &case.body {
            Body::Unit => {
                skip_variant(held, self.cursors, &mut self.regs)?;
                Ok(Value::UnitVariant { index, variant })
            }
            Body::Newtype(ty) => match held.plan(self.fast, &VariantAsk::Newtype)? {
                VariantPlan::Only(only) => Ok(Value::NewtypeVariant {
                    index,
                    variant,
                    inner: Box::new(self.read(ty, only)?),
                }),
                _ => Err(say("invalid payload".to_owned())),
            },
            Body::Tuple(slots) => match held.plan(self.fast, &VariantAsk::Tuple)? {
                VariantPlan::Product(fields) => Ok(Value::TupleVariant {
                    index,
                    variant,
                    fields: self.in_order(slots, fields)?,
                }),
                _ => Err(say("invalid payload".to_owned())),
            },
            Body::Struct(slots) => {
                let names = all_names(slots);
                let fields = match held.plan(self.fast, &VariantAsk::Struct(&names))? {
                    VariantPlan::Product(fields) => pair(slots, self.in_order(slots, fields)?),
                    VariantPlan::ByName(fields) => self.by_key(slots, fields, false)?,
                    VariantPlan::Numbered(fields) => self.by_key(slots, fields, true)?,
                    _ => return Err(say("invalid payload".to_owned())),
                };
                Ok(Value::StructVariant {
                    index,
                    variant,
                    fields,
                })
            }
        }
    }
}

fn answers(slot: &Slot, key: &str) -> bool {
    slot.name == key || slot.aliases.contains(&key)
}

fn all_names(slots: &[Slot]) -> Vec<&'static str> {
    slots
        .iter()
        .flat_map(|slot| std::iter::once(slot.name).chain(slot.aliases.iter().copied()))
        .collect()
}

fn pair(slots: &[Slot], values: Vec<Value>) -> Vec<(String, Value)> {
    slots
        .iter()
        .map(|slot| slot.name.to_owned())
        .zip(values)
        .collect()
}

/// Reads every row of a blob that was written with `writer`.
fn read_rows(writer: &SchemaNode, blob: &[u8], ty: &Type, fast: bool) -> Read<Vec<Value>> {
    let de = Deserializer::<()>::build(Cow::Owned(Schema::from_node(writer.clone())), fast);
    let mut rows = de.rows(blob)?;
    let mut out = Vec::new();
    while rows.begin_row() {
        let spot = rows.spot();
        let columns = rows.cursors().len();
        let mut reader = Reader {
            cursors: rows.cursors(),
            regs: ReadState::new(columns),
            fast,
        };
        let value = reader.read(ty, spot);
        rows.end_row(value.is_ok())?;
        out.push(value?);
    }
    Ok(out)
}

fn read_one(writer: &SchemaNode, blob: &[u8], ty: &Type) -> Read<Value> {
    let mut rows = read_rows(writer, blob, ty, false)?;
    assert_eq!(rows.len(), 1);
    Ok(rows.remove(0))
}

/// Writes a value with the schema of one type and reads it as another, with
/// the schema arriving as bytes.
fn migrate(from: &Type, value: &Value, to: &Type) -> Read<Value> {
    let schema = Schema::<()>::from_node(node(from));
    let blob = Serializer::new(&schema).to_vec(value).unwrap();
    let reader = Schema::<()>::from_bytes(&schema.to_bytes()).unwrap();
    read_one(reader.node(), &blob, to)
}

// ---------------------------------------------------------------------------
// Values.
// ---------------------------------------------------------------------------

fn u8v(x: u8) -> Value {
    Value::Scalar(Scalar::U8(x))
}

fn u32v(x: u32) -> Value {
    Value::Scalar(Scalar::U32(x))
}

fn text(s: &str) -> Value {
    Value::Str(s.to_owned())
}

fn record(name: &str, fields: Vec<(&str, Value)>) -> Value {
    Value::Struct {
        name: name.to_owned(),
        fields: fields
            .into_iter()
            .map(|(name, value)| (name.to_owned(), value))
            .collect(),
    }
}

fn struct_variant(index: u64, variant: &str, fields: Vec<(&str, Value)>) -> Value {
    Value::StructVariant {
        index,
        variant: variant.to_owned(),
        fields: fields
            .into_iter()
            .map(|(name, value)| (name.to_owned(), value))
            .collect(),
    }
}

fn tuple_struct(name: &str, fields: Vec<Value>) -> Value {
    Value::TupleStruct {
        name: name.to_owned(),
        fields,
    }
}

// ---------------------------------------------------------------------------
// Evolution of named fields.
// ---------------------------------------------------------------------------

fn weapon_v1() -> Type {
    Type::Enum(
        "WeaponV1",
        vec![
            case("Sword", Body::Unit),
            case("Bow", Body::Struct(vec![field("range", U32)])),
        ],
    )
}

fn save_v1() -> Type {
    Type::Struct(
        "SaveV1",
        vec![
            field("id", U32),
            field("name", Type::Text),
            field("hp", U32),
            field("inventory", list(Type::Text)),
            field("weapon", weapon_v1()),
        ],
    )
}

fn bow() -> Value {
    struct_variant(1, "Bow", vec![("range", u32v(12))])
}

fn items() -> Value {
    Value::Sequence(vec![text("rope"), text("torch")])
}

fn v1_value() -> Value {
    record(
        "SaveV1",
        vec![
            ("id", u32v(7)),
            ("name", text("Ada")),
            ("hp", u32v(90)),
            ("inventory", items()),
            ("weapon", bow()),
        ],
    )
}

fn read_v1_as(ty: &Type) -> Read<Value> {
    migrate(&save_v1(), &v1_value(), ty)
}

#[test]
fn added_field_uses_its_default() {
    let v2 = Type::Struct(
        "SaveV2",
        vec![
            field("id", U32),
            field("name", Type::Text),
            field("hp", U32),
            default(|| u32v(50), field("mana", U32)),
            field("inventory", list(Type::Text)),
            field("weapon", weapon_v1()),
            default(|| Value::Absent, field("motto", opt(Type::Text))),
        ],
    );
    assert_eq!(
        read_v1_as(&v2).unwrap(),
        record(
            "SaveV2",
            vec![
                ("id", u32v(7)),
                ("name", text("Ada")),
                ("hp", u32v(90)),
                ("mana", u32v(50)),
                ("inventory", items()),
                ("weapon", bow()),
                ("motto", Value::Absent),
            ]
        )
    );
}

#[test]
fn removed_field_is_skipped() {
    // `name` and `inventory` (a variable-width field) are gone.
    let v2 = Type::Struct(
        "SaveV2",
        vec![
            field("id", U32),
            field("hp", U32),
            field("weapon", weapon_v1()),
        ],
    );
    assert_eq!(
        read_v1_as(&v2).unwrap(),
        record(
            "SaveV2",
            vec![("id", u32v(7)), ("hp", u32v(90)), ("weapon", bow())]
        )
    );
}

#[test]
fn reordered_fields_match_by_name() {
    let v2 = Type::Struct(
        "SaveV2",
        vec![
            field("hp", U32),
            field("weapon", weapon_v1()),
            field("name", Type::Text),
            field("id", U32),
            field("inventory", list(Type::Text)),
        ],
    );
    assert_eq!(
        read_v1_as(&v2).unwrap(),
        record(
            "SaveV2",
            vec![
                ("hp", u32v(90)),
                ("weapon", bow()),
                ("name", text("Ada")),
                ("id", u32v(7)),
                ("inventory", items()),
            ]
        )
    );
}

#[test]
fn renamed_field_needs_an_alias() {
    let with = |slot: Slot| {
        Type::Struct(
            "SaveV2",
            vec![
                field("id", U32),
                slot,
                field("hp", U32),
                field("inventory", list(Type::Text)),
                field("weapon", weapon_v1()),
            ],
        )
    };
    let Value::Struct { fields, .. } =
        read_v1_as(&with(alias("name", field("title", Type::Text)))).unwrap()
    else {
        panic!("expected a struct");
    };
    assert_eq!(fields[1], ("title".to_owned(), text("Ada")));
    assert!(read_v1_as(&with(field("title", Type::Text))).is_err());
}

#[test]
fn widened_integer_field_reads_old_data() {
    let v2 = Type::Struct("SaveV2", vec![field("id", U64)]);
    assert_eq!(
        read_v1_as(&v2).unwrap(),
        record("SaveV2", vec![("id", Value::Scalar(Scalar::U64(7)))])
    );
}

#[test]
fn option_wrapped_field_reads_old_data_as_some() {
    let v2 = Type::Struct("SaveV2", vec![field("name", opt(Type::Text))]);
    assert_eq!(
        read_v1_as(&v2).unwrap(),
        record(
            "SaveV2",
            vec![("name", Value::Present(Box::new(text("Ada"))))]
        )
    );
}

#[test]
fn enum_with_added_variant_reads_old_data() {
    let weapon = Type::Enum(
        "WeaponV2",
        vec![
            case("Sword", Body::Unit),
            case(
                "Bow",
                Body::Struct(vec![
                    field("range", U32),
                    default(
                        || Value::Scalar(Scalar::Bool(false)),
                        field("poisoned", Type::Bool),
                    ),
                ]),
            ),
            case("Wand", Body::Newtype(U8)), // new in V2
        ],
    );
    let v2 = Type::Struct("SaveV2", vec![field("weapon", weapon)]);
    assert_eq!(
        read_v1_as(&v2).unwrap(),
        record(
            "SaveV2",
            vec![(
                "weapon",
                struct_variant(
                    1,
                    "Bow",
                    vec![
                        ("range", u32v(12)),
                        ("poisoned", Value::Scalar(Scalar::Bool(false)))
                    ]
                )
            )]
        )
    );
}

#[test]
fn missing_field_without_default_reports_it() {
    let v2 = Type::Struct("SaveV2", vec![field("id", U32), field("stamina", U32)]);
    let err = read_v1_as(&v2).unwrap_err();
    assert!(err.to_string().contains("stamina"), "unexpected error: {err:?}");
}

#[test]
fn self_describing_blobs_evolve_too() {
    let value = record(
        "SaveV1",
        vec![
            ("id", u32v(1)),
            ("name", text("Grace")),
            ("hp", u32v(70)),
            ("inventory", Value::Sequence(vec![])),
            (
                "weapon",
                Value::UnitVariant {
                    index: 0,
                    variant: "Sword".to_owned(),
                },
            ),
        ],
    );
    let schema = Schema::<()>::from_node(node(&save_v1()));
    let bytes = SelfDescribingSerializer::new(&schema).to_vec(&value).unwrap();
    let (found, data) = carbonite::peek_schema::<()>(&bytes).unwrap();
    let v2 = Type::Struct(
        "SaveV2",
        vec![
            field("id", U32),
            field("name", Type::Text),
            field("hp", U32),
            default(|| u32v(0), field("mana", U32)),
            field("weapon", weapon_v1()),
        ],
    );
    assert_eq!(
        read_one(found.node(), data, &v2).unwrap(),
        record(
            "SaveV2",
            vec![
                ("id", u32v(1)),
                ("name", text("Grace")),
                ("hp", u32v(70)),
                ("mana", u32v(0)),
                (
                    "weapon",
                    Value::UnitVariant {
                        index: 0,
                        variant: "Sword".to_owned()
                    }
                ),
            ]
        )
    );
}

// ---------------------------------------------------------------------------
// Evolution of shapes.
// ---------------------------------------------------------------------------

fn v0() -> Type {
    Type::TupleStruct("V0", vec![at(Type::Float), at(Type::Float)])
}

fn v0_value() -> Value {
    tuple_struct("V0", vec![float(1.0), float(2.0)])
}

fn v1() -> Type {
    Type::Struct(
        "V1",
        vec![
            alias("0", field("x", Type::Float)),
            alias("1", field("y", Type::Float)),
        ],
    )
}

/// V2 reorders V1's fields, which is a supported no-op.
fn v2() -> Type {
    Type::Struct(
        "V2",
        vec![
            alias("1", field("y", Type::Float)),
            alias("0", field("x", Type::Float)),
        ],
    )
}

#[test]
fn a_shape_change_and_a_later_reorder_compose() {
    // Every later version agrees on which of V0's two values is which...
    assert_eq!(
        migrate(&v0(), &v0_value(), &v1()).unwrap(),
        record("V1", vec![("x", float(1.0)), ("y", float(2.0))])
    );
    assert_eq!(
        migrate(&v0(), &v0_value(), &v2()).unwrap(),
        record("V2", vec![("y", float(2.0)), ("x", float(1.0))])
    );
    // ...and the intermediate step agrees too.
    let middle = record("V1", vec![("x", float(1.0)), ("y", float(2.0))]);
    assert_eq!(
        migrate(&v1(), &middle, &v2()).unwrap(),
        record("V2", vec![("y", float(2.0)), ("x", float(1.0))])
    );
}

/// Without the tags the same migration is refused, rather than quietly
/// depending on declaration order.
#[test]
fn an_untagged_shape_change_is_refused() {
    let untagged = Type::Struct(
        "Untagged",
        vec![field("x", Type::Float), field("y", Type::Float)],
    );
    let err = migrate(&v0(), &v0_value(), &untagged)
        .unwrap_err()
        .to_string();
    assert!(err.contains("alias = \"0\""), "{err}");
    assert!(err.contains("alias = \"1\""), "{err}");
}

/// One tag opts the whole reader in, so a field left untagged matches nothing
/// and is reported, never filled from whichever position happened to line up.
#[test]
fn an_untagged_field_in_a_tagged_reader_is_reported() {
    let half = Type::Struct(
        "HalfTagged",
        vec![
            alias("1", field("y", Type::Float)),
            field("x", Type::Float),
        ],
    );
    let err = migrate(&v0(), &v0_value(), &half).unwrap_err().to_string();
    assert!(err.contains('x'), "{err}");
}

/// The reverse direction cannot be tagged at all, so it is always refused.
#[test]
fn a_named_payload_is_never_read_into_a_tuple() {
    let named = Type::Struct(
        "Named",
        vec![field("x", Type::Float), field("y", Type::Float)],
    );
    let value = record("Named", vec![("x", float(1.0)), ("y", float(2.0))]);
    let err = migrate(&named, &value, &v0()).unwrap_err().to_string();
    assert!(err.contains("nowhere to declare"), "{err}");
}

fn newtype_variant() -> Type {
    Type::Enum("NewtypeVariant", vec![case("Apply", Body::Newtype(U32))])
}

fn apply_7() -> Value {
    Value::NewtypeVariant {
        index: 0,
        variant: "Apply".to_owned(),
        inner: Box::new(u32v(7)),
    }
}

fn tuple2_variant() -> Type {
    Type::Enum(
        "Tuple2Variant",
        vec![case("Apply", Body::Tuple(vec![at(U32), at(U32)]))],
    )
}

fn apply_struct(name: &'static str, slots: Vec<Slot>) -> Type {
    Type::Enum(name, vec![case("Apply", Body::Struct(slots))])
}

#[test]
fn a_newtype_variant_becomes_a_struct_variant() {
    let tagged = apply_struct("Tagged", vec![alias("0", field("id", U32))]);
    let untagged = apply_struct("Untagged", vec![field("id", U32)]);
    assert_eq!(
        migrate(&newtype_variant(), &apply_7(), &tagged).unwrap(),
        struct_variant(0, "Apply", vec![("id", u32v(7))])
    );
    let err = migrate(&newtype_variant(), &apply_7(), &untagged)
        .unwrap_err()
        .to_string();
    assert!(err.contains("alias = \"0\""), "{err}");
}

#[test]
fn a_tuple_variant_becomes_a_struct_variant() {
    let tagged = apply_struct(
        "Tagged",
        vec![alias("1", field("y", U32)), alias("0", field("x", U32))],
    );
    let value = Value::TupleVariant {
        index: 0,
        variant: "Apply".to_owned(),
        fields: vec![u32v(1), u32v(2)],
    };
    assert_eq!(
        migrate(&tuple2_variant(), &value, &tagged).unwrap(),
        struct_variant(0, "Apply", vec![("y", u32v(2)), ("x", u32v(1))])
    );
}

#[test]
fn a_struct_variant_is_never_read_into_a_tuple_variant() {
    let named = apply_struct("NamedVariant", vec![field("x", U32), field("y", U32)]);
    let value = struct_variant(0, "Apply", vec![("x", u32v(1)), ("y", u32v(2))]);
    let err = migrate(&named, &value, &tuple2_variant())
        .unwrap_err()
        .to_string();
    assert!(err.contains("nowhere to declare"), "{err}");
    let err = migrate(&named, &value, &newtype_variant())
        .unwrap_err()
        .to_string();
    assert!(err.contains("nowhere to declare"), "{err}");
}

/// Once both sides have names, matching is by name and order is irrelevant:
/// the step the shape rule has to compose with.
#[test]
fn named_data_matches_by_name_not_position() {
    let original = apply_struct("Original", vec![field("x", U32), field("y", U32)]);
    let reordered = apply_struct("Reordered", vec![field("y", U32), field("x", U32)]);
    let value = struct_variant(0, "Apply", vec![("x", u32v(1)), ("y", u32v(2))]);
    assert_eq!(
        migrate(&original, &value, &reordered).unwrap(),
        struct_variant(0, "Apply", vec![("y", u32v(2)), ("x", u32v(1))])
    );
}

#[test]
fn a_newtype_struct_becomes_a_struct() {
    let before = Type::Newtype("Before", Box::new(U32));
    let after = Type::Struct("After", vec![alias("0", field("id", U32))]);
    let value = Value::NewtypeStruct {
        name: "Before".to_owned(),
        inner: Box::new(u32v(7)),
    };
    assert_eq!(
        migrate(&before, &value, &after).unwrap(),
        record("After", vec![("id", u32v(7))])
    );
}

#[test]
fn a_tuple_struct_becomes_a_struct() {
    let before = Type::TupleStruct("Before", vec![at(U32), at(U32)]);
    let after = Type::Struct(
        "After",
        vec![alias("1", field("y", U32)), alias("0", field("x", U32))],
    );
    let value = tuple_struct("Before", vec![u32v(1), u32v(2)]);
    assert_eq!(
        migrate(&before, &value, &after).unwrap(),
        record("After", vec![("y", u32v(2)), ("x", u32v(1))])
    );
}

/// A field the writer never had still needs a default, tagged or not.
#[test]
fn a_tagged_reader_still_reports_a_missing_field() {
    let before = Type::TupleStruct("Before", vec![at(U32), at(U32)]);
    let after = Type::Struct(
        "After",
        vec![
            alias("0", field("x", U32)),
            alias("1", field("y", U32)),
            field("z", U32),
        ],
    );
    let value = tuple_struct("Before", vec![u32v(1), u32v(2)]);
    let err = migrate(&before, &value, &after).unwrap_err();
    assert!(err.to_string().contains('z'), "unexpected error: {err:?}");
}

/// A positional group gains a field under the same rule a struct does.
#[test]
fn a_tuple_struct_can_gain_a_field() {
    let short = Type::TupleStruct("Short", vec![at(U32), at(Type::Float)]);
    let grown = Type::TupleStruct(
        "Grown",
        vec![at(U32), at(Type::Float), default(|| u8v(0), at(U8))],
    );
    let strict = Type::TupleStruct("Strict", vec![at(U32), at(Type::Float), at(U8)]);
    let two = tuple_struct("Short", vec![u32v(1), float(2.0)]);
    assert_eq!(
        migrate(&short, &two, &grown).unwrap(),
        tuple_struct("Grown", vec![u32v(1), float(2.0), u8v(0)])
    );
    assert!(migrate(&short, &two, &strict).is_err());
    let three = tuple_struct("Grown", vec![u32v(1), float(2.0), u8v(3)]);
    assert_eq!(
        migrate(&grown, &three, &short).unwrap(),
        tuple_struct("Short", vec![u32v(1), float(2.0)])
    );
}

/// A *bare* tuple cannot, having nowhere to put a default. Shrinking is fine.
#[test]
fn a_bare_tuple_cannot_gain_a_field() {
    let three = Type::Tuple(vec![U32, Type::Float, U8]);
    let two = Type::Tuple(vec![U32, Type::Float]);
    assert_eq!(
        migrate(
            &three,
            &Value::Tuple(vec![u32v(1), float(2.0), u8v(3)]),
            &two
        )
        .unwrap(),
        Value::Tuple(vec![u32v(1), float(2.0)])
    );
    let err = migrate(&two, &Value::Tuple(vec![u32v(1), float(2.0)]), &three).unwrap_err();
    assert!(
        err.to_string().contains("invalid length"),
        "unexpected error: {err:?}"
    );
}

/// A variant's payload grows the same way.
#[test]
fn a_variant_can_gain_a_field() {
    let grown = Type::Enum(
        "Grown",
        vec![case(
            "Apply",
            Body::Tuple(vec![at(U32), default(|| u32v(0), at(U32))]),
        )],
    );
    assert_eq!(
        migrate(&newtype_variant(), &apply_7(), &grown).unwrap(),
        Value::TupleVariant {
            index: 0,
            variant: "Apply".to_owned(),
            fields: vec![u32v(7), u32v(0)],
        }
    );
}

/// A reader with fewer fields than the writer stops pulling early, but the
/// fields it never asked for still own columns in the row.
#[test]
fn a_narrower_reader_still_advances_the_writers_columns() {
    let wide = Type::TupleStruct("Wide", vec![at(U32), at(U32), at(U32)]);
    let narrow = Type::TupleStruct("Narrow", vec![at(U32), at(U32)]);
    let schema = Schema::<()>::from_node(node(&wide));
    let ser = Serializer::new(&schema);
    let mut batch = ser.batch();
    for row in [[1, 2, 3], [4, 5, 6], [7, 8, 9]] {
        batch
            .push(&tuple_struct("Wide", row.into_iter().map(u32v).collect()))
            .unwrap();
    }
    let blob = batch.finish();
    let rows = read_rows(schema.node(), &blob, &narrow, false).unwrap();
    let expected: Vec<Value> = [[1, 2], [4, 5], [7, 8]]
        .into_iter()
        .map(|row| tuple_struct("Narrow", row.into_iter().map(u32v).collect()))
        .collect();
    assert_eq!(rows, expected);
}

/// The tagged path drops positions by no longer naming them.
#[test]
fn a_tagged_reader_can_drop_a_position() {
    let wide = Type::TupleStruct("Wide", vec![at(U32), at(U32), at(U32)]);
    let narrow = Type::Struct(
        "Narrow",
        vec![alias("2", field("z", U32)), alias("0", field("x", U32))],
    );
    let value = tuple_struct("Wide", vec![u32v(1), u32v(2), u32v(3)]);
    assert_eq!(
        migrate(&wide, &value, &narrow).unwrap(),
        record("Narrow", vec![("z", u32v(3)), ("x", u32v(1))])
    );
}

#[test]
fn self_describing_blobs_follow_the_same_rule() {
    let tagged = apply_struct("Tagged", vec![alias("0", field("id", U32))]);
    let untagged = apply_struct("Untagged", vec![field("id", U32)]);
    let schema = Schema::<()>::from_node(node(&newtype_variant()));
    let bytes = SelfDescribingSerializer::new(&schema)
        .to_vec(&apply_7())
        .unwrap();
    let (found, data) = carbonite::peek_schema::<()>(&bytes).unwrap();
    assert_eq!(
        read_one(found.node(), data, &tagged).unwrap(),
        struct_variant(0, "Apply", vec![("id", u32v(7))])
    );
    assert!(read_one(found.node(), data, &untagged).is_err());
}

/// A plain value that was promoted to a struct of its own, and a unit that
/// grew fields.
#[test]
fn plain_values_and_units_can_grow_into_structs() {
    let layer = Type::Struct("Layer", vec![alias("0", field("id", U32))]);
    assert_eq!(
        migrate(&U32, &u32v(9), &layer).unwrap(),
        record("Layer", vec![("id", u32v(9))])
    );
    let wrapped = Type::Newtype("Layer", Box::new(U32));
    assert_eq!(
        migrate(&U32, &u32v(9), &wrapped).unwrap(),
        Value::NewtypeStruct {
            name: "Layer".to_owned(),
            inner: Box::new(u32v(9)),
        }
    );
    let grown = Type::Struct("Grown", vec![default(|| u32v(3), field("id", U32))]);
    assert_eq!(
        migrate(&Type::Unit, &Value::Unit, &grown).unwrap(),
        record("Grown", vec![("id", u32v(3))])
    );
}

/// On the fast path the writer's own type is read in order.
#[test]
fn the_writers_own_type_reads_positionally() {
    let schema = Schema::<()>::from_node(node(&save_v1()));
    let blob = Serializer::new(&schema).to_vec(&v1_value()).unwrap();
    assert_eq!(
        read_rows(schema.node(), &blob, &save_v1(), true).unwrap(),
        vec![v1_value()]
    );
    assert_eq!(
        read_rows(schema.node(), &blob, &save_v1(), false).unwrap(),
        vec![v1_value()]
    );
}

// ---------------------------------------------------------------------------
// Retired slots, from the reader's side.
// ---------------------------------------------------------------------------

fn save_v0() -> Type {
    Type::Struct("Save", vec![field("id", U32), field("hp", U32)])
}

fn save_v0_value() -> Value {
    record("Save", vec![("id", u32v(7)), ("hp", u32v(42))])
}

/// The hazard itself, pinned: without a retirement, a new field that takes a
/// removed one's name reads the old data.
#[test]
fn a_reused_name_reads_the_dead_column() {
    let reused = Type::Struct(
        "Save",
        vec![
            field("id", U32),
            default(|| float(0.0), field("hp", Type::Float)),
        ],
    );
    assert_eq!(
        migrate(&save_v0(), &save_v0_value(), &reused).unwrap(),
        record("Save", vec![("id", u32v(7)), ("hp", float(42.0))])
    );
}

/// The new field is named something else, so the dead column is skipped like
/// any other unknown field and the new one takes its default.
#[test]
fn a_retired_name_leaves_the_new_field_alone() {
    let save = Type::Struct(
        "Save",
        vec![
            field("id", U32),
            default(|| float(0.0), field("health", Type::Float)),
        ],
    );
    assert_eq!(
        migrate(&save_v0(), &save_v0_value(), &save).unwrap(),
        record("Save", vec![("id", u32v(7)), ("health", float(0.0))])
    );
}

/// A `()` placeholder may hold a retired name down.
#[test]
fn a_placeholder_may_hold_a_retired_name() {
    let save = Type::Struct(
        "Save",
        vec![
            field("id", U32),
            field("hp", Type::Unit),
            default(|| float(0.0), field("health", Type::Float)),
        ],
    );
    assert_eq!(
        migrate(&save_v0(), &save_v0_value(), &save).unwrap(),
        record(
            "Save",
            vec![
                ("id", u32v(7)),
                ("hp", Value::Unit),
                ("health", float(0.0))
            ]
        )
    );
    assert_eq!(traced(&save).unwrap(), node(&save));
}

/// Positions have no name to retire, so the slot has to be held.
#[test]
fn a_placeholder_holds_a_retired_position() {
    let before = Type::TupleStruct("Point", vec![at(Type::Float), at(U32)]);
    let point = Type::TupleStruct(
        "Point",
        vec![
            at(Type::Float),
            at(Type::Unit),
            default(|| float(0.0), at(Type::Float)),
        ],
    );
    assert_eq!(
        migrate(
            &before,
            &tuple_struct("Point", vec![float(1.5), u32v(42)]),
            &point
        )
        .unwrap(),
        tuple_struct("Point", vec![float(1.5), Value::Unit, float(0.0)])
    );
    assert_eq!(traced(&point).unwrap(), node(&point));
}

/// A retired position that nothing has grown back into needs no placeholder.
#[test]
fn a_retired_position_past_the_arity_is_fine() {
    let before = Type::TupleStruct("Point", vec![at(Type::Float), at(U32)]);
    let point = Type::Newtype("Point", Box::new(Type::Float));
    assert_eq!(
        migrate(
            &before,
            &tuple_struct("Point", vec![float(1.5), u32v(42)]),
            &point
        )
        .unwrap(),
        Value::NewtypeStruct {
            name: "Point".to_owned(),
            inner: Box::new(float(1.5)),
        }
    );
}

// ---------------------------------------------------------------------------
// Shared values.
// ---------------------------------------------------------------------------

fn asset() -> Type {
    Type::Struct("Asset", vec![field("name", Type::Text)])
}

fn asset_value(name: &str) -> Value {
    record("Asset", vec![("name", text(name))])
}

fn shared(id: u64, name: &str) -> Value {
    Value::Shared {
        id,
        inner: Rc::new(asset_value(name)),
    }
}

fn entity() -> Type {
    Type::Struct(
        "Entity",
        vec![
            field("id", U32),
            field("mesh", Type::Shared(Box::new(asset()))),
        ],
    )
}

fn entity_value(id: u32, object: u64) -> Value {
    record(
        "Entity",
        vec![("id", u32v(id)), ("mesh", shared(object, "teapot"))],
    )
}

#[test]
fn sharing_is_rebuilt() {
    let ty = list(Type::Shared(Box::new(asset())));
    let schema = Schema::<()>::from_node(node(&ty));
    let blob = Serializer::new(&schema)
        .to_vec(&Value::Sequence(vec![
            shared(10, "teapot"),
            shared(20, "bunny"),
            shared(10, "teapot"),
        ]))
        .unwrap();
    let Value::Sequence(back) = read_one(schema.node(), &blob, &ty).unwrap() else {
        panic!("expected a sequence");
    };
    let objects: Vec<&Rc<Value>> = back
        .iter()
        .map(|value| match value {
            Value::Shared { inner, .. } => inner,
            _ => panic!("expected a shared value"),
        })
        .collect();
    assert!(Rc::ptr_eq(objects[0], objects[2]));
    assert!(!Rc::ptr_eq(objects[0], objects[1]));
    assert_eq!(**objects[0], asset_value("teapot"));
    assert_eq!(**objects[1], asset_value("bunny"));
}

#[test]
fn shared_wrapper_reads_old_unshared_files() {
    // V1 had a plain field; V2 wraps it in Shared.
    let before = Type::Struct("Entity", vec![field("id", U32), field("mesh", asset())]);
    let value = record(
        "Entity",
        vec![("id", u32v(5)), ("mesh", asset_value("teapot"))],
    );
    assert_eq!(
        migrate(&before, &value, &entity()).unwrap(),
        record(
            "Entity",
            vec![("id", u32v(5)), ("mesh", shared(0, "teapot"))]
        )
    );
}

#[test]
fn plain_reader_handles_shared_files_until_a_repeat() {
    // No actual sharing: every occurrence is a first occurrence, so a plain
    // reader materializes transparently.
    let plain = Type::Struct("Entity", vec![field("id", U32), field("mesh", asset())]);
    assert_eq!(
        migrate(&entity(), &entity_value(1, 77), &plain).unwrap(),
        record(
            "Entity",
            vec![("id", u32v(1)), ("mesh", asset_value("teapot"))]
        )
    );

    // Two occurrences in *different fields* are different schema positions
    // with separate dictionaries, so no repeat occurs.
    let pair = |ty: Type| {
        Type::Struct(
            "Pair",
            vec![field("first", ty.clone()), field("second", ty)],
        )
    };
    let both = record(
        "Pair",
        vec![("first", shared(5, "dup")), ("second", shared(5, "dup"))],
    );
    assert_eq!(
        migrate(&pair(Type::Shared(Box::new(asset()))), &both, &pair(asset())).unwrap(),
        record(
            "Pair",
            vec![
                ("first", asset_value("dup")),
                ("second", asset_value("dup"))
            ]
        )
    );

    // A genuine repeat, same position and same object, cannot be materialized
    // into a plain reader and must error cleanly.
    let err = migrate(
        &list(Type::Shared(Box::new(asset()))),
        &Value::Sequence(vec![shared(5, "dup"), shared(5, "dup")]),
        &list(asset()),
    )
    .unwrap_err();
    assert!(
        err.to_string().contains("carbonite::Shared"),
        "unexpected error: {err:?}"
    );
}

#[test]
fn removed_shared_fields_skip_cleanly_even_with_repeats() {
    let slim = Type::Struct("SlimEntity", vec![field("id", U32)]);
    let value = Value::Sequence(vec![entity_value(1, 9), entity_value(2, 9)]);
    assert_eq!(
        migrate(&list(entity()), &value, &list(slim)).unwrap(),
        Value::Sequence(vec![
            record("SlimEntity", vec![("id", u32v(1))]),
            record("SlimEntity", vec![("id", u32v(2))]),
        ])
    );
}

// ---------------------------------------------------------------------------
// Tracing.
// ---------------------------------------------------------------------------

fn subtrace(ty: &Type, prior: Option<&TNode>, depth: usize) -> Read<TNode> {
    match ty {
        Type::Bool => Ok(TNode::Primitive(Primitive::Bool)),
        Type::Int(p) => Ok(TNode::Primitive(*p)),
        Type::Float => Ok(TNode::Primitive(Primitive::F32)),
        Type::Wide => Ok(TNode::Primitive(Primitive::F64)),
        Type::Char => Ok(TNode::Primitive(Primitive::Char)),
        Type::Text => Ok(TNode::String),
        Type::Unit => Ok(TNode::Unit),
        Type::Even => match synthetic(Primitive::U32) {
            Scalar::U32(x) if x % 2 == 0 => Ok(TNode::Primitive(Primitive::U32)),
            _ => Err(say("odd".to_owned())),
        },
        Type::Loose => Err(refuse(Refused::Any)),
        Type::Opt(inner) => trace_wrapper(Wrapper::Option, "", inner, prior, depth),
        Type::Shared(inner) => {
            trace_wrapper(wrapper_of(SHARED_TOKEN), SHARED_TOKEN, inner, prior, depth)
        }
        Type::Newtype(name, inner) => trace_wrapper(wrapper_of(name), name, inner, prior, depth),
        Type::List(inner) => {
            let depth = deeper(depth)?;
            let slots = [at((**inner).clone())];
            record_seq(trace_order(&slots, &seq_priors(prior), depth)?)
        }
        Type::Dict(key, value) => {
            let depth = deeper(depth)?;
            let (key_prior, value_prior) = map_priors(prior);
            let mut map = TraceMap::new();
            assert!(map.next_key()?);
            let k = subtrace(key, key_prior, depth)?;
            map.next_value()?;
            let v = subtrace(value, value_prior, depth)?;
            assert!(!map.next_key()?);
            record_map(Some(k), Some(v))
        }
        Type::Tuple(parts) => {
            let depth = deeper(depth)?;
            let slots: Vec<Slot> = parts.iter().map(|part| at(part.clone())).collect();
            record_tuple(trace_order(&slots, &tuple_priors(prior), depth)?)
        }
        Type::TupleStruct(name, slots) => {
            let depth = deeper(depth)?;
            let parts = trace_order(slots, &tuple_struct_priors(prior), depth)?;
            record_tuple_struct(name, parts)
        }
        Type::Struct(name, slots) => {
            let depth = deeper(depth)?;
            let parts = trace_named(name, slots, &struct_priors(prior), depth)?;
            record_struct(name, parts)
        }
        Type::Enum(name, cases) => {
            let depth = deeper(depth)?;
            let names: Vec<String> = cases
                .iter()
                .flat_map(|case| {
                    std::iter::once(case.name).chain(case.aliases.iter().copied())
                })
                .map(str::to_owned)
                .collect();
            let chosen = choose_variant(prior, names.len());
            // The list is longer than the enum where a variant has an alias.
            let Some(case) = cases.get(chosen) else {
                return Err(enum_failed(name, true, say("unknown variant".to_owned())));
            };
            let held = prior_variant(prior, chosen);
            let shape = match &case.body {
                Body::Unit => TVariant::Unit,
                Body::Newtype(inner) => {
                    let prior = newtype_variant_priors(held).get(0);
                    TVariant::Newtype(Box::new(subtrace(inner, prior, depth)?))
                }
                Body::Tuple(slots) => {
                    let priors = tuple_variant_priors(held);
                    record_tuple_variant(trace_order(slots, &priors, depth)?)?
                }
                Body::Struct(slots) => {
                    let priors = struct_variant_priors(held);
                    record_struct_variant(trace_named(name, slots, &priors, depth)?)?
                }
            };
            record_enum(name, names, chosen, Some(shape))
        }
    }
}

fn trace_wrapper(
    wrapper: Wrapper,
    name: &str,
    inner: &Type,
    prior: Option<&TNode>,
    depth: usize,
) -> Read<TNode> {
    let depth = deeper(depth)?;
    let part = subtrace(inner, inner_priors(wrapper, prior).get(0), depth)?;
    record_wrapper(wrapper, name, Some(part))
}

fn trace_order(slots: &[Slot], priors: &Priors<'_>, depth: usize) -> Read<TraceSeq> {
    let mut seq = TraceSeq::new(slots.len());
    while let Some(i) = seq.next_index() {
        let part = subtrace(&slots[i].ty, priors.get(i), depth)?;
        seq.record(part);
    }
    Ok(seq)
}

/// A struct visitor is handed its own names and aliases as keys, and refuses
/// a field that it has seen.
fn trace_named(
    name: &str,
    slots: &[Slot],
    priors: &Priors<'_>,
    depth: usize,
) -> Read<TraceStruct> {
    let names: Vec<String> = all_names(slots).into_iter().map(str::to_owned).collect();
    let mut fields = TraceStruct::new(names);
    let mut seen: Vec<usize> = Vec::new();
    while let Some(key) = fields.next_key()? {
        let i = slots.iter().position(|slot| answers(slot, &key)).unwrap();
        if seen.contains(&i) {
            let error = say(format!("duplicate field `{key}`"));
            return Err(struct_failed(name, fields.is_pending(), error));
        }
        seen.push(i);
        let at = fields.next_value()?;
        let part = subtrace(&slots[i].ty, priors.get(at), depth)?;
        fields.record(part);
    }
    Ok(fields)
}

fn traced(ty: &Type) -> Read<SchemaNode> {
    let mut tracing = Tracing::new();
    loop {
        let pass = subtrace(ty, tracing.prior(), 0).map_err(annotate)?;
        if tracing.absorb(Some(pass))? {
            return Ok(tracing.schema().unwrap());
        }
    }
}

#[test]
fn untraceable_types_error_clearly() {
    assert!(matches!(
        traced(&Type::Loose),
        Err(Error::Untraceable { .. })
    ));
}

#[test]
fn traces_a_plain_struct() {
    let point = Type::Struct("Point", vec![field("x", U32), field("y", Type::Float)]);
    assert_eq!(
        traced(&list(point)).unwrap(),
        SchemaNode::Sequence(Box::new(SchemaNode::Struct {
            name: "Point".to_owned(),
            fields: vec![
                ("x".to_owned(), SchemaNode::Primitive(Primitive::U32)),
                ("y".to_owned(), SchemaNode::Primitive(Primitive::F32)),
            ],
        }))
    );
}

#[test]
fn traces_nested_containers() {
    let wrap = Type::Struct(
        "Wrap",
        vec![
            field("name", Type::Text),
            field("data", list(U8)),
            field(
                "lookup",
                Type::Dict(
                    Box::new(Type::Text),
                    Box::new(Type::Newtype("Meters", Box::new(Type::Wide))),
                ),
            ),
            field("pair", Type::Tuple(vec![Type::Bool, opt(Type::Char)])),
            field("small", U8),
        ],
    );
    assert_eq!(
        traced(&wrap).unwrap(),
        SchemaNode::Struct {
            name: "Wrap".to_owned(),
            fields: vec![
                ("name".to_owned(), SchemaNode::String),
                (
                    "data".to_owned(),
                    SchemaNode::Sequence(Box::new(SchemaNode::Primitive(Primitive::U8)))
                ),
                (
                    "lookup".to_owned(),
                    SchemaNode::Mapping {
                        key: Box::new(SchemaNode::String),
                        value: Box::new(SchemaNode::NewtypeStruct {
                            name: "Meters".to_owned(),
                            inner: Box::new(SchemaNode::Primitive(Primitive::F64)),
                        }),
                    }
                ),
                (
                    "pair".to_owned(),
                    SchemaNode::Tuple(vec![
                        SchemaNode::Primitive(Primitive::Bool),
                        SchemaNode::Option(Box::new(SchemaNode::Primitive(Primitive::Char))),
                    ])
                ),
                ("small".to_owned(), SchemaNode::Primitive(Primitive::U8)),
            ],
        }
    );
}

#[test]
fn explores_every_enum_variant() {
    let inner = Type::Enum(
        "Inner",
        vec![case("X", Body::Unit), case("Y", Body::Newtype(U8))],
    );
    let outer = Type::Enum(
        "Outer",
        vec![
            case("A", Body::Unit),
            case("B", Body::Newtype(inner.clone())),
            case(
                "C",
                Body::Struct(vec![
                    field("flag", Type::Bool),
                    field("tail", list(inner.clone())),
                ]),
            ),
        ],
    );
    let inner = SchemaNode::Enum {
        name: "Inner".to_owned(),
        variants: vec![
            ("X".to_owned(), VariantNode::Unit),
            (
                "Y".to_owned(),
                VariantNode::Newtype(Box::new(SchemaNode::Primitive(Primitive::U8))),
            ),
        ],
    };
    assert_eq!(
        traced(&outer).unwrap(),
        SchemaNode::Enum {
            name: "Outer".to_owned(),
            variants: vec![
                ("A".to_owned(), VariantNode::Unit),
                (
                    "B".to_owned(),
                    VariantNode::Newtype(Box::new(inner.clone()))
                ),
                (
                    "C".to_owned(),
                    VariantNode::Struct(vec![
                        ("flag".to_owned(), SchemaNode::Primitive(Primitive::Bool)),
                        ("tail".to_owned(), SchemaNode::Sequence(Box::new(inner))),
                    ])
                ),
            ],
        }
    );
}

#[test]
fn rejects_untagged_enums() {
    assert!(matches!(
        traced(&Type::Loose),
        Err(Error::Untraceable { .. })
    ));
}

#[test]
fn rejects_recursive_types() {
    // As deep as the tracer goes, and one deeper.
    let mut ty = U8;
    for _ in 0..carbonite::schema::MAX_DEPTH {
        ty = opt(ty);
    }
    assert!(traced(&ty).is_ok());
    assert!(matches!(traced(&opt(ty)), Err(Error::DepthLimitExceeded)));
}

/// The failure has to say what is wrong and name the way out.
#[test]
fn rejects_aliased_fields_with_an_actionable_error() {
    let renamed = Type::Struct("Renamed", vec![alias("name", field("title", Type::Text))]);
    let Err(Error::Untraceable { reason }) = traced(&renamed) else {
        panic!("expected an Untraceable error");
    };
    assert!(reason.contains("Renamed"), "{reason}");
    assert!(reason.contains("alias"), "{reason}");
    assert!(reason.contains("derive"), "{reason}");
}

#[test]
fn rejects_aliased_variants_with_an_actionable_error() {
    let mut bow = case("Bow", Body::Struct(vec![field("range", U32)]));
    bow.aliases.push("Crossbow");
    let weapon = Type::Enum("Weapon", vec![case("Sword", Body::Unit), bow]);
    let Err(Error::Untraceable { reason }) = traced(&weapon) else {
        panic!("expected an Untraceable error");
    };
    assert!(reason.contains("Weapon"), "{reason}");
    assert!(reason.contains("alias"), "{reason}");
}

/// A field inside a struct variant, which traces through a different path.
#[test]
fn rejects_aliased_fields_inside_a_variant() {
    let action = apply_struct("Action", vec![alias("0", field("id", U32))]);
    let Err(Error::Untraceable { reason }) = traced(&action) else {
        panic!("expected an Untraceable error");
    };
    assert!(reason.contains("Action"), "{reason}");
    assert!(reason.contains("alias"), "{reason}");
}

#[test]
fn a_type_that_rejects_trace_values_is_untraceable() {
    let Err(Error::Untraceable { reason }) = traced(&Type::Even) else {
        panic!("expected an Untraceable error");
    };
    assert!(reason.contains("rejected the synthetic trace values: odd"), "{reason}");
}

// ---------------------------------------------------------------------------
// Compatibility.
// ---------------------------------------------------------------------------

/// Reads every row of a sample of the schema.
fn probe(writer: &SchemaNode, ty: &Type) -> Read<()> {
    read_rows(writer, &sample(writer), ty, false).map(|_| ())
}

fn verify(released: &SchemaNode, ty: &Type, own: Option<SchemaNode>) -> Result<(), Incompatible> {
    let narrowed = match &own {
        Some(own) => narrowings(released, own),
        None => Vec::new(),
    };
    let reads_own = match &own {
        Some(own) => probe(own, ty).is_ok(),
        None => false,
    };
    verdict(narrowed, probe(released, ty), reads_own)
}

/// With the type's own schema from a trace.
fn check_against(released: &SchemaNode, ty: &Type) -> Result<(), Incompatible> {
    verify(released, ty, traced(ty).ok())
}

/// With the type's own schema from a derive.
fn check_static(released: &SchemaNode, ty: &Type) -> Result<(), Incompatible> {
    verify(released, ty, Some(node(ty)))
}

fn released_weapon() -> Type {
    Type::Enum(
        "WeaponV1",
        vec![
            case("Sword", Body::Unit),
            case("Bow", Body::Struct(vec![field("range", U32)])),
            case("Wand", Body::Newtype(U8)),
        ],
    )
}

/// The released type, whose schema a project would have snapshotted.
fn released_save() -> Type {
    save_with(released_weapon())
}

fn save_with(weapon: Type) -> Type {
    Type::Struct(
        "SaveV1",
        vec![
            field("id", U32),
            field("name", Type::Text),
            field("tags", list(Type::Text)),
            field("weapon", weapon),
        ],
    )
}

fn check(ty: &Type) -> Result<(), Incompatible> {
    check_against(&node(&released_save()), ty)
}

#[test]
fn an_unchanged_type_is_readable() {
    check(&released_save()).unwrap();
}

#[test]
fn an_added_field_depends_on_its_default() {
    let with = |slot: Slot| {
        let Type::Struct(name, mut slots) = released_save() else {
            panic!("expected a struct");
        };
        slots.push(slot);
        Type::Struct(name, slots)
    };
    check(&with(default(|| u32v(0), field("stamina", U32)))).unwrap();
    let err = check(&with(field("stamina", U32))).unwrap_err();
    assert!(matches!(err, Incompatible::Unreadable(_)), "{err:?}");
    assert!(err.to_string().contains("stamina"), "{err:?}");
}

#[test]
fn a_renamed_field_depends_on_its_alias() {
    let with = |slot: Slot| {
        Type::Struct(
            "SaveV1",
            vec![
                field("id", U32),
                slot,
                field("tags", list(Type::Text)),
                field("weapon", released_weapon()),
            ],
        )
    };
    check(&with(alias("name", field("title", Type::Text)))).unwrap();
    assert!(check(&with(field("title", Type::Text))).is_err());
}

#[test]
fn a_shape_change_depends_on_its_position_tags() {
    let point = node(&Type::TupleStruct(
        "PointV1",
        vec![at(Type::Float), at(Type::Float)],
    ));
    check_against(&point, &v1()).unwrap();
    let untagged = Type::Struct(
        "Untagged",
        vec![field("x", Type::Float), field("y", Type::Float)],
    );
    let err = check_against(&point, &untagged).unwrap_err();
    assert!(err.to_string().contains("alias = \"0\""), "{err:?}");
}

#[test]
fn removing_a_field_stays_readable() {
    check(&Type::Struct(
        "SaveV1",
        vec![field("id", U32), field("weapon", released_weapon())],
    ))
    .unwrap();
}

#[test]
fn reordering_fields_stays_readable() {
    check(&Type::Struct(
        "SaveV1",
        vec![
            field("weapon", released_weapon()),
            field("tags", list(Type::Text)),
            field("name", Type::Text),
            field("id", U32),
        ],
    ))
    .unwrap();
}

#[test]
fn changing_a_fields_type_is_a_break() {
    let retyped = Type::Struct(
        "SaveV1",
        vec![
            field("id", Type::Text),
            field("name", Type::Text),
            field("tags", list(Type::Text)),
            field("weapon", released_weapon()),
        ],
    );
    assert!(matches!(
        check(&retyped).unwrap_err(),
        Incompatible::Unreadable(_)
    ));
}

/// Every variant is written across the probe's rows, so dropping one is caught
/// even though it is only reachable from a single row.
#[test]
fn dropping_an_enum_variant_is_caught() {
    let fewer = Type::Enum(
        "Fewer",
        vec![
            case("Sword", Body::Unit),
            case("Bow", Body::Struct(vec![field("range", U32)])),
        ],
    );
    let err = check(&save_with(fewer)).unwrap_err();
    assert!(err.to_string().contains("Wand"), "{err:?}");
}

/// And the tombstone that fixes it: keep the name, drop the payload.
#[test]
fn a_tombstoned_variant_is_readable_again() {
    let mut retired = case("Retired", Body::Unit);
    retired.aliases.push("Wand");
    let tombstoned = Type::Enum(
        "Tombstoned",
        vec![
            case("Sword", Body::Unit),
            case("Bow", Body::Struct(vec![field("range", U32)])),
            retired,
        ],
    );
    check(&save_with(tombstoned)).unwrap();
}

/// Adding a variant is readable: old data never names it.
#[test]
fn adding_a_variant_stays_readable() {
    let more = Type::Enum(
        "More",
        vec![
            case("Wand", Body::Newtype(U8)),
            case("Sword", Body::Unit),
            case("Bow", Body::Struct(vec![field("range", U32)])),
            case("Hammer", Body::Unit),
        ],
    );
    check(&save_with(more)).unwrap();
}

/// The probe writes 1, which `Even` rejects. That is the type refusing the
/// values, not the schema.
#[test]
fn a_validating_type_is_reported_as_inconclusive() {
    let holder = Type::Struct("Holder", vec![field("v", Type::Even)]);
    assert!(traced(&holder).is_err());
    let err = check_static(&node(&holder), &holder).unwrap_err();
    assert!(matches!(err, Incompatible::Inconclusive(_)), "{err:?}");
    let err = check_against(&node(&holder), &holder).unwrap_err();
    assert!(matches!(err, Incompatible::Inconclusive(_)), "{err:?}");
}

/// A type that cannot be traced is never reported as broken by a check that
/// has to trace it.
#[test]
fn an_untraceable_type_is_inconclusive_under_check_but_decided_by_check_static() {
    let original = node(&Type::Struct("Original", vec![field("name", Type::Text)]));
    let broken = Type::Struct(
        "Broken",
        vec![
            // No alias, so this genuinely cannot read `Original`...
            field("title", Type::Text),
            // ...and this makes the type untraceable.
            alias("other", default(|| Value::Absent, field("extra", opt(U8)))),
        ],
    );
    assert!(matches!(
        check_against(&original, &broken).unwrap_err(),
        Incompatible::Inconclusive(_)
    ));
    assert!(matches!(
        check_static(&original, &broken).unwrap_err(),
        Incompatible::Unreadable(_)
    ));
}

#[test]
fn check_static_classifies_an_aliased_type() {
    let aliased = Type::Struct("Aliased", vec![alias("name", field("title", Type::Text))]);
    let original = node(&Type::Struct("Original", vec![field("name", Type::Text)]));
    assert!(traced(&aliased).is_err());
    check_static(&original, &aliased).unwrap();
    check_static(&node(&aliased), &aliased).unwrap();
}

/// Narrowing an integer is value-dependent, so no single probe value can show
/// it. The structural pass compares the leaves instead.
#[test]
fn narrowing_an_integer_is_caught_structurally() {
    let wide = Type::Struct(
        "Wide",
        vec![field("v", U64), field("untouched", Type::Text)],
    );
    let narrow = Type::Struct(
        "Narrow",
        vec![field("v", U8), field("untouched", Type::Text)],
    );
    let err = check_against(&node(&wide), &narrow).unwrap_err();
    let Incompatible::ValueDependent(findings) = &err else {
        panic!("expected ValueDependent, got {err:?}");
    };
    assert_eq!(findings.len(), 1, "{findings:?}");
    assert!(
        findings[0].contains('v') && findings[0].contains("u64"),
        "{findings:?}"
    );
}

#[test]
fn widening_an_integer_is_not_a_finding() {
    let small = Type::Struct(
        "Small",
        vec![field("a", U8), field("b", U32), field("c", I8)],
    );
    let wider = Type::Struct(
        "Wider",
        // unsigned into a strictly wider signed type
        vec![field("a", U64), field("b", I64), field("c", I32)],
    );
    check_against(&node(&small), &wider).unwrap();
}

/// Signedness is part of the range.
#[test]
fn a_signedness_change_is_value_dependent() {
    let signed = Type::Struct("Signed", vec![field("v", I32)]);
    let unsigned = Type::Struct("Unsigned", vec![field("v", U32)]);
    assert!(matches!(
        check_against(&node(&signed), &unsigned).unwrap_err(),
        Incompatible::ValueDependent(_)
    ));
    assert!(matches!(
        check_against(&node(&unsigned), &signed).unwrap_err(),
        Incompatible::ValueDependent(_)
    ));
}

/// The structural pass needs no values, so it still returns a verdict for a
/// type the probe cannot touch.
#[test]
fn a_validating_type_still_gets_a_structural_verdict() {
    let wide = Type::Struct("Holder", vec![field("v", Type::Even), field("range", U64)]);
    let narrow = Type::Struct("Holder", vec![field("v", Type::Even), field("range", U16)]);
    assert!(matches!(
        check_static(&node(&narrow), &narrow).unwrap_err(),
        Incompatible::Inconclusive(_)
    ));
    let err = check_static(&node(&wide), &narrow).unwrap_err();
    assert!(matches!(err, Incompatible::ValueDependent(_)), "{err:?}");
}

/// Narrowing nested inside the shapes the walk has to see through.
#[test]
fn narrowing_is_found_through_containers_and_variants() {
    let with = |name: &'static str, wrapper: &'static str, p: Primitive| {
        Type::Enum(
            name,
            vec![
                case("A", Body::Struct(vec![field("depth", Type::Int(p))])),
                case("B", Body::Newtype(list(opt(Type::Int(p))))),
                case(
                    "C",
                    Body::Newtype(Type::Newtype(wrapper, Box::new(Type::Int(p)))),
                ),
            ],
        )
    };
    let wide = with("Wide", "Meters", Primitive::U64);
    let narrow = with("Narrow", "Centimetres", Primitive::U16);
    let err = check_against(&node(&wide), &narrow).unwrap_err();
    let Incompatible::ValueDependent(findings) = &err else {
        panic!("expected ValueDependent, got {err:?}");
    };
    assert_eq!(findings.len(), 3, "{findings:?}");
    assert!(
        findings.iter().any(|f| f.contains("A.depth")),
        "{findings:?}"
    );
}

/// A field the other side does not name could have been renamed, dropped, or
/// tagged; the walk stays quiet and leaves it to the probe.
#[test]
fn the_structural_pass_stays_quiet_where_it_cannot_be_sure() {
    let before = Type::Struct("Before", vec![field("a", U64)]);
    let renamed = Type::Struct("Renamed", vec![alias("a", field("b", U16))]);
    check_against(&node(&before), &renamed).unwrap();
    assert!(narrowings(&node(&before), &node(&renamed)).is_empty());
}

/// Round-tripping the snapshot through bytes is the actual CI flow.
#[test]
fn a_schema_snapshot_round_trips_through_bytes() {
    let snapshot = node(&released_save()).to_bytes();
    let released = SchemaNode::from_bytes(&snapshot).unwrap();
    check_against(&released, &released_save()).unwrap();
}

fn unit_enum(name: &'static str, names: &[&'static str]) -> Type {
    Type::Enum(
        name,
        names.iter().map(|name| case(name, Body::Unit)).collect(),
    )
}

#[test]
fn dropping_a_nested_enum_variant_is_caught() {
    let outer = |inner: Type| {
        Type::Enum(
            "Outer",
            vec![case("A", Body::Unit), case("B", Body::Newtype(inner))],
        )
    };
    let before = outer(unit_enum("Inner", &["X", "Y"]));
    let after = outer(unit_enum("Inner", &["Y"]));

    // Real old data using the removed inner variant no longer reads...
    let old = Value::NewtypeVariant {
        index: 1,
        variant: "B".to_owned(),
        inner: Box::new(Value::UnitVariant {
            index: 0,
            variant: "X".to_owned(),
        }),
    };
    assert!(migrate(&before, &old, &after).is_err());

    // ...so the check must say so rather than passing.
    let err = check_against(&node(&before), &after).unwrap_err();
    assert!(matches!(err, Incompatible::Unreadable(_)), "{err:?}");
}

#[test]
fn a_variant_three_levels_deep_is_still_exercised() {
    let top = |leaf2: Type| {
        let mid = Type::Enum(
            "Mid",
            vec![
                case("M", Body::Newtype(unit_enum("Leaf1", &["P", "Q"]))),
                case("N", Body::Newtype(leaf2)),
            ],
        );
        Type::Enum(
            "Top",
            vec![case("T", Body::Unit), case("U", Body::Newtype(mid))],
        )
    };
    let before = top(unit_enum("Leaf2", &["P", "Q"]));
    let small = top(unit_enum("Leaf2", &["Q"]));
    // Each level multiplies the rows that it takes.
    assert_eq!(variant_span(&node(&before)), 8);
    let err = check_against(&node(&before), &small).unwrap_err();
    assert!(matches!(err, Incompatible::Unreadable(_)), "{err:?}");
    check_against(&node(&before), &before).unwrap();
}

/// A sample is a blob of the schema that it was made for.
#[test]
fn samples_conform_to_their_schema() {
    let de = Deserializer::<()>::new_untraced(Schema::from_node(node(&released_save())));
    let blob = sample(&node(&released_save()));
    let mut rows = de.rows(&blob).unwrap();
    let mut variants = Vec::new();
    while let Some(row) = rows.next() {
        let Value::Struct { mut fields, .. } = row.unwrap() else {
            panic!("expected a struct");
        };
        variants.push(fields.pop().unwrap().1.describe());
    }
    assert_eq!(
        variants,
        ["variant `Sword`", "variant `Bow`", "variant `Wand`"]
    );
}
