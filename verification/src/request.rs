//! Tracing a type: what previous passes know of the parts of what it asks for,
//! and what is recorded once it has read them.

use vstd::prelude::*;

use crate::error::{Error, Fault, Result};
use crate::schema::{labels, Primitive};
use crate::shape::Kind;
use crate::trace::{over, sketches, untraceable, Sketch, TNode, TVariant};
use crate::tracer::{
    aliased, aliased_fields, aliased_variants, is_shared_name, known, Priors, TraceSeq, TraceStruct,
};
use crate::value::{Scalar, SHARED_TOKEN};

verus! {

/// What a type cannot ask for while it is traced.
#[derive(Clone, Copy, Debug, PartialEq, Eq, Structural)]
pub enum Refused {
    /// Whatever comes.
    Any,
    /// The name of a field or variant, where a value stands.
    Identifier,
    /// A value that it then ignores.
    Ignored,
}

/// Why it cannot.
pub open spec fn reason(refused: Refused) -> Seq<char> {
    match refused {
        Refused::Any =>
            "the type calls deserialize_any, which requires a self-describing format (untagged or internally tagged enums, serde(flatten), and Value types cannot be encoded columnar)"@,
        Refused::Identifier => "unexpected deserialize_identifier at a value position"@,
        Refused::Ignored => "unexpected deserialize_ignored_any while tracing"@,
    }
}

/// Refuses what cannot be traced.
pub fn refuse(refused: Refused) -> (result: Error)
    ensures
        result@ == Fault::Untraceable(reason(refused)),
{
    match refused {
        Refused::Any => untraceable(
            "the type calls deserialize_any, which requires a self-describing format (untagged or internally tagged enums, serde(flatten), and Value types cannot be encoded columnar)",
        ),
        Refused::Identifier => untraceable("unexpected deserialize_identifier at a value position"),
        Refused::Ignored => untraceable("unexpected deserialize_ignored_any while tracing"),
    }
}

/// The value that a type is handed for a primitive. It is chosen to survive
/// common validation: 1 rather than 0 keeps nonzero integers alive. Floats are
/// one, by their bits.
pub open spec fn synthetic_scalar(p: Primitive) -> Scalar {
    match p {
        Primitive::Bool => Scalar::Bool(false),
        Primitive::I8 => Scalar::I8(1),
        Primitive::I16 => Scalar::I16(1),
        Primitive::I32 => Scalar::I32(1),
        Primitive::I64 => Scalar::I64(1),
        Primitive::I128 => Scalar::I128(1),
        Primitive::U8 => Scalar::U8(1),
        Primitive::U16 => Scalar::U16(1),
        Primitive::U32 => Scalar::U32(1),
        Primitive::U64 => Scalar::U64(1),
        Primitive::U128 => Scalar::U128(1),
        Primitive::F32 => Scalar::F32(0x3f80_0000),
        Primitive::F64 => Scalar::F64(0x3ff0_0000_0000_0000),
        Primitive::Char => Scalar::Char('A'),
    }
}

/// The value that a type is handed for a primitive.
pub fn synthetic(p: Primitive) -> (result: Scalar)
    ensures
        result == synthetic_scalar(p),
{
    match p {
        Primitive::Bool => Scalar::Bool(false),
        Primitive::I8 => Scalar::I8(1),
        Primitive::I16 => Scalar::I16(1),
        Primitive::I32 => Scalar::I32(1),
        Primitive::I64 => Scalar::I64(1),
        Primitive::I128 => Scalar::I128(1),
        Primitive::U8 => Scalar::U8(1),
        Primitive::U16 => Scalar::U16(1),
        Primitive::U32 => Scalar::U32(1),
        Primitive::U64 => Scalar::U64(1),
        Primitive::U128 => Scalar::U128(1),
        Primitive::F32 => Scalar::F32(0x3f80_0000),
        Primitive::F64 => Scalar::F64(0x3ff0_0000_0000_0000),
        Primitive::Char => Scalar::Char('A'),
    }
}

/// What a nested impl has read, if it has read anything.
pub fn consumed(node: Option<TNode>) -> (result: Result<TNode>)
    ensures
        match result {
            Ok(read) => node == Some(read),
            Err(error) => node is None && error@ == Fault::Untraceable(
                "a Deserialize impl returned without consuming input"@,
            ),
        },
{
    match node {
        Some(read) => Ok(read),
        None => Err(untraceable("a Deserialize impl returned without consuming input")),
    }
}

/// What is known of the parts of a position that now turns out to be of
/// `kind`: nothing, if previous passes found another kind there.
pub open spec fn known_parts(prior: Option<Sketch>, kind: Kind) -> Seq<Option<Sketch>> {
    match prior {
        Some(s) => if s.kind == kind {
            s.kids
        } else {
            seq![]
        },
        None => seq![],
    }
}

/// Something is known of a part only where a previous pass found the same kind
/// of position, and then all that it found there is.
pub proof fn lemma_known_parts(prior: Option<Sketch>, kind: Kind, i: int)
    ensures
        known_parts(prior, kind).len() > 0 ==> (prior matches Some(s) && s.kind == kind),
        prior matches Some(s) ==> (s.kind == kind && 0 <= i < s.kids.len() ==> i < known_parts(
            prior,
            kind,
        ).len() && known_parts(prior, kind)[i] == s.kids[i]),
{
}

/// A position with one part that the type reads through.
#[derive(Clone, Copy, Debug, PartialEq, Eq, Structural)]
pub enum Wrapper {
    /// An optional value; it is handed over as present.
    Option,
    /// A newtype struct.
    Newtype,
    /// A value that others may share.
    Shared,
}

/// The kind of such a position.
pub open spec fn wrapper_kind(wrapper: Wrapper) -> Kind {
    match wrapper {
        Wrapper::Option => Kind::Option,
        Wrapper::Newtype => Kind::NewtypeStruct,
        Wrapper::Shared => Kind::Shared,
    }
}

/// Shared wrappers announce themselves through a name that no type can have.
pub fn wrapper_of(name: &str) -> (result: Wrapper)
    ensures
        result == if name@ == SHARED_TOKEN@ {
            Wrapper::Shared
        } else {
            Wrapper::Newtype
        },
{
    if is_shared_name(name) {
        Wrapper::Shared
    } else {
        Wrapper::Newtype
    }
}

/// What previous passes know of what is wrapped.
pub fn inner_priors<'p>(wrapper: Wrapper, prior: Option<&'p TNode>) -> (result: Priors<'p>)
    ensures
        result.parts() == known_parts(known(prior), wrapper_kind(wrapper)),
{
    let node = match prior {
        Some(node) => node,
        None => return Priors::Nothing,
    };
    match node {
        TNode::Option(inner) => {
            if wrapper == Wrapper::Option {
                return Priors::One(inner);
            }
        },
        TNode::NewtypeStruct(_, inner) => {
            if wrapper == Wrapper::Newtype {
                return Priors::One(inner);
            }
        },
        TNode::Shared(inner) => {
            if wrapper == Wrapper::Shared {
                return Priors::One(inner);
            }
        },
        _ => {},
    }
    Priors::Nothing
}

/// The report of an impl that did not read through its wrapper.
pub open spec fn unread(wrapper: Wrapper) -> Seq<char> {
    match wrapper {
        Wrapper::Option => "an Option impl returned without consuming input"@,
        Wrapper::Newtype => "a newtype impl returned without consuming input"@,
        Wrapper::Shared => "a shared impl returned without consuming input"@,
    }
}

/// Records a wrapper. Only a newtype struct has a name of its own.
pub fn record_wrapper(wrapper: Wrapper, name: &str, inner: Option<TNode>) -> (result: Result<TNode>)
    ensures
        match result {
            Ok(node) => inner is Some && node@ == over(
                wrapper_kind(wrapper),
                if wrapper == Wrapper::Newtype {
                    name@
                } else {
                    seq![]
                },
                inner->0@,
            ),
            Err(error) => inner is None && error@ == Fault::Untraceable(unread(wrapper)),
        },
{
    match inner {
        Some(inner) => Ok(
            match wrapper {
                Wrapper::Option => TNode::Option(Box::new(inner)),
                Wrapper::Newtype => TNode::NewtypeStruct(name.to_owned(), Box::new(inner)),
                Wrapper::Shared => TNode::Shared(Box::new(inner)),
            },
        ),
        None => Err(
            match wrapper {
                Wrapper::Option => untraceable("an Option impl returned without consuming input"),
                Wrapper::Newtype => untraceable("a newtype impl returned without consuming input"),
                Wrapper::Shared => untraceable("a shared impl returned without consuming input"),
            },
        ),
    }
}

/// What previous passes know of the elements of a sequence.
pub fn seq_priors<'p>(prior: Option<&'p TNode>) -> (result: Priors<'p>)
    ensures
        result.parts() == known_parts(known(prior), Kind::Sequence),
{
    match prior {
        Some(TNode::Sequence(elem)) => Priors::One(elem),
        _ => Priors::Nothing,
    }
}

/// Records a sequence: its only element that was read stands for all.
pub fn record_seq(parts: TraceSeq) -> (result: Result<TNode>)
    requires
        parts.well_formed(),
        parts.limit() == 1,
    ensures
        match result {
            Ok(node) => parts.read().len() == 1 && node@ == over(
                Kind::Sequence,
                seq![],
                parts.read()[0]@,
            ),
            Err(error) => parts.read().len() == 0 && error@ == Fault::Untraceable(
                "a sequence visitor did not read its element"@,
            ),
        },
{
    let mut nodes = match parts.finish("a sequence visitor did not read its element") {
        Ok(nodes) => nodes,
        Err(error) => return Err(error),
    };
    match nodes.pop() {
        Some(elem) => Ok(TNode::Sequence(Box::new(elem))),
        None => Err(untraceable("a sequence visitor did not read its element")),
    }
}

/// What previous passes know of the elements of a tuple.
pub fn tuple_priors<'p>(prior: Option<&'p TNode>) -> (result: Priors<'p>)
    ensures
        result.parts() == known_parts(known(prior), Kind::Tuple),
{
    match prior {
        Some(TNode::Tuple(fields)) => Priors::List(fields),
        _ => Priors::Nothing,
    }
}

/// Parts by position, as they were read.
pub open spec fn listed(kind: Kind, name: Seq<char>, parts: TraceSeq) -> Sketch {
    Sketch { kind, name, labels: seq![], kids: sketches(parts.read()) }
}

/// Records a tuple.
pub fn record_tuple(parts: TraceSeq) -> (result: Result<TNode>)
    requires
        parts.well_formed(),
    ensures
        match result {
            Ok(node) => parts.read().len() == parts.limit() && node@ == listed(
                Kind::Tuple,
                seq![],
                parts,
            ),
            Err(error) => parts.read().len() < parts.limit() && error@ == Fault::Untraceable(
                "a tuple visitor did not read every element"@,
            ),
        },
{
    match parts.finish("a tuple visitor did not read every element") {
        Ok(nodes) => Ok(TNode::Tuple(nodes)),
        Err(error) => Err(error),
    }
}

/// What previous passes know of the fields of a tuple struct.
pub fn tuple_struct_priors<'p>(prior: Option<&'p TNode>) -> (result: Priors<'p>)
    ensures
        result.parts() == known_parts(known(prior), Kind::TupleStruct),
{
    match prior {
        Some(TNode::TupleStruct(_, fields)) => Priors::List(fields),
        _ => Priors::Nothing,
    }
}

/// Records a tuple struct.
pub fn record_tuple_struct(name: &str, parts: TraceSeq) -> (result: Result<TNode>)
    requires
        parts.well_formed(),
    ensures
        match result {
            Ok(node) => parts.read().len() == parts.limit() && node@ == listed(
                Kind::TupleStruct,
                name@,
                parts,
            ),
            Err(error) => parts.read().len() < parts.limit() && error@ == Fault::Untraceable(
                "a tuple struct visitor did not read every field"@,
            ),
        },
{
    match parts.finish("a tuple struct visitor did not read every field") {
        Ok(nodes) => Ok(TNode::TupleStruct(name.to_owned(), nodes)),
        Err(error) => Err(error),
    }
}

/// What previous passes know of the keys and the values of a map.
pub fn map_priors<'p>(prior: Option<&'p TNode>) -> (result: (Option<&'p TNode>, Option<&'p TNode>))
    ensures
        ({
            let parts = known_parts(known(prior), Kind::Mapping);
            if parts.len() == 2 {
                known(result.0) == parts[0] && known(result.1) == parts[1]
            } else {
                result.0 is None && result.1 is None
            }
        }),
{
    match prior {
        Some(TNode::Mapping(key, value)) => (Some(&**key), Some(&**value)),
        _ => (None, None),
    }
}

/// Records a map by its only entry that was read.
pub fn record_map(key: Option<TNode>, value: Option<TNode>) -> (result: Result<TNode>)
    ensures
        match result {
            Ok(node) => key is Some && value is Some && node@ == (Sketch {
                kind: Kind::Mapping,
                name: seq![],
                labels: seq![],
                kids: seq![Some(key->0@), Some(value->0@)],
            }),
            Err(error) => error@ == Fault::Untraceable(
                if key is None {
                    "a map visitor did not read a key"@
                } else {
                    "a map visitor did not read a value"@
                },
            ) && (key is None || value is None),
        },
{
    match key {
        Some(key) => match value {
            Some(value) => Ok(TNode::Mapping(Box::new(key), Box::new(value))),
            None => Err(untraceable("a map visitor did not read a value")),
        },
        None => Err(untraceable("a map visitor did not read a key")),
    }
}

/// What previous passes know of the fields of a struct.
pub fn struct_priors<'p>(prior: Option<&'p TNode>) -> (result: Priors<'p>)
    ensures
        result.parts() == known_parts(known(prior), Kind::Struct),
{
    match prior {
        Some(TNode::Struct(_, fields)) => Priors::Named(fields),
        _ => Priors::Nothing,
    }
}

/// Fields by name, as they were read.
pub open spec fn entitled(kind: Kind, name: Seq<char>, fields: TraceStruct) -> Sketch {
    Sketch { kind, name, labels: fields.names(), kids: sketches(fields.read()) }
}

/// Records a struct.
pub fn record_struct(name: &str, fields: TraceStruct) -> (result: Result<TNode>)
    requires
        fields.well_formed(),
    ensures
        match result {
            Ok(node) => fields.read().len() == fields.names().len() && node@ == entitled(
                Kind::Struct,
                name@,
                fields,
            ),
            Err(error) => fields.read().len() < fields.names().len() && error@
                == Fault::Untraceable("a struct visitor did not read every field"@),
        },
{
    match fields.finish("a struct visitor did not read every field") {
        Ok(read) => Ok(TNode::Struct(name.to_owned(), read)),
        Err(error) => Err(error),
    }
}

/// What is reported where a visitor of named fields fails. One that refuses a
/// value for a key that it took was handed an alias.
pub fn struct_failed(name: &str, pending: bool, error: Error) -> (result: Error)
    ensures
        result@ == if pending {
            aliased(name@, "field"@)
        } else {
            error@
        },
{
    if pending {
        aliased_fields(name)
    } else {
        error
    }
}

/// What is reported where the visitor of an enum fails. One that refuses a
/// variant was handed more names than it has variants.
pub fn enum_failed(name: &str, rejected: bool, error: Error) -> (result: Error)
    ensures
        result@ == if rejected {
            aliased(name@, "variant"@)
        } else {
            error@
        },
{
    if rejected {
        aliased_variants(name)
    } else {
        error
    }
}

/// What a previous pass knows of a variant.
pub open spec fn known_variant(prior: Option<&TVariant>) -> Option<Sketch> {
    match prior {
        Some(variant) => Some(variant@),
        None => None,
    }
}

/// What previous passes know of the payload of a newtype variant.
pub fn newtype_variant_priors<'p>(prior: Option<&'p TVariant>) -> (result: Priors<'p>)
    ensures
        result.parts() == known_parts(known_variant(prior), Kind::NewtypeVariant),
{
    match prior {
        Some(TVariant::Newtype(inner)) => Priors::One(inner),
        _ => Priors::Nothing,
    }
}

/// What previous passes know of the fields of a tuple variant.
pub fn tuple_variant_priors<'p>(prior: Option<&'p TVariant>) -> (result: Priors<'p>)
    ensures
        result.parts() == known_parts(known_variant(prior), Kind::TupleVariant),
{
    match prior {
        Some(TVariant::Tuple(fields)) => Priors::List(fields),
        _ => Priors::Nothing,
    }
}

/// Records a tuple variant.
pub fn record_tuple_variant(parts: TraceSeq) -> (result: Result<TVariant>)
    requires
        parts.well_formed(),
    ensures
        match result {
            Ok(variant) => parts.read().len() == parts.limit() && variant@ == listed(
                Kind::TupleVariant,
                seq![],
                parts,
            ),
            Err(error) => parts.read().len() < parts.limit() && error@ == Fault::Untraceable(
                "a tuple variant visitor did not read every element"@,
            ),
        },
{
    match parts.finish("a tuple variant visitor did not read every element") {
        Ok(nodes) => Ok(TVariant::Tuple(nodes)),
        Err(error) => Err(error),
    }
}

/// What previous passes know of the fields of a struct variant.
pub fn struct_variant_priors<'p>(prior: Option<&'p TVariant>) -> (result: Priors<'p>)
    ensures
        result.parts() == known_parts(known_variant(prior), Kind::StructVariant),
{
    match prior {
        Some(TVariant::Struct(fields)) => Priors::Named(fields),
        _ => Priors::Nothing,
    }
}

/// Records a struct variant.
pub fn record_struct_variant(fields: TraceStruct) -> (result: Result<TVariant>)
    requires
        fields.well_formed(),
    ensures
        match result {
            Ok(variant) => fields.read().len() == fields.names().len() && variant@ == entitled(
                Kind::StructVariant,
                seq![],
                fields,
            ),
            Err(error) => fields.read().len() < fields.names().len() && error@
                == Fault::Untraceable("a struct variant visitor did not read every field"@),
        },
{
    match fields.finish("a struct variant visitor did not read every field") {
        Ok(read) => Ok(TVariant::Struct(read)),
        Err(error) => Err(error),
    }
}

} // verus!
