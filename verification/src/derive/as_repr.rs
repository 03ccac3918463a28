//! `#[carbonite(as = "Repr")]`: the type is represented as another type.
//!
//! A pair of conversions can name two different shapes, and there is one schema
//! for both directions, so the attribute states the wire type once: the schema,
//! the column count, and both columnar directions all come from it, and the
//! container's own fields never reach the wire.

use vstd::prelude::*;

use crate::derive::attrs::{ContainerAttrs, ContainerFacts, ConversionFacts};
use crate::derive::model::{mentioned, mentions, Body, Field, Token, Variant};
use crate::text;

verus! {

/// Why a type cannot be represented as another one, and what is to blame.
#[derive(Debug)]
pub enum ReprRefusal {
    /// The container.
    Container(String),
    /// A field that asks for something a field of such a type cannot have, by
    /// variant and field; a struct counts as one variant.
    Routed(usize, usize, String),
    /// The conversion that an item of the container names.
    Conversion(usize, String),
}

/// The view of a [`ReprRefusal`].
pub enum ReprFault {
    Container(Seq<char>),
    Routed(nat, nat, Seq<char>),
    Conversion(nat, Seq<char>),
}

impl View for ReprRefusal {
    type V = ReprFault;

    open spec fn view(&self) -> ReprFault {
        match *self {
            ReprRefusal::Container(message) => ReprFault::Container(message@),
            ReprRefusal::Routed(v, f, message) => ReprFault::Routed(v as nat, f as nat, message@),
            ReprRefusal::Conversion(at, message) => ReprFault::Conversion(at as nat, message@),
        }
    }
}

/// The first live field, from number `i` on, that is routed through serde.
pub open spec fn routed_field(fields: Seq<Field>, i: nat) -> Option<nat>
    decreases fields.len() - i,
{
    if i >= fields.len() {
        None
    } else if !fields[i as int].attrs.skip && fields[i as int].attrs.fallback is Some {
        Some(i)
    } else {
        routed_field(fields, i + 1)
    }
}

/// The first such field of the live variants, from number `i` on.
pub open spec fn routed_variant(variants: Seq<Variant>, i: nat) -> Option<(nat, nat)>
    decreases variants.len() - i,
{
    if i >= variants.len() {
        None
    } else if variants[i as int].attrs.skip {
        routed_variant(variants, i + 1)
    } else {
        match routed_field(variants[i as int].fields@, 0) {
            Some(f) => Some((i, f)),
            None => routed_variant(variants, i + 1),
        }
    }
}

/// The first such field of a type.
pub open spec fn routed(body: Body) -> Option<(nat, nat)> {
    match body {
        Body::Struct(_, fields) => match routed_field(fields@, 0) {
            Some(f) => Some((0, f)),
            None => None,
        },
        Body::Enum(variants) => routed_variant(variants@, 0),
    }
}

/// What is said of a type that is only converted when it is read.
pub open spec fn read_only(de: ConversionFacts) -> Seq<char> {
    "serde("@ + de.attr
        + ") converts only when reading, so this type still *writes* its own fields and would not match the declared schema; add `#[serde(into = \""@
        + de.text + "\")]`"@
}

/// What is said of a type that is only converted when it is written.
pub open spec fn write_only(ser: ConversionFacts) -> Seq<char> {
    "serde(into) converts only when writing, so this type still *reads* into its own fields and would not match the declared schema; add `#[serde(from = \""@
        + ser.text + "\")]`"@
}

/// Why the type cannot be represented as another one, if it cannot.
pub open spec fn repr_fault(container: ContainerFacts, body: Body) -> Option<ReprFault> {
    if container.transparent {
        Some(
            ReprFault::Container(
                "serde(transparent) and carbonite(as) describe different wire types for the same container; keep only one"@,
            ),
        )
    } else {
        match routed(body) {
            Some((v, f)) => Some(
                ReprFault::Routed(
                    v,
                    f,
                    "carbonite(serde) has no effect here: with carbonite(as) on the container, the fields do not reach the wire"@,
                ),
            ),
            None => match (container.de_repr, container.ser_repr) {
                (Some(de), None) => Some(ReprFault::Conversion(de.at, read_only(de))),
                (None, Some(ser)) => Some(ReprFault::Conversion(ser.at, write_only(ser))),
                _ => None,
            },
        }
    }
}

fn find_routed_field(fields: &Vec<Field>) -> (result: Option<usize>)
    ensures
        match result {
            Some(f) => routed_field(fields@, 0) == Some(f as nat),
            None => routed_field(fields@, 0) is None,
        },
{
    let mut i: usize = 0;
    while i < fields.len()
        invariant
            i <= fields@.len(),
            routed_field(fields@, 0) == routed_field(fields@, i as nat),
        decreases fields@.len() - i,
    {
        if !fields[i].attrs.skip && fields[i].attrs.fallback.is_some() {
            return Some(i);
        }
        i += 1;
    }
    None
}

fn find_routed(body: &Body) -> (result: Option<(usize, usize)>)
    ensures
        match result {
            Some((v, f)) => routed(*body) == Some((v as nat, f as nat)),
            None => routed(*body) is None,
        },
{
    match body {
        Body::Struct(_, fields) => match find_routed_field(fields) {
            Some(f) => Some((0, f)),
            None => None,
        },
        Body::Enum(variants) => {
            let mut i: usize = 0;
            while i < variants.len()
                invariant
                    i <= variants@.len(),
                    *body matches Body::Enum(all) && all@ == variants@,
                    routed_variant(variants@, 0) == routed_variant(variants@, i as nat),
                decreases variants@.len() - i,
            {
                if !variants[i].attrs.skip {
                    match find_routed_field(&variants[i].fields) {
                        Some(f) => {
                            return Some((i, f));
                        },
                        None => {},
                    }
                }
                i += 1;
            }
            None
        },
    }
}

/// Checks that a type can be represented as another one. It must be converted
/// in *both* directions or in neither, or its serde impls disagree with the
/// schema that the attribute declares.
pub fn check_as(container: &ContainerAttrs, body: &Body) -> (result: Result<(), ReprRefusal>)
    ensures
        match result {
            Ok(()) => repr_fault(container@, *body) is None,
            Err(e) => repr_fault(container@, *body) == Some(e@),
        },
{
    if container.transparent {
        return Err(
            ReprRefusal::Container(
                "serde(transparent) and carbonite(as) describe different wire types for the same container; keep only one".to_owned(),
            ),
        );
    }
    match find_routed(body) {
        Some((v, f)) => {
            return Err(
                ReprRefusal::Routed(
                    v,
                    f,
                    "carbonite(serde) has no effect here: with carbonite(as) on the container, the fields do not reach the wire".to_owned(),
                ),
            );
        },
        None => {},
    }
    match (&container.de_repr, &container.ser_repr) {
        (Some(de), None) => {
            let start = text::join(
                "serde(",
                de.attr,
                ") converts only when reading, so this type still *writes* its own fields and would not match the declared schema; add `#[serde(into = \"",
            );
            let message = text::join(start.as_str(), de.text.as_str(), "\")]`");
            Err(ReprRefusal::Conversion(de.at, message))
        },
        (None, Some(ser)) => {
            let message = text::join(
                "serde(into) converts only when writing, so this type still *reads* into its own fields and would not match the declared schema; add `#[serde(from = \"",
                ser.text.as_str(),
                "\")]`",
            );
            Err(ReprRefusal::Conversion(ser.at, message))
        },
        _ => Ok(()),
    }
}

/// Whether it is checked that a conversion names the declared type: not where
/// either mentions a type parameter, which is out of scope there.
pub open spec fn is_compared(conversion: Seq<Token>, repr: Seq<Token>, params: Seq<String>) -> bool {
    forall|i: int|
        0 <= i < params.len() ==> !mentioned(conversion, (#[trigger] params[i])@) && !mentioned(
            repr,
            params[i]@,
        )
}

/// Whether it is checked that a conversion names the declared type.
pub fn repr_assertion(conversion: &Vec<Token>, repr: &Vec<Token>, params: &Vec<String>) -> (result:
    bool)
    ensures
        result == is_compared(conversion@, repr@, params@),
{
    let mut i: usize = 0;
    while i < params.len()
        invariant
            i <= params@.len(),
            forall|j: int|
                0 <= j < i ==> !mentioned(conversion@, (#[trigger] params@[j])@) && !mentioned(
                    repr@,
                    params@[j]@,
                ),
        decreases params@.len() - i,
    {
        if mentions(conversion, params[i].as_str()) || mentions(repr, params[i].as_str()) {
            return false;
        }
        i += 1;
    }
    true
}

} // verus!
