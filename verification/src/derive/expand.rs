//! The whole of the decision: what is generated for a type, or why nothing is.

use vstd::prelude::*;

use crate::derive::as_repr::{check_as, repr_fault, ReprFault, ReprRefusal};
use crate::derive::attrs::{ContainerAttrs, ContainerFacts};
use crate::derive::columnar::{
    any_variant_serde, columnar_enum_parts, columnar_struct_parts, skipped_variants, ColumnarParts,
    EnumParts,
};
use crate::derive::model::{
    lemma_live, live, live_variants, rule_or, variant_wire, Body, Field, Style, Variant,
};
use crate::derive::options::CarboniteAttrs;
use crate::derive::removed::{
    check_enum, check_fields, enum_clash, fields_clash, Clash, EnumClash, EnumMisuse, Misuse,
    Retired,
};
use crate::derive::rename::{strip_raw, stripped, RenameRule};
use crate::derive::schema::{
    expand_enum, expand_struct, form_of, struct_form, takes, Plan, VariantPlan,
};

verus! {

/// Why nothing is generated for a type, and what is to blame.
#[derive(Debug)]
pub enum Refusal {
    /// The container.
    Container(String),
    /// An item of the container's attributes.
    Item(usize, String),
    /// It cannot be represented as another type.
    Repr(ReprRefusal),
    /// A field of a struct.
    Field(Misuse),
    /// Something in an enum.
    Enum(EnumMisuse),
}

/// The view of a [`Refusal`].
pub enum RefusalFault {
    Container(Seq<char>),
    Item(nat, Seq<char>),
    Repr(ReprFault),
    Field(Clash),
    Enum(EnumClash),
}

impl View for Refusal {
    type V = RefusalFault;

    open spec fn view(&self) -> RefusalFault {
        match *self {
            Refusal::Container(message) => RefusalFault::Container(message@),
            Refusal::Item(at, message) => RefusalFault::Item(at as nat, message@),
            Refusal::Repr(refusal) => RefusalFault::Repr(refusal@),
            Refusal::Field(misuse) => RefusalFault::Field(misuse@),
            Refusal::Enum(misuse) => RefusalFault::Enum(misuse@),
        }
    }
}

/// What is generated for a type.
#[allow(inconsistent_fields)]
#[derive(Debug)]
pub enum Expansion {
    /// Everything comes from the type that it is represented as.
    Represented,
    /// A struct.
    Struct {
        /// Its name on the wire.
        name: String,
        /// How its fields make up the schema.
        plan: Plan,
        /// Its columnar code.
        parts: ColumnarParts,
    },
    /// An enum.
    Enum {
        /// Its name on the wire.
        name: String,
        /// How its variants make up the schema.
        variants: Vec<VariantPlan>,
        /// Its columnar code.
        parts: EnumParts,
    },
}

/// The item that names a conversion, the earlier one of two.
pub open spec fn conversion_item(container: ContainerFacts) -> Option<nat> {
    match (container.de_repr, container.ser_repr) {
        (Some(de), Some(ser)) => Some(
            if de.at <= ser.at {
                de.at
            } else {
                ser.at
            },
        ),
        (Some(de), None) => Some(de.at),
        (None, Some(ser)) => Some(ser.at),
        (None, None) => None,
    }
}

/// What is said of a conversion that no declared type goes with.
pub open spec fn undeclared() -> Seq<char> {
    "carbonite cannot statically derive Schema for containers using serde(from/into/try_from/remote); use runtime tracing (Schema::new) instead"@
}

/// Why nothing is generated for a type, if nothing is.
pub open spec fn refusal(
    container: ContainerFacts,
    represented: bool,
    retired: Seq<Retired>,
    body: Body,
) -> Option<RefusalFault> {
    if represented {
        match repr_fault(container, body) {
            Some(fault) => Some(RefusalFault::Repr(fault)),
            None => None,
        }
    } else {
        match conversion_item(container) {
            Some(at) => Some(RefusalFault::Item(at, undeclared())),
            None => match body {
                Body::Struct(style, fields) => match fields_clash(
                    retired,
                    style,
                    fields@,
                    live(fields@, fields@.len()),
                    container.rename_all,
                    0,
                ) {
                    Some(clash) => Some(RefusalFault::Field(clash)),
                    None => match struct_form(
                        style,
                        fields@,
                        container.transparent,
                        container.rename_all,
                    ) {
                        Some(_) => None,
                        None => Some(
                            RefusalFault::Container(
                                "serde(transparent) requires exactly one non-skipped field"@,
                            ),
                        ),
                    },
                },
                Body::Enum(variants) => match enum_clash(
                    retired,
                    variants@,
                    container.rename_all,
                    container.rename_all_fields,
                ) {
                    Some(clash) => Some(RefusalFault::Enum(clash)),
                    None => None,
                },
            },
        }
    }
}

/// The name of a type on the wire.
pub open spec fn container_wire(container: ContainerFacts, ident: Seq<char>) -> Seq<char> {
    match container.rename {
        Some(name) => name,
        None => stripped(ident),
    }
}

impl Expansion {
    /// This is what the type calls for.
    pub open spec fn suits(
        self,
        ident: Seq<char>,
        container: ContainerFacts,
        represented: bool,
        body: Body,
    ) -> bool {
        match self {
            Expansion::Represented => represented,
            Expansion::Struct { name, plan, parts } => {
                &&& !represented
                &&& name@ == container_wire(container, ident)
                &&& body matches Body::Struct(style, fields) && struct_form(
                    style,
                    fields@,
                    container.transparent,
                    container.rename_all,
                ) == Some(plan@) && parts.belong_to(fields@)
            },
            Expansion::Enum { name, variants, parts } => {
                &&& !represented
                &&& name@ == container_wire(container, ident)
                &&& body matches Body::Enum(all) && variants_suit(
                    variants@,
                    all@,
                    container.rename_all,
                    container.rename_all_fields,
                ) && parts_suit(parts, all@)
            },
        }
    }
}

/// These plans are those of the live variants, in order.
pub open spec fn variants_suit(
    plans: Seq<VariantPlan>,
    variants: Seq<Variant>,
    rule: Option<RenameRule>,
    field_rule: Option<RenameRule>,
) -> bool {
    let list = live_variants(variants, variants.len());
    &&& plans.len() == list.len()
    &&& forall|k: int|
        0 <= k < plans.len() ==> {
            let v = variants[list[k] as int];
            &&& (#[trigger] plans[k]).variant == list[k]
            &&& plans[k].name@ == variant_wire(v.ident@, v.attrs@, rule)
            &&& plans[k].payload@ == form_of(
                v.style,
                v.fields@,
                rule_or(v.attrs@.rename_all, field_rule),
            )
        }
}

/// This is the columnar code of the variants.
pub open spec fn parts_suit(parts: EnumParts, variants: Seq<Variant>) -> bool {
    &&& parts.active@.len() == live_variants(variants, variants.len()).len()
    &&& forall|k: int|
        0 <= k < parts.active@.len() ==> (#[trigger] parts.active@[k]).belong_to(
            variants,
            k as nat,
        )
    &&& parts.skipped@.len() == skipped_variants(variants, variants.len()).len()
    &&& forall|i: int|
        0 <= i < parts.skipped@.len() ==> (#[trigger] parts.skipped@[i]).0 == skipped_variants(
            variants,
            variants.len(),
        )[i] && parts.skipped@[i].1@ == stripped(variants[parts.skipped@[i].0 as int].ident@)
    &&& parts.has_fallback == any_variant_serde(variants)
}

fn find_conversion(container: &ContainerAttrs) -> (result: Option<usize>)
    ensures
        match result {
            Some(at) => conversion_item(container@) == Some(at as nat),
            None => conversion_item(container@) is None,
        },
{
    match (&container.de_repr, &container.ser_repr) {
        (Some(de), Some(ser)) => if de.at <= ser.at {
            Some(de.at)
        } else {
            Some(ser.at)
        },
        (Some(de), None) => Some(de.at),
        (None, Some(ser)) => Some(ser.at),
        (None, None) => None,
    }
}

/// Decides what is generated for a type.
pub fn expand(
    ident: &str,
    container: &ContainerAttrs,
    options: &CarboniteAttrs,
    body: &Body,
) -> (result: Result<Expansion, Refusal>)
    ensures
        match result {
            Ok(expansion) => refusal(
                container@,
                options.repr is Some,
                options.removed@,
                *body,
            ) is None && expansion.suits(ident@, container@, options.repr is Some, *body),
            Err(e) => refusal(container@, options.repr is Some, options.removed@, *body) == Some(
                e@,
            ),
        },
{
    if options.repr.is_some() {
        return match check_as(container, body) {
            Ok(()) => Ok(Expansion::Represented),
            Err(e) => Err(Refusal::Repr(e)),
        };
    }
    match find_conversion(container) {
        Some(at) => {
            return Err(
                Refusal::Item(
                    at,
                    "carbonite cannot statically derive Schema for containers using serde(from/into/try_from/remote); use runtime tracing (Schema::new) instead".to_owned(),
                ),
            );
        },
        None => {},
    }
    let name = match &container.rename {
        Some(name) => name.clone(),
        None => strip_raw(ident),
    };
    match body {
        Body::Struct(style, fields) => {
            match check_fields(&options.removed, *style, fields, container.rename_all) {
                Ok(()) => {},
                Err(e) => {
                    return Err(Refusal::Field(e));
                },
            }
            match expand_struct(*style, fields, container.transparent, container.rename_all) {
                Ok(plan) => Ok(
                    Expansion::Struct { name, plan, parts: columnar_struct_parts(fields) },
                ),
                Err(message) => Err(Refusal::Container(message)),
            }
        },
        Body::Enum(variants) => {
            match check_enum(
                &options.removed,
                variants,
                container.rename_all,
                container.rename_all_fields,
            ) {
                Ok(()) => {},
                Err(e) => {
                    return Err(Refusal::Enum(e));
                },
            }
            let plans = expand_enum(variants, container.rename_all, container.rename_all_fields);
            Ok(Expansion::Enum { name, variants: plans, parts: columnar_enum_parts(variants) })
        },
    }
}

/// A form always has a place for the fields that reach the wire, so a schema
/// can be made of them.
pub proof fn lemma_form_takes_live(style: Style, fields: Seq<Field>, rule: Option<RenameRule>)
    requires
        fields.len() <= usize::MAX,
        style == Style::Unit ==> fields.len() == 0,
    ensures
        takes(form_of(style, fields, rule), live(fields, fields.len()).len()),
{
    lemma_live(fields, fields.len());
}

/// A retirement is an assertion and nothing else: a type that is accepted with
/// retired slots is accepted without them, and what is generated for it is the
/// same either way, as [`Expansion::suits`] knows nothing of them.
pub proof fn lemma_retirement_only_refuses(
    container: ContainerFacts,
    retired: Seq<Retired>,
    body: Body,
)
    requires
        refusal(container, false, retired, body) is None,
    ensures
        refusal(container, false, seq![], body) is None,
{
}

} // verus!
