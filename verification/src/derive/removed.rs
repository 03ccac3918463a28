//! `#[carbonite(removed(...))]`: the names and positions a type has retired.
//!
//! Removing a field is safe on its own, since the reader skips a column it has
//! no home for, and adding one is safe on its own, given a default. Composing
//! them is not: a new field that lands on a removed field's *name*, or on its
//! *position*, reads the dead column. No comparison of schemas can catch it,
//! so it is caught here, at the type: a retired slot must stay empty, or hold
//! a `()` placeholder, which occupies no data columns.

use vstd::prelude::*;

use crate::derive::attrs::{Complaint, Literal, Rejection};
use crate::derive::model::{
    field_wire, field_wire_name, first_rule, is_placeholder, is_unit, lemma_live,
    lemma_live_variants, live, live_fields, live_variant_list, live_variants, rule_or, variant_wire,
    variant_wire_name, Field, Style, Variant,
};
use crate::derive::rename::RenameRule;
use crate::text::{self, decimal};

verus! {

/// One retired slot.
#[derive(Debug)]
pub enum Retired {
    /// A field or variant name.
    Name(String),
    /// A position in a tuple struct or tuple variant. It also retires the name
    /// that is this number, which is how a named field claims a position it
    /// replaced (`alias = "0"`).
    Position(usize),
}

/// The view of a [`Retired`] slot.
pub enum Slot {
    Name(Seq<char>),
    Position(nat),
}

impl View for Retired {
    type V = Slot;

    open spec fn view(&self) -> Slot {
        match *self {
            Retired::Name(name) => Slot::Name(name@),
            Retired::Position(index) => Slot::Position(index as nat),
        }
    }
}

/// The name that a retirement forbids.
pub open spec fn forbidden(slot: Slot) -> Seq<char> {
    match slot {
        Slot::Name(name) => name,
        Slot::Position(index) => decimal(index),
    }
}

/// The slot that a literal retires, if it is one that can.
pub open spec fn slot_of(literal: Literal) -> Option<Slot> {
    match literal {
        Literal::Text(name) => Some(Slot::Name(name@)),
        Literal::Position(index) => Some(Slot::Position(index as nat)),
        Literal::Other => None,
    }
}

impl Retired {
    /// The slot that a literal retires.
    pub fn parse(literal: &Literal, at: usize) -> (result: Result<Self, Rejection>)
        ensures
            match result {
                Ok(slot) => slot_of(*literal) == Some(slot@),
                Err(e) => slot_of(*literal) is None && e@ == (Complaint {
                    at: at as nat,
                    message:
                        "a retired slot is a field or variant name (`\"old\"`) or a position in a tuple (`1`)"@,
                }),
            },
    {
        match literal {
            Literal::Text(name) => Ok(Retired::Name(name.clone())),
            Literal::Position(index) => Ok(Retired::Position(*index)),
            Literal::Other => Err(
                Rejection {
                    at,
                    message: "a retired slot is a field or variant name (`\"old\"`) or a position in a tuple (`1`)".to_owned(),
                },
            ),
        }
    }

    /// The name this retirement forbids. A position forbids the alias that
    /// claims it.
    pub fn name(&self) -> (result: String)
        ensures
            result@ == forbidden(self@),
    {
        match self {
            Retired::Name(name) => name.clone(),
            Retired::Position(index) => text::to_decimal(*index as u64),
        }
    }
}

/// What is wrong with a type, and the field to blame.
#[derive(Debug)]
pub struct Misuse {
    /// The number of the field.
    pub field: usize,
    /// The reason.
    pub message: String,
}

/// The view of a [`Misuse`].
pub struct Clash {
    pub field: nat,
    pub message: Seq<char>,
}

impl View for Misuse {
    type V = Clash;

    open spec fn view(&self) -> Clash {
        Clash { field: self.field as nat, message: self.message@ }
    }
}

/// What is said of a field that takes a retired name.
pub open spec fn name_reused(name: Seq<char>) -> Seq<char> {
    "the name `"@ + name
        + "` is retired: data written while the old field held it still carries that column, and a field of the same name reads it \u{2014} rename this field, or make it `()` if it is only here to hold the name down"@
}

/// What is said of a field that takes a retired position.
pub open spec fn position_reused(index: nat) -> Seq<char> {
    "position "@ + decimal(index)
        + " is retired: data written while the old field held it still carries that column, and positions are matched in order, so this field reads it \u{2014} put `()` at position "@
        + decimal(index) + " and move this field after it"@
}

/// What is said of an alias that claims a retired name.
pub open spec fn alias_reused(name: Seq<char>) -> Seq<char> {
    "this alias claims the retired name `"@ + name
        + "`: data written while the old field held it still carries that column, and the alias reads it into this field"@
}

/// What is said of a variant that takes a retired name.
pub open spec fn variant_reused(name: Seq<char>) -> Seq<char> {
    "the variant name `"@ + name
        + "` is retired: the tag in data written while the old variant held it resolves to this name, so those rows decode as this variant \u{2014} a variant name cannot be reused, and unlike a field it has no `()` form to retire it with"@
}

/// Whether a field takes a name that is not free, without being a placeholder.
pub open spec fn takes_name(
    style: Style,
    field: Field,
    rule: Option<RenameRule>,
    name: Seq<char>,
) -> bool {
    &&& style == Style::Named
    &&& field_wire(field.ident@, field.attrs@, rule) == name
    &&& !is_unit(field.ty@)
}

/// The first of the live fields, from number `i` on, that takes the name.
pub open spec fn name_taker(
    style: Style,
    fields: Seq<Field>,
    live: Seq<usize>,
    rule: Option<RenameRule>,
    name: Seq<char>,
    i: nat,
) -> Option<nat>
    decreases live.len() - i,
{
    if i >= live.len() {
        None
    } else if takes_name(style, fields[live[i as int] as int], rule, name) {
        Some(live[i as int] as nat)
    } else {
        name_taker(style, fields, live, rule, name, i + 1)
    }
}

/// The first of the live fields, from number `i` on, with this alias.
pub open spec fn alias_taker(
    fields: Seq<Field>,
    live: Seq<usize>,
    name: Seq<char>,
    i: nat,
) -> Option<nat>
    decreases live.len() - i,
{
    if i >= live.len() {
        None
    } else if fields[live[i as int] as int].attrs@.aliases.contains(name) {
        Some(live[i as int] as nat)
    } else {
        alias_taker(fields, live, name, i + 1)
    }
}

/// What goes wrong with one retired slot, if anything does.
pub open spec fn slot_clash(
    slot: Slot,
    style: Style,
    fields: Seq<Field>,
    live: Seq<usize>,
    rule: Option<RenameRule>,
) -> Option<Clash> {
    let direct = match slot {
        Slot::Name(name) => match name_taker(style, fields, live, rule, name, 0) {
            Some(field) => Some(Clash { field, message: name_reused(name) }),
            None => None,
        },
        Slot::Position(index) => if style == Style::Unnamed && index < live.len() && !is_unit(
            fields[live[index as int] as int].ty@,
        ) {
            Some(Clash { field: live[index as int] as nat, message: position_reused(index) })
        } else {
            None
        },
    };
    match direct {
        Some(clash) => Some(clash),
        None => match alias_taker(fields, live, forbidden(slot), 0) {
            Some(field) => Some(Clash { field, message: alias_reused(forbidden(slot)) }),
            None => None,
        },
    }
}

/// What goes wrong first, from retired slot `i` on.
pub open spec fn fields_clash(
    retired: Seq<Retired>,
    style: Style,
    fields: Seq<Field>,
    live: Seq<usize>,
    rule: Option<RenameRule>,
    i: nat,
) -> Option<Clash>
    decreases retired.len() - i,
{
    if i >= retired.len() {
        None
    } else {
        match slot_clash(retired[i as int]@, style, fields, live, rule) {
            Some(clash) => Some(clash),
            None => fields_clash(retired, style, fields, live, rule, i + 1),
        }
    }
}

fn has_alias(aliases: &Vec<String>, name: &str) -> (result: bool)
    ensures
        result == crate::derive::attrs::texts_of(aliases@).contains(name@),
{
    let ghost all = crate::derive::attrs::texts_of(aliases@);
    let mut i: usize = 0;
    while i < aliases.len()
        invariant
            i <= aliases@.len(),
            all == crate::derive::attrs::texts_of(aliases@),
            forall|j: int| 0 <= j < i ==> #[trigger] all[j] != name@,
        decreases aliases@.len() - i,
    {
        if text::same(aliases[i].as_str(), name) {
            assert(all[i as int] == name@);
            return true;
        }
        i += 1;
    }
    false
}

fn find_name_taker(
    style: Style,
    fields: &Vec<Field>,
    live: &Vec<usize>,
    rule: Option<RenameRule>,
    name: &str,
) -> (result: Option<usize>)
    requires
        forall|i: int| 0 <= i < live@.len() ==> #[trigger] live@[i] < fields@.len(),
    ensures
        match result {
            Some(f) => name_taker(style, fields@, live@, rule, name@, 0) == Some(f as nat),
            None => name_taker(style, fields@, live@, rule, name@, 0) is None,
        },
{
    let mut i: usize = 0;
    while i < live.len()
        invariant
            i <= live@.len(),
            forall|i: int| 0 <= i < live@.len() ==> #[trigger] live@[i] < fields@.len(),
            name_taker(style, fields@, live@, rule, name@, 0) == name_taker(
                style,
                fields@,
                live@,
                rule,
                name@,
                i as nat,
            ),
        decreases live@.len() - i,
    {
        let field = &fields[live[i]];
        if style == Style::Named && text::same(field_wire_name(field, rule).as_str(), name)
            && !is_placeholder(&field.ty) {
            return Some(live[i]);
        }
        i += 1;
    }
    None
}

fn find_alias_taker(fields: &Vec<Field>, live: &Vec<usize>, name: &str) -> (result: Option<usize>)
    requires
        forall|i: int| 0 <= i < live@.len() ==> #[trigger] live@[i] < fields@.len(),
    ensures
        match result {
            Some(f) => alias_taker(fields@, live@, name@, 0) == Some(f as nat),
            None => alias_taker(fields@, live@, name@, 0) is None,
        },
{
    let mut i: usize = 0;
    while i < live.len()
        invariant
            i <= live@.len(),
            forall|i: int| 0 <= i < live@.len() ==> #[trigger] live@[i] < fields@.len(),
            alias_taker(fields@, live@, name@, 0) == alias_taker(fields@, live@, name@, i as nat),
        decreases live@.len() - i,
    {
        if has_alias(&fields[live[i]].attrs.aliases, name) {
            return Some(live[i]);
        }
        i += 1;
    }
    None
}

fn check_slot(
    slot: &Retired,
    style: Style,
    fields: &Vec<Field>,
    live: &Vec<usize>,
    rule: Option<RenameRule>,
) -> (result: Result<(), Misuse>)
    requires
        forall|i: int| 0 <= i < live@.len() ==> #[trigger] live@[i] < fields@.len(),
    ensures
        match result {
            Ok(()) => slot_clash(slot@, style, fields@, live@, rule) is None,
            Err(e) => slot_clash(slot@, style, fields@, live@, rule) == Some(e@),
        },
{
    match slot {
        Retired::Name(name) => {
            match find_name_taker(style, fields, live, rule, name.as_str()) {
                Some(field) => {
                    let message = text::join(
                        "the name `",
                        name.as_str(),
                        "` is retired: data written while the old field held it still carries that column, and a field of the same name reads it \u{2014} rename this field, or make it `()` if it is only here to hold the name down",
                    );
                    return Err(Misuse { field, message });
                },
                None => {},
            }
        },
        Retired::Position(index) => {
            if style == Style::Unnamed && *index < live.len() && !is_placeholder(
                &fields[live[*index]].ty,
            ) {
                let number = text::to_decimal(*index as u64);
                let start = text::join(
                    "position ",
                    number.as_str(),
                    " is retired: data written while the old field held it still carries that column, and positions are matched in order, so this field reads it \u{2014} put `()` at position ",
                );
                let message = text::join(
                    start.as_str(),
                    number.as_str(),
                    " and move this field after it",
                );
                return Err(Misuse { field: live[*index], message });
            }
        },
    }
    let name = slot.name();
    match find_alias_taker(fields, live, name.as_str()) {
        Some(field) => {
            let message = text::join(
                "this alias claims the retired name `",
                name.as_str(),
                "`: data written while the old field held it still carries that column, and the alias reads it into this field",
            );
            Err(Misuse { field, message })
        },
        None => Ok(()),
    }
}

/// Checks a struct's or variant's fields against its retirements.
pub fn check_fields(
    retired: &Vec<Retired>,
    style: Style,
    fields: &Vec<Field>,
    rule: Option<RenameRule>,
) -> (result: Result<(), Misuse>)
    ensures
        match result {
            Ok(()) => fields_clash(
                retired@,
                style,
                fields@,
                live(fields@, fields@.len()),
                rule,
                0,
            ) is None,
            Err(e) => fields_clash(
                retired@,
                style,
                fields@,
                live(fields@, fields@.len()),
                rule,
                0,
            ) == Some(e@),
        },
{
    let live_list = live_fields(fields);
    proof {
        assert(fields@.len() == fields.len());
        lemma_live(fields@, fields@.len());
    }
    let mut i: usize = 0;
    while i < retired.len()
        invariant
            i <= retired@.len(),
            live_list@ == live(fields@, fields@.len()),
            forall|i: int| 0 <= i < live_list@.len() ==> #[trigger] live_list@[i] < fields@.len(),
            fields_clash(retired@, style, fields@, live_list@, rule, 0) == fields_clash(
                retired@,
                style,
                fields@,
                live_list@,
                rule,
                i as nat,
            ),
        decreases retired@.len() - i,
    {
        match check_slot(&retired[i], style, fields, &live_list, rule) {
            Ok(()) => {},
            Err(e) => {
                return Err(e);
            },
        }
        i += 1;
    }
    Ok(())
}

/// What is wrong with an enum, and where.
#[derive(Debug)]
pub enum EnumMisuse {
    /// A retired slot of the enum itself.
    Slot(usize, String),
    /// A variant.
    Variant(usize, String),
    /// A field of a variant.
    Field(usize, Misuse),
}

/// The view of an [`EnumMisuse`].
pub enum EnumClash {
    Slot(nat, Seq<char>),
    Variant(nat, Seq<char>),
    Field(nat, Clash),
}

impl View for EnumMisuse {
    type V = EnumClash;

    open spec fn view(&self) -> EnumClash {
        match *self {
            EnumMisuse::Slot(i, message) => EnumClash::Slot(i as nat, message@),
            EnumMisuse::Variant(i, message) => EnumClash::Variant(i as nat, message@),
            EnumMisuse::Field(i, misuse) => EnumClash::Field(i as nat, misuse@),
        }
    }
}

/// Whether a variant claims a name, as its own or as an alias.
pub open spec fn claims(variant: Variant, rule: Option<RenameRule>, name: Seq<char>) -> bool {
    variant_wire(variant.ident@, variant.attrs@, rule) == name
        || variant.attrs@.aliases.contains(name)
}

/// The first of the live variants, from number `i` on, that claims the name.
pub open spec fn claimant(
    variants: Seq<Variant>,
    live: Seq<usize>,
    rule: Option<RenameRule>,
    name: Seq<char>,
    i: nat,
) -> Option<nat>
    decreases live.len() - i,
{
    if i >= live.len() {
        None
    } else if claims(variants[live[i as int] as int], rule, name) {
        Some(live[i as int] as nat)
    } else {
        claimant(variants, live, rule, name, i + 1)
    }
}

/// What goes wrong first with the names of the variants, from retired slot `i`
/// of the enum on.
pub open spec fn variants_clash(
    retired: Seq<Retired>,
    variants: Seq<Variant>,
    live: Seq<usize>,
    rule: Option<RenameRule>,
    i: nat,
) -> Option<EnumClash>
    decreases retired.len() - i,
{
    if i >= retired.len() {
        None
    } else {
        match retired[i as int]@ {
            Slot::Position(_) => Some(
                EnumClash::Slot(
                    i,
                    "an enum's variants are matched by name rather than by position \u{2014} the tag on the wire indexes the writer's list \u{2014} so retire the variant's name instead"@,
                ),
            ),
            Slot::Name(name) => match claimant(variants, live, rule, name, 0) {
                Some(v) => Some(EnumClash::Variant(v, variant_reused(name))),
                None => variants_clash(retired, variants, live, rule, i + 1),
            },
        }
    }
}

/// What goes wrong with the fields of one variant.
pub open spec fn payload_clash(variant: Variant, field_rule: Option<RenameRule>) -> Option<Clash> {
    fields_clash(
        variant.retired@,
        variant.style,
        variant.fields@,
        live(variant.fields@, variant.fields@.len()),
        rule_or(variant.attrs@.rename_all, field_rule),
        0,
    )
}

/// What goes wrong first with the fields of the live variants, from number `i`
/// on.
pub open spec fn payloads_clash(
    variants: Seq<Variant>,
    live: Seq<usize>,
    field_rule: Option<RenameRule>,
    i: nat,
) -> Option<EnumClash>
    decreases live.len() - i,
{
    if i >= live.len() {
        None
    } else {
        match payload_clash(variants[live[i as int] as int], field_rule) {
            Some(clash) => Some(EnumClash::Field(live[i as int] as nat, clash)),
            None => payloads_clash(variants, live, field_rule, i + 1),
        }
    }
}

/// What goes wrong first with an enum: its own retirements come before those
/// of its variants.
pub open spec fn enum_clash(
    retired: Seq<Retired>,
    variants: Seq<Variant>,
    rule: Option<RenameRule>,
    field_rule: Option<RenameRule>,
) -> Option<EnumClash> {
    let live = live_variants(variants, variants.len());
    match variants_clash(retired, variants, live, rule, 0) {
        Some(clash) => Some(clash),
        None => payloads_clash(variants, live, field_rule, 0),
    }
}

fn find_claimant(
    variants: &Vec<Variant>,
    live: &Vec<usize>,
    rule: Option<RenameRule>,
    name: &str,
) -> (result: Option<usize>)
    requires
        forall|i: int| 0 <= i < live@.len() ==> #[trigger] live@[i] < variants@.len(),
    ensures
        match result {
            Some(v) => claimant(variants@, live@, rule, name@, 0) == Some(v as nat),
            None => claimant(variants@, live@, rule, name@, 0) is None,
        },
{
    let mut i: usize = 0;
    while i < live.len()
        invariant
            i <= live@.len(),
            forall|i: int| 0 <= i < live@.len() ==> #[trigger] live@[i] < variants@.len(),
            claimant(variants@, live@, rule, name@, 0) == claimant(
                variants@,
                live@,
                rule,
                name@,
                i as nat,
            ),
        decreases live@.len() - i,
    {
        let variant = &variants[live[i]];
        if text::same(variant_wire_name(variant, rule).as_str(), name) || has_alias(
            &variant.attrs.aliases,
            name,
        ) {
            return Some(live[i]);
        }
        i += 1;
    }
    None
}

/// Checks an enum against its own retirements and each variant against theirs.
pub fn check_enum(
    retired: &Vec<Retired>,
    variants: &Vec<Variant>,
    container_rule: Option<RenameRule>,
    field_rule: Option<RenameRule>,
) -> (result: Result<(), EnumMisuse>)
    ensures
        match result {
            Ok(()) => enum_clash(retired@, variants@, container_rule, field_rule) is None,
            Err(e) => enum_clash(retired@, variants@, container_rule, field_rule) == Some(e@),
        },
{
    let live_list = live_variant_list(variants);
    proof {
        assert(variants@.len() == variants.len());
        lemma_live_variants(variants@, variants@.len());
    }
    let ghost all = variants_clash(retired@, variants@, live_list@, container_rule, 0);
    let mut i: usize = 0;
    while i < retired.len()
        invariant
            i <= retired@.len(),
            live_list@ == live_variants(variants@, variants@.len()),
            forall|i: int|
                0 <= i < live_list@.len() ==> #[trigger] live_list@[i] < variants@.len(),
            all == variants_clash(retired@, variants@, live_list@, container_rule, 0),
            all == variants_clash(retired@, variants@, live_list@, container_rule, i as nat),
        decreases retired@.len() - i,
    {
        match &retired[i] {
            Retired::Position(_) => {
                return Err(
                    EnumMisuse::Slot(
                        i,
                        "an enum's variants are matched by name rather than by position \u{2014} the tag on the wire indexes the writer's list \u{2014} so retire the variant's name instead".to_owned(),
                    ),
                );
            },
            Retired::Name(name) => {
                match find_claimant(variants, &live_list, container_rule, name.as_str()) {
                    Some(v) => {
                        let message = text::join(
                            "the variant name `",
                            name.as_str(),
                            "` is retired: the tag in data written while the old variant held it resolves to this name, so those rows decode as this variant \u{2014} a variant name cannot be reused, and unlike a field it has no `()` form to retire it with",
                        );
                        return Err(EnumMisuse::Variant(v, message));
                    },
                    None => {},
                }
            },
        }
        i += 1;
    }
    let mut k: usize = 0;
    while k < live_list.len()
        invariant
            k <= live_list@.len(),
            live_list@ == live_variants(variants@, variants@.len()),
            forall|i: int|
                0 <= i < live_list@.len() ==> #[trigger] live_list@[i] < variants@.len(),
            variants_clash(retired@, variants@, live_list@, container_rule, 0) is None,
            payloads_clash(variants@, live_list@, field_rule, 0) == payloads_clash(
                variants@,
                live_list@,
                field_rule,
                k as nat,
            ),
        decreases live_list@.len() - k,
    {
        let v: usize = live_list[k];
        let variant = &variants[v];
        let rule = first_rule(variant.attrs.rename_all, field_rule);
        match check_fields(&variant.retired, variant.style, &variant.fields, rule) {
            Ok(()) => {},
            Err(misuse) => {
                return Err(EnumMisuse::Field(v, misuse));
            },
        }
        k += 1;
    }
    Ok(())
}

} // verus!
