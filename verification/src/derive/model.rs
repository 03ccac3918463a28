//! The fields and variants of a type: which of them reach the wire, the names
//! they have there, and what the generated impls ask of generic parameters.

use vstd::prelude::*;

use crate::derive::attrs::{FieldAttrs, FieldFacts, VariantAttrs, VariantFacts};
use crate::derive::removed::Retired;
use crate::derive::rename::{capitals, field_name, strip_raw, stripped, variant_name, RenameRule};
use crate::text;

verus! {

/// One token of a type.
pub enum Token {
    /// An identifier.
    Ident(String),
    /// Tokens between delimiters, and whether those are parentheses.
    Group(bool, Vec<Token>),
    /// Punctuation, a literal, or the like.
    Other,
}

/// Whether these tokens hold the identifier, at any depth.
pub open spec fn mentioned(tokens: Seq<Token>, name: Seq<char>) -> bool {
    mentioned_in(tokens, name, tokens.len())
}

/// Whether the first `n` of these tokens hold the identifier.
pub open spec fn mentioned_in(tokens: Seq<Token>, name: Seq<char>, n: nat) -> bool
    decreases tokens, n,
{
    if n == 0 || n > tokens.len() {
        false
    } else {
        mentioned_in(tokens, name, (n - 1) as nat) || names(tokens[n - 1], name)
    }
}

/// Whether a token is or holds the identifier.
pub open spec fn names(token: Token, name: Seq<char>) -> bool
    decreases token, 0nat,
{
    match token {
        Token::Ident(ident) => ident@ == name,
        Token::Group(_, inside) => mentioned_in(inside@, name, inside@.len()),
        Token::Other => false,
    }
}

/// What is mentioned early is mentioned.
proof fn lemma_mentioned_early(tokens: Seq<Token>, name: Seq<char>, i: nat, n: nat)
    requires
        i <= n <= tokens.len(),
        mentioned_in(tokens, name, i),
    ensures
        mentioned_in(tokens, name, n),
    decreases n,
{
    if i < n {
        lemma_mentioned_early(tokens, name, i, (n - 1) as nat);
    }
}

/// Whether these tokens are `()`.
pub open spec fn is_unit(tokens: Seq<Token>) -> bool {
    tokens.len() == 1 && (tokens[0] matches Token::Group(round, inside) && round && inside@.len()
        == 0)
}

/// Whether `ty` mentions the identifier `param` anywhere.
pub fn mentions(ty: &Vec<Token>, param: &str) -> (result: bool)
    ensures
        result == mentioned(ty@, param@),
    decreases ty,
{
    let mut i: usize = 0;
    while i < ty.len()
        invariant
            i <= ty@.len(),
            !mentioned_in(ty@, param@, i as nat),
        decreases ty@.len() - i,
    {
        let found = match &ty[i] {
            Token::Ident(ident) => text::same(ident.as_str(), param),
            Token::Group(_, inside) => mentions(inside, param),
            Token::Other => false,
        };
        assert(found == names(ty@[i as int], param@));
        assert(found == mentioned_in(ty@, param@, (i + 1) as nat));
        if found {
            proof {
                lemma_mentioned_early(ty@, param@, (i + 1) as nat, ty@.len());
            }
            return true;
        }
        i += 1;
    }
    false
}

/// A `()` placeholder: the only thing allowed to sit in a retired slot.
pub fn is_placeholder(ty: &Vec<Token>) -> (result: bool)
    ensures
        result == is_unit(ty@),
{
    if ty.len() != 1 {
        return false;
    }
    match &ty[0] {
        Token::Group(round, inside) => *round && inside.len() == 0,
        _ => false,
    }
}

/// How the fields of a struct or variant are written.
#[derive(Clone, Copy, Debug, PartialEq, Eq, Structural)]
pub enum Style {
    /// Without any.
    Unit,
    /// In parentheses.
    Unnamed,
    /// In braces.
    Named,
}

/// A field: its name, its type and what its attributes say.
pub struct Field {
    /// The identifier; empty for a positional field.
    pub ident: String,
    /// The type.
    pub ty: Vec<Token>,
    /// What the attributes say.
    pub attrs: FieldAttrs,
}

/// A variant: its name, its fields and what its attributes say.
pub struct Variant {
    /// The identifier.
    pub ident: String,
    /// What the serde attributes say.
    pub attrs: VariantAttrs,
    /// The slots that it has retired.
    pub retired: Vec<Retired>,
    /// How its fields are written.
    pub style: Style,
    /// Its fields.
    pub fields: Vec<Field>,
}

/// The first of two rules that is there.
pub open spec fn rule_or(a: Option<RenameRule>, b: Option<RenameRule>) -> Option<RenameRule> {
    match a {
        Some(rule) => Some(rule),
        None => b,
    }
}

/// The first of two rules that is there.
pub fn first_rule(a: Option<RenameRule>, b: Option<RenameRule>) -> (result: Option<RenameRule>)
    ensures
        result == rule_or(a, b),
{
    match a {
        Some(rule) => Some(rule),
        None => b,
    }
}

/// A field's name on the wire: what `rename` says, else its identifier under
/// the rule.
pub open spec fn field_wire(ident: Seq<char>, attrs: FieldFacts, rule: Option<RenameRule>) -> Seq<
    char,
> {
    match attrs.rename {
        Some(name) => name,
        None => match rule {
            Some(rule) => field_name(rule, stripped(ident)),
            None => stripped(ident),
        },
    }
}

/// A variant's name on the wire.
pub open spec fn variant_wire(
    ident: Seq<char>,
    attrs: VariantFacts,
    rule: Option<RenameRule>,
) -> Seq<char> {
    match attrs.rename {
        Some(name) => name,
        None => match rule {
            Some(rule) => variant_name(rule, stripped(ident), capitals(stripped(ident))),
            None => stripped(ident),
        },
    }
}

/// A field's name on the wire.
pub fn field_wire_name(field: &Field, rule: Option<RenameRule>) -> (result: String)
    ensures
        result@ == field_wire(field.ident@, field.attrs@, rule),
{
    match &field.attrs.rename {
        Some(name) => name.clone(),
        None => {
            let ident = strip_raw(field.ident.as_str());
            match rule {
                Some(rule) => rule.apply_to_field(ident.as_str()),
                None => ident,
            }
        },
    }
}

/// A variant's name on the wire.
pub fn variant_wire_name(variant: &Variant, rule: Option<RenameRule>) -> (result: String)
    ensures
        result@ == variant_wire(variant.ident@, variant.attrs@, rule),
{
    match &variant.attrs.rename {
        Some(name) => name.clone(),
        None => {
            let ident = strip_raw(variant.ident.as_str());
            match rule {
                Some(rule) => rule.apply_to_variant(ident.as_str()),
                None => ident,
            }
        },
    }
}

/// Which of the first `n` fields reach the wire.
pub open spec fn live(fields: Seq<Field>, n: nat) -> Seq<usize>
    decreases n,
{
    if n == 0 {
        seq![]
    } else {
        let before = live(fields, (n - 1) as nat);
        if fields[n - 1].attrs.skip {
            before
        } else {
            before.push((n - 1) as usize)
        }
    }
}

/// Which of the first `n` variants reach the wire.
pub open spec fn live_variants(variants: Seq<Variant>, n: nat) -> Seq<usize>
    decreases n,
{
    if n == 0 {
        seq![]
    } else {
        let before = live_variants(variants, (n - 1) as nat);
        if variants[n - 1].attrs.skip {
            before
        } else {
            before.push((n - 1) as usize)
        }
    }
}

/// The live fields are in order, and are those that are not skipped.
pub proof fn lemma_live(fields: Seq<Field>, n: nat)
    requires
        n <= fields.len() <= usize::MAX,
    ensures
        live(fields, n).len() <= n,
        forall|i: int| #![trigger live(fields, n)[i]]
            0 <= i < live(fields, n).len() ==> live(fields, n)[i] < n
                && !fields[live(fields, n)[i] as int].attrs.skip,
        forall|i: int, j: int|
            0 <= i < j < live(fields, n).len() ==> live(fields, n)[i] < live(fields, n)[j],
        forall|f: int|
            0 <= f < n && !(#[trigger] fields[f]).attrs.skip ==> live(fields, n).contains(
                f as usize,
            ),
    decreases n,
{
    if n > 0 {
        let m = (n - 1) as nat;
        let before = live(fields, m);
        lemma_live(fields, m);
        assert forall|f: int| 0 <= f < n && !(#[trigger] fields[f]).attrs.skip implies live(
            fields,
            n,
        ).contains(f as usize) by {
            if f < m {
                assert(before.contains(f as usize));
                let i = choose|i: int| 0 <= i < before.len() && before[i] == f as usize;
                assert(live(fields, n)[i] == f as usize);
            } else {
                assert(live(fields, n)[before.len() as int] == f as usize);
            }
        }
    }
}

/// The live variants are in order, and are those that are not skipped.
pub proof fn lemma_live_variants(variants: Seq<Variant>, n: nat)
    requires
        n <= variants.len() <= usize::MAX,
    ensures
        live_variants(variants, n).len() <= n,
        forall|i: int| #![trigger live_variants(variants, n)[i]]
            0 <= i < live_variants(variants, n).len() ==> live_variants(variants, n)[i] < n
                && !variants[live_variants(variants, n)[i] as int].attrs.skip,
        forall|i: int, j: int|
            0 <= i < j < live_variants(variants, n).len() ==> live_variants(variants, n)[i]
                < live_variants(variants, n)[j],
        forall|v: int|
            0 <= v < n && !(#[trigger] variants[v]).attrs.skip ==> live_variants(
                variants,
                n,
            ).contains(v as usize),
    decreases n,
{
    if n > 0 {
        let m = (n - 1) as nat;
        let before = live_variants(variants, m);
        lemma_live_variants(variants, m);
        assert forall|v: int| 0 <= v < n && !(#[trigger] variants[v]).attrs.skip implies
            live_variants(variants, n).contains(v as usize) by {
            if v < m {
                assert(before.contains(v as usize));
                let i = choose|i: int| 0 <= i < before.len() && before[i] == v as usize;
                assert(live_variants(variants, n)[i] == v as usize);
            } else {
                assert(live_variants(variants, n)[before.len() as int] == v as usize);
            }
        }
    }
}

/// How many of the first `n` fields reach the wire.
pub open spec fn places(fields: Seq<Field>, n: nat) -> nat
    decreases n,
{
    if n == 0 {
        0
    } else if fields[n - 1].attrs.skip {
        places(fields, (n - 1) as nat)
    } else {
        places(fields, (n - 1) as nat) + 1
    }
}

/// A field that reaches the wire stands there behind those before it that do.
pub proof fn lemma_live_places(fields: Seq<Field>, n: nat)
    requires
        n <= fields.len() <= usize::MAX,
    ensures
        live(fields, n).len() == places(fields, n),
        forall|f: nat| #![trigger places(fields, f)]
            f < n && !fields[f as int].attrs.skip ==> places(fields, f) < live(fields, n).len()
                && live(fields, n)[places(fields, f) as int] == f,
    decreases n,
{
    if n > 0 {
        lemma_live_places(fields, (n - 1) as nat);
    }
}

/// The token that a way leads to: each number picks a token, and what follows
/// goes on between its delimiters.
pub open spec fn token_at(tokens: Seq<Token>, way: Seq<nat>) -> Option<Token>
    decreases way.len(),
{
    if way.len() == 0 || way[0] >= tokens.len() {
        None
    } else if way.len() == 1 {
        Some(tokens[way[0] as int])
    } else {
        match tokens[way[0] as int] {
            Token::Group(_, inside) => token_at(inside@, way.skip(1)),
            _ => None,
        }
    }
}

/// Whether a way leads to the identifier.
pub open spec fn leads_to(tokens: Seq<Token>, way: Seq<nat>, name: Seq<char>) -> bool {
    token_at(tokens, way) matches Some(Token::Ident(ident)) && ident@ == name
}

/// An identifier is mentioned exactly if some way leads to it, however many
/// delimiters it passes.
pub proof fn lemma_mentioned(tokens: Seq<Token>, name: Seq<char>)
    ensures
        mentioned(tokens, name) <==> exists|way: Seq<nat>| #[trigger] leads_to(tokens, way, name),
{
    if mentioned(tokens, name) {
        let way = lemma_way(tokens, name, tokens.len());
        assert(leads_to(tokens, way, name));
    }
    assert forall|way: Seq<nat>| #[trigger] leads_to(tokens, way, name) implies mentioned(
        tokens,
        name,
    ) by {
        lemma_led(tokens, way, name);
    }
}

proof fn lemma_way(tokens: Seq<Token>, name: Seq<char>, n: nat) -> (way: Seq<nat>)
    requires
        n <= tokens.len(),
        mentioned_in(tokens, name, n),
    ensures
        leads_to(tokens, way, name),
    decreases tokens, n,
{
    if mentioned_in(tokens, name, (n - 1) as nat) {
        lemma_way(tokens, name, (n - 1) as nat)
    } else {
        let at = (n - 1) as nat;
        assert(names(tokens[at as int], name));
        match tokens[at as int] {
            Token::Group(_, inside) => {
                let rest = lemma_way(inside@, name, inside@.len());
                let way = seq![at] + rest;
                assert(way.skip(1) =~= rest);
                way
            },
            _ => seq![at],
        }
    }
}

proof fn lemma_led(tokens: Seq<Token>, way: Seq<nat>, name: Seq<char>)
    requires
        leads_to(tokens, way, name),
    ensures
        mentioned(tokens, name),
    decreases way.len(),
{
    let at = way[0];
    if way.len() > 1 {
        match tokens[at as int] {
            Token::Group(_, inside) => {
                lemma_led(inside@, way.skip(1), name);
            },
            _ => {},
        }
    }
    assert(names(tokens[at as int], name));
    assert(mentioned_in(tokens, name, at + 1));
    lemma_mentioned_early(tokens, name, at + 1, tokens.len());
}

/// Which fields reach the wire, in order.
pub fn live_fields(fields: &Vec<Field>) -> (result: Vec<usize>)
    ensures
        result@ == live(fields@, fields@.len()),
{
    let mut out: Vec<usize> = Vec::new();
    let mut i: usize = 0;
    while i < fields.len()
        invariant
            i <= fields@.len(),
            out@ == live(fields@, i as nat),
        decreases fields@.len() - i,
    {
        if !fields[i].attrs.skip {
            out.push(i);
        }
        i += 1;
    }
    out
}

/// Which variants reach the wire, in order.
pub fn live_variant_list(variants: &Vec<Variant>) -> (result: Vec<usize>)
    ensures
        result@ == live_variants(variants@, variants@.len()),
{
    let mut out: Vec<usize> = Vec::new();
    let mut i: usize = 0;
    while i < variants.len()
        invariant
            i <= variants@.len(),
            out@ == live_variants(variants@, i as nat),
        decreases variants@.len() - i,
    {
        if !variants[i].attrs.skip {
            out.push(i);
        }
        i += 1;
    }
    out
}

/// Whether some live field, routed through serde or not as asked, mentions a
/// parameter.
pub open spec fn reaches(fields: Seq<Field>, routed: bool, param: Seq<char>) -> bool {
    exists|i: int| 0 <= i < fields.len() && #[trigger] uses(fields[i], routed, param)
}

/// Whether a field reaches the wire the way asked and mentions a parameter.
pub open spec fn uses(field: Field, routed: bool, param: Seq<char>) -> bool {
    &&& !field.attrs.skip
    &&& (field.attrs.fallback is Some) == routed
    &&& mentioned(field.ty@, param)
}

/// Whether some live field of some live variant does.
pub open spec fn variants_reach(variants: Seq<Variant>, routed: bool, param: Seq<char>) -> bool {
    exists|i: int|
        0 <= i < variants.len() && !(#[trigger] variants[i]).attrs.skip && reaches(
            variants[i].fields@,
            routed,
            param,
        )
}

fn fields_reach(fields: &Vec<Field>, routed: bool, param: &str) -> (result: bool)
    ensures
        result == reaches(fields@, routed, param@),
{
    let mut i: usize = 0;
    while i < fields.len()
        invariant
            i <= fields@.len(),
            forall|j: int| 0 <= j < i ==> !#[trigger] uses(fields@[j], routed, param@),
        decreases fields@.len() - i,
    {
        let field = &fields[i];
        if !field.attrs.skip && field.attrs.fallback.is_some() == routed && mentions(
            &field.ty,
            param,
        ) {
            assert(uses(fields@[i as int], routed, param@));
            return true;
        }
        assert(!uses(fields@[i as int], routed, param@));
        i += 1;
    }
    false
}

fn some_variant_reaches(variants: &Vec<Variant>, routed: bool, param: &str) -> (result: bool)
    ensures
        result == variants_reach(variants@, routed, param@),
{
    let mut i: usize = 0;
    while i < variants.len()
        invariant
            i <= variants@.len(),
            forall|j: int|
                0 <= j < i ==> (#[trigger] variants@[j]).attrs.skip || !reaches(
                    variants@[j].fields@,
                    routed,
                    param@,
                ),
        decreases variants@.len() - i,
    {
        if !variants[i].attrs.skip && fields_reach(&variants[i].fields, routed, param) {
            return true;
        }
        i += 1;
    }
    false
}

/// What the generated impls ask of a generic parameter.
#[derive(Clone, Copy, Debug, PartialEq, Eq, Structural)]
pub struct ParamRole {
    /// That it can go through serde: a field that is routed there mentions it.
    pub fallback: bool,
    /// The impl's own trait, which a parameter that is only reached through
    /// serde goes without.
    pub primary: bool,
}

/// The role of a parameter, from how the fields reach it.
pub open spec fn role(through_serde: bool, directly: bool) -> ParamRole {
    ParamRole { fallback: through_serde, primary: !through_serde || directly }
}

/// The body of a type.
pub enum Body {
    /// A struct.
    Struct(Style, Vec<Field>),
    /// An enum.
    Enum(Vec<Variant>),
}

impl Body {
    /// Whether a field that reaches the wire the way asked mentions a
    /// parameter.
    pub open spec fn reaches(self, routed: bool, param: Seq<char>) -> bool {
        match self {
            Body::Struct(_, fields) => reaches(fields@, routed, param),
            Body::Enum(variants) => variants_reach(variants@, routed, param),
        }
    }

    /// The role of a generic parameter.
    pub fn param_role(&self, param: &str) -> (result: ParamRole)
        ensures
            result == role(self.reaches(true, param@), self.reaches(false, param@)),
    {
        let (through_serde, directly) = match self {
            Body::Struct(_, fields) => (
                fields_reach(fields, true, param),
                fields_reach(fields, false, param),
            ),
            Body::Enum(variants) => (
                some_variant_reaches(variants, true, param),
                some_variant_reaches(variants, false, param),
            ),
        };
        ParamRole { fallback: through_serde, primary: !through_serde || directly }
    }
}

/// Whether what a routed field must provide is restated for it: not for a type
/// that mentions a parameter, whose own bound says so already.
pub open spec fn is_asserted(field: Field, params: Seq<String>) -> bool {
    &&& !field.attrs.skip
    &&& field.attrs.fallback is Some
    &&& forall|i: int| 0 <= i < params.len() ==> !mentioned(field.ty@, (#[trigger] params[i])@)
}

/// Whether any of these parameters is mentioned.
fn mentions_any(ty: &Vec<Token>, params: &Vec<String>) -> (result: bool)
    ensures
        result == exists|i: int|
            0 <= i < params@.len() && mentioned(ty@, (#[trigger] params@[i])@),
{
    let mut i: usize = 0;
    while i < params.len()
        invariant
            i <= params@.len(),
            forall|j: int| 0 <= j < i ==> !mentioned(ty@, (#[trigger] params@[j])@),
        decreases params@.len() - i,
    {
        if mentions(ty, params[i].as_str()) {
            return true;
        }
        i += 1;
    }
    false
}

/// The first `n` of these fields for which the requirement is restated.
pub open spec fn asserted(fields: Seq<Field>, params: Seq<String>, n: nat) -> Seq<usize>
    decreases n,
{
    if n == 0 {
        seq![]
    } else {
        let before = asserted(fields, params, (n - 1) as nat);
        if is_asserted(fields[n - 1], params) {
            before.push((n - 1) as usize)
        } else {
            before
        }
    }
}

/// The fields for which it is restated what a routed field must provide.
pub fn fallback_assertions(fields: &Vec<Field>, params: &Vec<String>) -> (result: Vec<usize>)
    ensures
        result@ == asserted(fields@, params@, fields@.len()),
{
    let mut out: Vec<usize> = Vec::new();
    let mut i: usize = 0;
    while i < fields.len()
        invariant
            i <= fields@.len(),
            out@ == asserted(fields@, params@, i as nat),
        decreases fields@.len() - i,
    {
        let field = &fields[i];
        let named = mentions_any(&field.ty, params);
        assert((!field.attrs.skip && field.attrs.fallback is Some && !named) == is_asserted(
            fields@[i as int],
            params@,
        ));
        if !field.attrs.skip && field.attrs.fallback.is_some() && !named {
            out.push(i);
        }
        i += 1;
    }
    out
}

} // verus!
