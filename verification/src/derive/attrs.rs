//! The attributes that the derive honors, and those it rejects because a
//! columnar schema cannot represent what they ask for.

use vstd::prelude::*;

use crate::derive::rename::{rule_named, RenameRule};
use crate::text;

verus! {

/// Which attribute an item stands in.
#[derive(Clone, Copy, Debug, PartialEq, Eq, Structural)]
pub enum Space {
    /// `#[serde(...)]`
    Serde,
    /// `#[carbonite(...)]`
    Carbonite,
    /// Any other.
    Foreign,
}

/// A literal in the list of an item.
#[derive(Debug)]
pub enum Literal {
    /// A string.
    Text(String),
    /// A whole number.
    Position(usize),
    /// Anything else.
    Other,
}

/// What follows the name of an item.
#[derive(Debug)]
pub enum Form {
    /// Nothing: `name`.
    Word,
    /// A string: `name = "text"`.
    Text(String),
    /// Another value: `name = value`.
    Value,
    /// A list: `name(...)`.
    List(Vec<Literal>),
}

/// One item of an attribute.
#[derive(Debug)]
pub struct Item {
    /// The attribute it stands in.
    pub space: Space,
    /// Its name.
    pub name: String,
    /// What follows the name.
    pub form: Form,
}

/// Why the derive refuses a type, and the item that is to blame.
#[derive(Debug)]
pub struct Rejection {
    /// The number of the item.
    pub at: usize,
    /// The reason.
    pub message: String,
}

/// The view of a [`Rejection`].
pub struct Complaint {
    pub at: nat,
    pub message: Seq<char>,
}

impl View for Rejection {
    type V = Complaint;

    open spec fn view(&self) -> Complaint {
        Complaint { at: self.at as nat, message: self.message@ }
    }
}

fn reject<T>(at: usize, message: &str) -> (result: Result<T, Rejection>)
    ensures
        result matches Err(e) && e@ == (Complaint { at: at as nat, message: message@ }),
{
    Err(Rejection { at, message: message.to_owned() })
}

/// The text of an optional string.
pub open spec fn text_of(s: Option<String>) -> Option<Seq<char>> {
    match s {
        Some(s) => Some(s@),
        None => None,
    }
}

/// The texts of a list of strings.
pub open spec fn texts_of(list: Seq<String>) -> Seq<Seq<char>> {
    Seq::new(list.len(), |i: int| list[i]@)
}

/// The single name that an item gives, or what is wrong with it.
pub open spec fn str_value(item: Item) -> Result<Seq<char>, Seq<char>> {
    match item.form {
        Form::Text(s) => Ok(s@),
        Form::Value => Err("expected string literal"@),
        _ => Err(
            "carbonite requires a single name here; split serialize/deserialize forms are not supported"@,
        ),
    }
}

/// The string that an item is set to, or what is wrong with it.
pub open spec fn assigned(item: Item) -> Result<Seq<char>, Seq<char>> {
    match item.form {
        Form::Text(s) => Ok(s@),
        Form::Value => Err("expected string literal"@),
        _ => Err("expected `=`"@),
    }
}

/// The rule that an item names, or what is wrong with it.
pub open spec fn rule_value(item: Item) -> Result<RenameRule, Seq<char>> {
    match str_value(item) {
        Ok(s) => match rule_named(s) {
            Some(rule) => Ok(rule),
            None => Err("unknown rename_all rule `"@ + s + "`"@),
        },
        Err(message) => Err(message),
    }
}

/// The single name that an item gives.
pub fn expect_str_value(item: &Item, at: usize) -> (result: Result<String, Rejection>)
    ensures
        match result {
            Ok(s) => str_value(*item) == Ok::<_, Seq<char>>(s@),
            Err(e) => str_value(*item) == Err::<Seq<char>, _>(e@.message) && e@.at == at,
        },
{
    match &item.form {
        Form::Text(s) => Ok(s.clone()),
        Form::Value => reject(at, "expected string literal"),
        _ => reject(
            at,
            "carbonite requires a single name here; split serialize/deserialize forms are not supported",
        ),
    }
}

/// The string that an item is set to.
pub fn expect_assigned(item: &Item, at: usize) -> (result: Result<String, Rejection>)
    ensures
        match result {
            Ok(s) => assigned(*item) == Ok::<_, Seq<char>>(s@),
            Err(e) => assigned(*item) == Err::<Seq<char>, _>(e@.message) && e@.at == at,
        },
{
    match &item.form {
        Form::Text(s) => Ok(s.clone()),
        Form::Value => reject(at, "expected string literal"),
        _ => reject(at, "expected `=`"),
    }
}

/// The rule that an item names.
pub fn parse_rename_rule(item: &Item, at: usize) -> (result: Result<RenameRule, Rejection>)
    ensures
        match result {
            Ok(rule) => rule_value(*item) == Ok::<_, Seq<char>>(rule),
            Err(e) => rule_value(*item) == Err::<RenameRule, _>(e@.message) && e@.at == at,
        },
{
    let value = expect_str_value(item, at)?;
    match RenameRule::from_str(value.as_str()) {
        Some(rule) => Ok(rule),
        None => reject(at, text::join("unknown rename_all rule `", value.as_str(), "`").as_str()),
    }
}

/// A type that the container is converted from or into.
#[derive(Debug)]
pub struct Conversion {
    /// Which attribute named it.
    pub attr: &'static str,
    /// The type as it is written.
    pub text: String,
    /// The number of the item that named it.
    pub at: usize,
}

/// The view of a [`Conversion`].
pub struct ConversionFacts {
    pub attr: Seq<char>,
    pub text: Seq<char>,
    pub at: nat,
}

impl View for Conversion {
    type V = ConversionFacts;

    open spec fn view(&self) -> ConversionFacts {
        ConversionFacts { attr: self.attr@, text: self.text@, at: self.at as nat }
    }
}

/// What an optional conversion says.
pub open spec fn conversion_of(c: Option<Conversion>) -> Option<ConversionFacts> {
    match c {
        Some(c) => Some(c@),
        None => None,
    }
}

fn parse_conversion(item: &Item, at: usize, attr: &'static str) -> (result: Result<
    Conversion,
    Rejection,
>)
    ensures
        match result {
            Ok(c) => assigned(*item) == Ok::<_, Seq<char>>(c@.text) && c@.attr == attr@ && c@.at
                == at,
            Err(e) => assigned(*item) == Err::<Seq<char>, _>(e@.message) && e@.at == at,
        },
{
    let text = expect_assigned(item, at)?;
    Ok(Conversion { attr, text, at })
}

/// What the serde attributes of a container say.
#[derive(Debug)]
pub struct ContainerAttrs {
    /// The name on the wire.
    pub rename: Option<String>,
    /// The rule for the names of its fields or variants.
    pub rename_all: Option<RenameRule>,
    /// The rule for the names of the fields of its variants.
    pub rename_all_fields: Option<RenameRule>,
    /// Whether it is represented as its only field.
    pub transparent: bool,
    /// What the type is read *from*.
    pub de_repr: Option<Conversion>,
    /// What the type is written *into*.
    pub ser_repr: Option<Conversion>,
}

/// The view of [`ContainerAttrs`].
pub struct ContainerFacts {
    pub rename: Option<Seq<char>>,
    pub rename_all: Option<RenameRule>,
    pub rename_all_fields: Option<RenameRule>,
    pub transparent: bool,
    pub de_repr: Option<ConversionFacts>,
    pub ser_repr: Option<ConversionFacts>,
}

impl View for ContainerAttrs {
    type V = ContainerFacts;

    open spec fn view(&self) -> ContainerFacts {
        ContainerFacts {
            rename: text_of(self.rename),
            rename_all: self.rename_all,
            rename_all_fields: self.rename_all_fields,
            transparent: self.transparent,
            de_repr: conversion_of(self.de_repr),
            ser_repr: conversion_of(self.ser_repr),
        }
    }
}

/// A container without attributes.
pub open spec fn plain_container() -> ContainerFacts {
    ContainerFacts {
        rename: None,
        rename_all: None,
        rename_all_fields: None,
        transparent: false,
        de_repr: None,
        ser_repr: None,
    }
}

/// Why no schema is derived for an enum that is tagged another way.
pub open spec fn tagging_refused() -> Seq<char> {
    "carbonite cannot derive Schema for untagged or internally/adjacently tagged enums; only externally tagged (default) enums have a columnar layout"@
}

/// Why no schema is derived for an identifier type.
pub open spec fn identifier_refused() -> Seq<char> {
    "carbonite cannot derive Schema for a serde identifier type: it deserializes from the names of another type's fields or variants rather than from data of its own, so a schema would misdescribe it"@
}

/// Why no schema is derived for a remote type.
pub open spec fn remote_refused() -> Seq<char> {
    "carbonite cannot derive Schema for serde(remote): the generated code is a module of conversion functions rather than impls on this type, so there is nothing to hang a schema on"@
}

/// What one more item adds to what is known of a container.
pub open spec fn container_step(c: ContainerFacts, item: Item, at: nat) -> Result<
    ContainerFacts,
    Complaint,
> {
    let name = item.name@;
    if item.space != Space::Serde {
        Ok(c)
    } else if name == "rename"@ {
        match str_value(item) {
            Ok(s) => Ok(ContainerFacts { rename: Some(s), ..c }),
            Err(message) => Err(Complaint { at, message }),
        }
    } else if name == "rename_all"@ {
        match rule_value(item) {
            Ok(rule) => Ok(ContainerFacts { rename_all: Some(rule), ..c }),
            Err(message) => Err(Complaint { at, message }),
        }
    } else if name == "rename_all_fields"@ {
        match rule_value(item) {
            Ok(rule) => Ok(ContainerFacts { rename_all_fields: Some(rule), ..c }),
            Err(message) => Err(Complaint { at, message }),
        }
    } else if name == "transparent"@ {
        Ok(ContainerFacts { transparent: true, ..c })
    } else if name == "untagged"@ || name == "tag"@ || name == "content"@ {
        Err(Complaint { at, message: tagging_refused() })
    } else if name == "from"@ || name == "try_from"@ {
        match assigned(item) {
            Ok(text) => Ok(
                ContainerFacts { de_repr: Some(ConversionFacts { attr: name, text, at }), ..c },
            ),
            Err(message) => Err(Complaint { at, message }),
        }
    } else if name == "into"@ {
        match assigned(item) {
            Ok(text) => Ok(
                ContainerFacts { ser_repr: Some(ConversionFacts { attr: name, text, at }), ..c },
            ),
            Err(message) => Err(Complaint { at, message }),
        }
    } else if name == "field_identifier"@ || name == "variant_identifier"@ {
        Err(Complaint { at, message: identifier_refused() })
    } else if name == "remote"@ {
        Err(Complaint { at, message: remote_refused() })
    } else {
        Ok(c)
    }
}

/// What the first `n` items say of a container: the first that is refused
/// decides.
pub open spec fn container_facts(items: Seq<Item>, n: nat) -> Result<ContainerFacts, Complaint>
    decreases n,
{
    if n == 0 {
        Ok(plain_container())
    } else {
        match container_facts(items, (n - 1) as nat) {
            Ok(c) => container_step(c, items[n - 1], (n - 1) as nat),
            Err(e) => Err(e),
        }
    }
}

proof fn lemma_container_stuck(items: Seq<Item>, i: nat, n: nat)
    requires
        i <= n,
        container_facts(items, i) is Err,
    ensures
        container_facts(items, n) == container_facts(items, i),
    decreases n,
{
    if i < n {
        lemma_container_stuck(items, i, (n - 1) as nat);
    }
}

fn container_item(out: &mut ContainerAttrs, item: &Item, at: usize) -> (result: Result<
    (),
    Rejection,
>)
    ensures
        match result {
            Ok(()) => container_step(old(out)@, *item, at as nat) == Ok::<_, Complaint>(final(out)@),
            Err(e) => container_step(old(out)@, *item, at as nat) == Err::<ContainerFacts, _>(e@),
        },
{
    if item.space != Space::Serde {
        return Ok(());
    }
    let name = item.name.as_str();
    if text::same(name, "rename") {
        out.rename = Some(expect_str_value(item, at)?);
    } else if text::same(name, "rename_all") {
        out.rename_all = Some(parse_rename_rule(item, at)?);
    } else if text::same(name, "rename_all_fields") {
        out.rename_all_fields = Some(parse_rename_rule(item, at)?);
    } else if text::same(name, "transparent") {
        out.transparent = true;
    } else if text::same(name, "untagged") || text::same(name, "tag") || text::same(
        name,
        "content",
    ) {
        return reject(
            at,
            "carbonite cannot derive Schema for untagged or internally/adjacently tagged enums; only externally tagged (default) enums have a columnar layout",
        );
    } else if text::same(name, "from") {
        out.de_repr = Some(parse_conversion(item, at, "from")?);
    } else if text::same(name, "try_from") {
        out.de_repr = Some(parse_conversion(item, at, "try_from")?);
    } else if text::same(name, "into") {
        out.ser_repr = Some(parse_conversion(item, at, "into")?);
    } else if text::same(name, "field_identifier") || text::same(name, "variant_identifier") {
        return reject(
            at,
            "carbonite cannot derive Schema for a serde identifier type: it deserializes from the names of another type's fields or variants rather than from data of its own, so a schema would misdescribe it",
        );
    } else if text::same(name, "remote") {
        return reject(
            at,
            "carbonite cannot derive Schema for serde(remote): the generated code is a module of conversion functions rather than impls on this type, so there is nothing to hang a schema on",
        );
    }
    Ok(())
}

/// Reads the serde attributes of a container.
pub fn parse_container_attrs(items: &[Item]) -> (result: Result<ContainerAttrs, Rejection>)
    ensures
        match result {
            Ok(c) => container_facts(items@, items@.len()) == Ok::<_, Complaint>(c@),
            Err(e) => container_facts(items@, items@.len()) == Err::<ContainerFacts, _>(e@),
        },
{
    let mut out = ContainerAttrs {
        rename: None,
        rename_all: None,
        rename_all_fields: None,
        transparent: false,
        de_repr: None,
        ser_repr: None,
    };
    let mut i: usize = 0;
    while i < items.len()
        invariant
            i <= items@.len(),
            container_facts(items@, i as nat) == Ok::<_, Complaint>(out@),
        decreases items@.len() - i,
    {
        match container_item(&mut out, &items[i], i) {
            Ok(()) => {},
            Err(e) => {
                proof {
                    lemma_container_stuck(items@, (i + 1) as nat, items@.len());
                }
                return Err(e);
            },
        }
        i += 1;
    }
    Ok(out)
}

/// What the attributes of a field say.
#[derive(Debug)]
pub struct FieldAttrs {
    /// The name on the wire.
    pub rename: Option<String>,
    /// Other names that it is read from.
    pub aliases: Vec<String>,
    /// Whether it stays off the wire.
    pub skip: bool,
    /// The number of the item that routes the field through serde, if one does.
    pub fallback: Option<usize>,
}

/// The view of [`FieldAttrs`].
#[verifier::ext_equal]
pub struct FieldFacts {
    pub rename: Option<Seq<char>>,
    pub aliases: Seq<Seq<char>>,
    pub skip: bool,
    pub fallback: Option<nat>,
}

impl View for FieldAttrs {
    type V = FieldFacts;

    open spec fn view(&self) -> FieldFacts {
        FieldFacts {
            rename: text_of(self.rename),
            aliases: texts_of(self.aliases@),
            skip: self.skip,
            fallback: match self.fallback {
                Some(at) => Some(at as nat),
                None => None,
            },
        }
    }
}

/// A field without attributes.
pub open spec fn plain_field() -> FieldFacts {
    FieldFacts { rename: None, aliases: seq![], skip: false, fallback: None }
}

/// What one more item adds to what is known of a field.
pub open spec fn field_step(f: FieldFacts, item: Item, at: nat) -> Result<FieldFacts, Complaint> {
    let name = item.name@;
    if item.space == Space::Carbonite {
        if name == "serde"@ {
            Ok(FieldFacts { fallback: Some(at), ..f })
        } else {
            Err(
                Complaint {
                    at,
                    message:
                        "unrecognized carbonite field attribute; the only one is `serde`, which routes this field through the serde path"@,
                },
            )
        }
    } else if item.space != Space::Serde {
        Ok(f)
    } else if name == "rename"@ {
        match str_value(item) {
            Ok(s) => Ok(FieldFacts { rename: Some(s), ..f }),
            Err(message) => Err(Complaint { at, message }),
        }
    } else if name == "alias"@ {
        match item.form {
            Form::Text(s) => Ok(FieldFacts { aliases: f.aliases.push(s@), ..f }),
            _ => Ok(f),
        }
    } else if name == "skip"@ {
        Ok(FieldFacts { skip: true, ..f })
    } else if name == "skip_serializing"@ || name == "skip_deserializing"@ {
        Err(
            Complaint {
                at,
                message:
                    "carbonite requires symmetric fields; use serde(skip) to omit a field from both directions"@,
            },
        )
    } else if name == "skip_serializing_if"@ {
        Err(
            Complaint {
                at,
                message:
                    "carbonite rejects skip_serializing_if: columnar rows must be complete"@,
            },
        )
    } else if name == "flatten"@ {
        Err(
            Complaint {
                at,
                message:
                    "carbonite cannot represent serde(flatten); it requires a self-describing format"@,
            },
        )
    } else if name == "with"@ || name == "serialize_with"@ || name == "deserialize_with"@ {
        Err(
            Complaint {
                at,
                message:
                    "carbonite cannot statically determine the schema of a field using serde(with); use runtime tracing (Schema::new) instead"@,
            },
        )
    } else {
        Ok(f)
    }
}

/// What the first `n` items say of a field.
pub open spec fn field_items(items: Seq<Item>, n: nat) -> Result<FieldFacts, Complaint>
    decreases n,
{
    if n == 0 {
        Ok(plain_field())
    } else {
        match field_items(items, (n - 1) as nat) {
            Ok(f) => field_step(f, items[n - 1], (n - 1) as nat),
            Err(e) => Err(e),
        }
    }
}

/// What the attributes of a field say: the first item that is refused decides,
/// and a field that is skipped has nothing to route.
pub open spec fn field_facts(items: Seq<Item>) -> Result<FieldFacts, Complaint> {
    match field_items(items, items.len()) {
        Ok(f) => match f.fallback {
            Some(at) => if f.skip {
                Err(
                    Complaint {
                        at,
                        message:
                            "this field is `serde(skip)`, so it has no columns and nothing for carbonite(serde) to route"@,
                    },
                )
            } else {
                Ok(f)
            },
            None => Ok(f),
        },
        Err(e) => Err(e),
    }
}

proof fn lemma_field_stuck(items: Seq<Item>, i: nat, n: nat)
    requires
        i <= n,
        field_items(items, i) is Err,
    ensures
        field_items(items, n) == field_items(items, i),
    decreases n,
{
    if i < n {
        lemma_field_stuck(items, i, (n - 1) as nat);
    }
}

fn field_item(out: &mut FieldAttrs, item: &Item, at: usize) -> (result: Result<(), Rejection>)
    ensures
        match result {
            Ok(()) => field_step(old(out)@, *item, at as nat) == Ok::<_, Complaint>(final(out)@),
            Err(e) => field_step(old(out)@, *item, at as nat) == Err::<FieldFacts, _>(e@),
        },
{
    let name = item.name.as_str();
    if item.space == Space::Carbonite {
        if text::same(name, "serde") {
            out.fallback = Some(at);
            return Ok(());
        }
        return reject(
            at,
            "unrecognized carbonite field attribute; the only one is `serde`, which routes this field through the serde path",
        );
    }
    if item.space != Space::Serde {
        return Ok(());
    }
    if text::same(name, "rename") {
        out.rename = Some(expect_str_value(item, at)?);
    } else if text::same(name, "alias") {
        match &item.form {
            Form::Text(s) => {
                let ghost before = out@;
                out.aliases.push(s.clone());
                assert(out@.aliases =~= before.aliases.push(s@));
            },
            _ => {},
        }
    } else if text::same(name, "skip") {
        out.skip = true;
    } else if text::same(name, "skip_serializing") || text::same(name, "skip_deserializing") {
        return reject(
            at,
            "carbonite requires symmetric fields; use serde(skip) to omit a field from both directions",
        );
    } else if text::same(name, "skip_serializing_if") {
        return reject(
            at,
            "carbonite rejects skip_serializing_if: columnar rows must be complete",
        );
    } else if text::same(name, "flatten") {
        return reject(
            at,
            "carbonite cannot represent serde(flatten); it requires a self-describing format",
        );
    } else if text::same(name, "with") || text::same(name, "serialize_with") || text::same(
        name,
        "deserialize_with",
    ) {
        return reject(
            at,
            "carbonite cannot statically determine the schema of a field using serde(with); use runtime tracing (Schema::new) instead",
        );
    }
    Ok(())
}

/// Reads the attributes of a field.
pub fn parse_field_attrs(items: &[Item]) -> (result: Result<FieldAttrs, Rejection>)
    ensures
        match result {
            Ok(f) => field_facts(items@) == Ok::<_, Complaint>(f@),
            Err(e) => field_facts(items@) == Err::<FieldFacts, _>(e@),
        },
{
    let mut out = FieldAttrs { rename: None, aliases: Vec::new(), skip: false, fallback: None };
    assert(out@ =~= plain_field());
    let mut i: usize = 0;
    while i < items.len()
        invariant
            i <= items@.len(),
            field_items(items@, i as nat) == Ok::<_, Complaint>(out@),
        decreases items@.len() - i,
    {
        match field_item(&mut out, &items[i], i) {
            Ok(()) => {},
            Err(e) => {
                proof {
                    lemma_field_stuck(items@, (i + 1) as nat, items@.len());
                }
                return Err(e);
            },
        }
        i += 1;
    }
    match out.fallback {
        Some(at) => if out.skip {
            return reject(
                at,
                "this field is `serde(skip)`, so it has no columns and nothing for carbonite(serde) to route",
            );
        },
        None => {},
    }
    Ok(out)
}

/// What the serde attributes of a variant say.
#[derive(Debug)]
pub struct VariantAttrs {
    /// The name on the wire.
    pub rename: Option<String>,
    /// The rule for the names of its fields.
    pub rename_all: Option<RenameRule>,
    /// Other names that it is read from.
    pub aliases: Vec<String>,
    /// Whether it stays off the wire.
    pub skip: bool,
}

/// The view of [`VariantAttrs`].
#[verifier::ext_equal]
pub struct VariantFacts {
    pub rename: Option<Seq<char>>,
    pub rename_all: Option<RenameRule>,
    pub aliases: Seq<Seq<char>>,
    pub skip: bool,
}

impl View for VariantAttrs {
    type V = VariantFacts;

    open spec fn view(&self) -> VariantFacts {
        VariantFacts {
            rename: text_of(self.rename),
            rename_all: self.rename_all,
            aliases: texts_of(self.aliases@),
            skip: self.skip,
        }
    }
}

/// A variant without attributes.
pub open spec fn plain_variant() -> VariantFacts {
    VariantFacts { rename: None, rename_all: None, aliases: seq![], skip: false }
}

/// What one more item adds to what is known of a variant.
pub open spec fn variant_step(v: VariantFacts, item: Item, at: nat) -> Result<
    VariantFacts,
    Complaint,
> {
    let name = item.name@;
    if item.space != Space::Serde {
        Ok(v)
    } else if name == "rename"@ {
        match str_value(item) {
            Ok(s) => Ok(VariantFacts { rename: Some(s), ..v }),
            Err(message) => Err(Complaint { at, message }),
        }
    } else if name == "rename_all"@ {
        match rule_value(item) {
            Ok(rule) => Ok(VariantFacts { rename_all: Some(rule), ..v }),
            Err(message) => Err(Complaint { at, message }),
        }
    } else if name == "alias"@ {
        match item.form {
            Form::Text(s) => Ok(VariantFacts { aliases: v.aliases.push(s@), ..v }),
            _ => Ok(v),
        }
    } else if name == "skip"@ {
        Ok(VariantFacts { skip: true, ..v })
    } else if name == "skip_serializing"@ || name == "skip_deserializing"@ {
        Err(
            Complaint {
                at,
                message:
                    "carbonite requires symmetric variants; use serde(skip) to omit a variant from both directions"@,
            },
        )
    } else if name == "untagged"@ {
        Err(Complaint { at, message: "carbonite cannot represent untagged variants"@ })
    } else if name == "with"@ || name == "serialize_with"@ || name == "deserialize_with"@ {
        Err(
            Complaint {
                at,
                message:
                    "carbonite cannot statically determine the schema of a variant using serde(with); use runtime tracing (Schema::new) instead"@,
            },
        )
    } else {
        Ok(v)
    }
}

/// What the first `n` items say of a variant.
pub open spec fn variant_facts(items: Seq<Item>, n: nat) -> Result<VariantFacts, Complaint>
    decreases n,
{
    if n == 0 {
        Ok(plain_variant())
    } else {
        match variant_facts(items, (n - 1) as nat) {
            Ok(v) => variant_step(v, items[n - 1], (n - 1) as nat),
            Err(e) => Err(e),
        }
    }
}

proof fn lemma_variant_stuck(items: Seq<Item>, i: nat, n: nat)
    requires
        i <= n,
        variant_facts(items, i) is Err,
    ensures
        variant_facts(items, n) == variant_facts(items, i),
    decreases n,
{
    if i < n {
        lemma_variant_stuck(items, i, (n - 1) as nat);
    }
}

fn variant_item(out: &mut VariantAttrs, item: &Item, at: usize) -> (result: Result<(), Rejection>)
    ensures
        match result {
            Ok(()) => variant_step(old(out)@, *item, at as nat) == Ok::<_, Complaint>(final(out)@),
            Err(e) => variant_step(old(out)@, *item, at as nat) == Err::<VariantFacts, _>(e@),
        },
{
    if item.space != Space::Serde {
        return Ok(());
    }
    let name = item.name.as_str();
    if text::same(name, "rename") {
        out.rename = Some(expect_str_value(item, at)?);
    } else if text::same(name, "rename_all") {
        out.rename_all = Some(parse_rename_rule(item, at)?);
    } else if text::same(name, "alias") {
        match &item.form {
            Form::Text(s) => {
                let ghost before = out@;
                out.aliases.push(s.clone());
                assert(out@.aliases =~= before.aliases.push(s@));
            },
            _ => {},
        }
    } else if text::same(name, "skip") {
        out.skip = true;
    } else if text::same(name, "skip_serializing") || text::same(name, "skip_deserializing") {
        return reject(
            at,
            "carbonite requires symmetric variants; use serde(skip) to omit a variant from both directions",
        );
    } else if text::same(name, "untagged") {
        return reject(at, "carbonite cannot represent untagged variants");
    } else if text::same(name, "with") || text::same(name, "serialize_with") || text::same(
        name,
        "deserialize_with",
    ) {
        return reject(
            at,
            "carbonite cannot statically determine the schema of a variant using serde(with); use runtime tracing (Schema::new) instead",
        );
    }
    Ok(())
}

/// Reads the serde attributes of a variant.
pub fn parse_variant_attrs(items: &[Item]) -> (result: Result<VariantAttrs, Rejection>)
    ensures
        match result {
            Ok(v) => variant_facts(items@, items@.len()) == Ok::<_, Complaint>(v@),
            Err(e) => variant_facts(items@, items@.len()) == Err::<VariantFacts, _>(e@),
        },
{
    let mut out = VariantAttrs { rename: None, rename_all: None, aliases: Vec::new(), skip: false };
    assert(out@ =~= plain_variant());
    let mut i: usize = 0;
    while i < items.len()
        invariant
            i <= items@.len(),
            variant_facts(items@, i as nat) == Ok::<_, Complaint>(out@),
        decreases items@.len() - i,
    {
        match variant_item(&mut out, &items[i], i) {
            Ok(()) => {},
            Err(e) => {
                proof {
                    lemma_variant_stuck(items@, (i + 1) as nat, items@.len());
                }
                return Err(e);
            },
        }
        i += 1;
    }
    Ok(out)
}

} // verus!
