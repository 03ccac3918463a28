//! What a declaration comes to on the wire, field by field and variant by
//! variant, and exactly when nothing is generated for it.

use vstd::prelude::*;

use crate::derive::as_repr::{routed, routed_field, routed_variant, ReprFault};
use crate::derive::attrs::{ContainerFacts, FieldFacts, VariantFacts};
use crate::derive::columnar::{
    any_serde, any_variant_serde, fields_before, paired, skipped_variants, source_of, sources, Source,
};
use crate::derive::expand::{container_wire, refusal, RefusalFault};
use crate::derive::model::{
    asserted, field_wire, is_asserted, leads_to, lemma_live, lemma_live_places,
    lemma_live_variants, lemma_mentioned, live, live_variants, mentioned, places, reaches, role,
    rule_or, uses, variant_wire, Body, Field, Style, Variant,
};
use crate::derive::removed::Retired;
use crate::derive::rename::RenameRule;
use crate::derive::retirement::{lemma_enum, lemma_fields, payload_reuses, reuses, tag_fault};
use crate::derive::schema::{form_of, struct_form, struct_shape, variant_shape, Form};
use crate::shape::{is_variant, Shape};

verus! {

/// Whether field `f` reaches the wire.
pub open spec fn on_wire(fields: Seq<Field>, f: nat) -> bool {
    f < fields.len() && !fields[f as int].attrs.skip
}

/// Whether exactly one field reaches the wire.
pub open spec fn lone(fields: Seq<Field>) -> bool {
    exists|f: nat| #[trigger]
        on_wire(fields, f) && forall|g: nat| #[trigger] on_wire(fields, g) ==> g == f
}

proof fn lemma_lone(fields: Seq<Field>)
    requires
        fields.len() <= usize::MAX,
    ensures
        live(fields, fields.len()).len() == 1 <==> lone(fields),
{
    let all = live(fields, fields.len());
    lemma_live(fields, fields.len());
    if all.len() == 1 {
        let f = all[0] as nat;
        assert(on_wire(fields, f));
        assert forall|g: nat| #[trigger] on_wire(fields, g) implies g == f by {
            assert(!fields[g as int].attrs.skip);
            assert(all.contains(g as usize));
        }
    }
    if lone(fields) {
        let f = choose|f: nat| #[trigger]
            on_wire(fields, f) && forall|g: nat| #[trigger] on_wire(fields, g) ==> g == f;
        assert(!fields[f as int].attrs.skip);
        assert(all.contains(f as usize));
        if all.len() > 1 {
            assert(on_wire(fields, all[0] as nat));
            assert(on_wire(fields, all[1] as nat));
            assert(all[0] < all[1]);
        }
    }
}

/// The form says how the fields are written. Fields in braces keep their names,
/// each behind those of the fields before it that reach the wire; one alone in
/// parentheses is a wrapper, though not if others were left out beside it.
pub proof fn lemma_form(style: Style, fields: Seq<Field>, rule: Option<RenameRule>)
    requires
        fields.len() <= usize::MAX,
    ensures
        form_of(style, fields, rule) is Unit <==> style == Style::Unit,
        form_of(style, fields, rule) is Newtype <==> style == Style::Unnamed && fields.len() == 1
            && on_wire(fields, 0),
        form_of(style, fields, rule) is Tuple <==> style == Style::Unnamed && !(fields.len() == 1
            && on_wire(fields, 0)),
        form_of(style, fields, rule) is Named <==> style == Style::Named,
        form_of(style, fields, rule) matches Form::Named(names) ==> {
            &&& names.len() == places(fields, fields.len())
            &&& forall|f: nat| #[trigger]
                on_wire(fields, f) ==> places(fields, f) < names.len() && names[places(
                    fields,
                    f,
                ) as int] == field_wire(fields[f as int].ident@, fields[f as int].attrs@, rule)
        },
{
    lemma_live(fields, fields.len());
    lemma_live_places(fields, fields.len());
    if fields.len() == 1 {
        assert(live(fields, 0) =~= seq![]);
        assert(live(fields, 1).len() == 1 <==> !fields[0].attrs.skip);
    }
    assert forall|f: nat| #[trigger] on_wire(fields, f) implies places(fields, f) < live(
        fields,
        fields.len(),
    ).len() && live(fields, fields.len())[places(fields, f) as int] == f by {
        assert(places(fields, f) < live(fields, fields.len()).len());
    }
}

/// A struct is represented as its only field if it asks to be and exactly one
/// field reaches the wire; if it asks and has another number, it has no form.
pub proof fn lemma_transparent(
    style: Style,
    fields: Seq<Field>,
    transparent: bool,
    rule: Option<RenameRule>,
)
    requires
        fields.len() <= usize::MAX,
    ensures
        struct_form(style, fields, transparent, rule) is None <==> transparent && !lone(fields),
        struct_form(style, fields, transparent, rule) == Some(Form::Through) <==> transparent
            && lone(fields),
        !transparent ==> struct_form(style, fields, transparent, rule) == Some(
            form_of(style, fields, rule),
        ),
{
    lemma_lone(fields);
}

/// The name that `rename` gives is the name on the wire, whatever the
/// identifier and the rule are.
pub proof fn lemma_renamed(
    ident: Seq<char>,
    field: FieldFacts,
    variant: VariantFacts,
    rule: Option<RenameRule>,
)
    ensures
        field.rename matches Some(name) ==> field_wire(ident, field, rule) == name,
        variant.rename matches Some(name) ==> variant_wire(ident, variant, rule) == name,
{
}

/// The marker of a raw identifier never reaches the wire, and nothing else of
/// an identifier is dropped without a rule.
pub proof fn lemma_raw(
    ident: Seq<char>,
    field: FieldFacts,
    variant: VariantFacts,
    rule: Option<RenameRule>,
)
    requires
        !(ident.len() >= 2 && ident[0] == 'r' && ident[1] == '#'),
    ensures
        field_wire(seq!['r', '#'] + ident, field, rule) == field_wire(ident, field, rule),
        variant_wire(seq!['r', '#'] + ident, variant, rule) == variant_wire(ident, variant, rule),
        field.rename is None && rule is None ==> field_wire(ident, field, rule) == ident,
        variant.rename is None && rule is None ==> variant_wire(ident, variant, rule) == ident,
{
    let raw = seq!['r', '#'] + ident;
    assert(raw.subrange(2, raw.len() as int) =~= ident);
}

/// Whether a variant of an enum reaches the wire.
pub open spec fn kept(variants: Seq<Variant>, v: nat) -> bool {
    v < variants.len() && !variants[v as int].attrs.skip
}

/// Every variant either has a tag or is listed as one that cannot be written,
/// and none is both.
pub proof fn lemma_variants_split(variants: Seq<Variant>, n: nat)
    requires
        n <= variants.len() <= usize::MAX,
    ensures
        live_variants(variants, n).len() + skipped_variants(variants, n).len() == n,
        forall|v: usize| #[trigger]
            live_variants(variants, n).contains(v) <==> v < n && !variants[v as int].attrs.skip,
        forall|v: usize| #[trigger]
            skipped_variants(variants, n).contains(v) <==> v < n && variants[v as int].attrs.skip,
        forall|i: int, j: int|
            0 <= i < j < skipped_variants(variants, n).len() ==> skipped_variants(variants, n)[i]
                < skipped_variants(variants, n)[j],
    decreases n,
{
    lemma_live_variants(variants, n);
    if n > 0 {
        let m = (n - 1) as nat;
        lemma_variants_split(variants, m);
        let before = skipped_variants(variants, m);
        let all = skipped_variants(variants, n);
        assert forall|v: usize| v < n && variants[v as int].attrs.skip implies #[trigger]
            all.contains(v) by {
            if v < m {
                assert(before.contains(v));
                let i = choose|i: int| 0 <= i < before.len() && before[i] == v;
                assert(all[i] == v);
            } else {
                assert(all[before.len() as int] == v);
            }
        }
        assert forall|v: usize| #[trigger] all.contains(v) implies v < n
            && variants[v as int].attrs.skip by {
            let i = choose|i: int| 0 <= i < all.len() && all[i] == v;
            if i < before.len() {
                assert(before[i] == v);
                assert(before.contains(v));
            }
        }
        assert forall|i: int, j: int| 0 <= i < j < all.len() implies all[i] < all[j] by {
            assert(before.contains(all[i]));
            if j < before.len() {
                assert(before[i] < before[j]);
            }
        }
    }
}

/// The columns of a variant start behind those of the fields that reach the
/// wire in the variants before it, and of no others.
pub proof fn lemma_preceding(variants: Seq<Variant>, list: Seq<usize>, k: nat)
    requires
        k <= list.len(),
        forall|i: int| 0 <= i < list.len() ==> #[trigger] list[i] < variants.len(),
        forall|v: int|
            0 <= v < variants.len() ==> (#[trigger] variants[v]).fields@.len() <= usize::MAX,
    ensures
        forall|v: usize, f: usize| #[trigger]
            fields_before(variants, list, k).contains((v, f)) <==> list.take(k as int).contains(v)
                && on_wire(variants[v as int].fields@, f as nat),
    decreases k,
{
    if k > 0 {
        let m = (k - 1) as nat;
        lemma_preceding(variants, list, m);
        let last = list[m as int];
        let fields = variants[last as int].fields@;
        let own = live(fields, fields.len());
        lemma_live(fields, fields.len());
        let before = fields_before(variants, list, m);
        let all = fields_before(variants, list, k);
        assert(all == before + paired(last, own));
        assert forall|v: usize, f: usize| #[trigger] all.contains((v, f)) implies list.take(
            k as int,
        ).contains(v) && on_wire(variants[v as int].fields@, f as nat) by {
            let i = choose|i: int| 0 <= i < all.len() && all[i] == (v, f);
            if i < before.len() {
                assert(before[i] == (v, f));
                assert(before.contains((v, f)));
                let j = choose|j: int|
                    0 <= j < list.take(m as int).len() && list.take(m as int)[j] == v;
                assert(list.take(k as int)[j] == v);
            } else {
                assert(paired(last, own)[i - before.len()] == (v, f));
                assert(list.take(k as int)[m as int] == v);
            }
        }
        assert forall|v: usize, f: usize|
            list.take(k as int).contains(v) && on_wire(
                variants[v as int].fields@,
                f as nat,
            ) implies #[trigger] all.contains((v, f)) by {
            let j = choose|j: int|
                0 <= j < list.take(k as int).len() && list.take(k as int)[j] == v;
            if j < m {
                assert(list.take(m as int)[j] == v);
                assert(before.contains((v, f)));
                let i = choose|i: int| 0 <= i < before.len() && before[i] == (v, f);
                assert(all[i] == (v, f));
            } else {
                assert(v == last);
                assert(!fields[f as int].attrs.skip);
                assert(own.contains(f));
                let i = choose|i: int| 0 <= i < own.len() && own[i] == f;
                assert(paired(last, own)[i] == (v, f));
                assert(all[before.len() + i] == (v, f));
            }
        }
    }
}

/// Whether field `f` reaches the wire through serde.
pub open spec fn by_serde(fields: Seq<Field>, f: nat) -> bool {
    on_wire(fields, f) && fields[f as int].attrs.fallback is Some
}

/// Whether a field of a type, in variant `v` if it is an enum, reaches the wire
/// through serde.
pub open spec fn body_by_serde(body: Body, v: nat, f: nat) -> bool {
    match body {
        Body::Struct(_, fields) => v == 0 && by_serde(fields@, f),
        Body::Enum(variants) => kept(variants@, v) && by_serde(variants@[v as int].fields@, f),
    }
}

proof fn lemma_routed_field(fields: Seq<Field>, i: nat)
    ensures
        match routed_field(fields, i) {
            Some(f) => i <= f && by_serde(fields, f),
            None => forall|f: nat| i <= f ==> !#[trigger] by_serde(fields, f),
        },
    decreases fields.len() - i,
{
    if i < fields.len() {
        lemma_routed_field(fields, i + 1);
    }
}

proof fn lemma_routed_variant(variants: Seq<Variant>, i: nat)
    ensures
        match routed_variant(variants, i) {
            Some((v, f)) => i <= v && kept(variants, v) && by_serde(variants[v as int].fields@, f),
            None => forall|v: nat, f: nat|
                i <= v && kept(variants, v) ==> !#[trigger] by_serde(variants[v as int].fields@, f),
        },
    decreases variants.len() - i,
{
    if i < variants.len() {
        lemma_routed_variant(variants, i + 1);
        lemma_routed_field(variants[i as int].fields@, 0);
    }
}

/// A type can be represented as another exactly if it does not also ask to be
/// represented as its only field, none of its fields asks for a way to the wire
/// of its own, and it is converted in both directions or in neither.
pub proof fn lemma_represented(container: ContainerFacts, retired: Seq<Retired>, body: Body)
    ensures
        refusal(container, true, retired, body) is None <==> {
            &&& !container.transparent
            &&& forall|v: nat, f: nat| !#[trigger] body_by_serde(body, v, f)
            &&& container.de_repr is Some <==> container.ser_repr is Some
        },
        refusal(container, true, retired, body) matches Some(fault) ==> {
            &&& fault is Repr
            &&& fault matches RefusalFault::Repr(ReprFault::Routed(v, f, _)) ==> body_by_serde(
                body,
                v,
                f,
            )
            &&& fault matches RefusalFault::Repr(ReprFault::Conversion(at, _)) ==> {
                ||| container.de_repr matches Some(de) && at == de.at
                ||| container.ser_repr matches Some(ser) && at == ser.at
            }
        },
{
    match body {
        Body::Struct(_, fields) => {
            lemma_routed_field(fields@, 0);
        },
        Body::Enum(variants) => {
            lemma_routed_variant(variants@, 0);
        },
    }
    match routed(body) {
        Some((v, f)) => {
            assert(body_by_serde(body, v, f));
        },
        None => {
            assert forall|v: nat, f: nat| !#[trigger] body_by_serde(body, v, f) by {
                match body {
                    Body::Struct(_, fields) => {
                        assert(!by_serde(fields@, f));
                    },
                    Body::Enum(variants) => {
                        if kept(variants@, v) {
                            assert(!by_serde(variants@[v as int].fields@, f));
                        }
                    },
                }
            }
        },
    }
}

/// Code is generated for a struct exactly if it names no conversion, reuses no
/// retired slot and, where it asks to be represented as its only field, has
/// exactly one.
pub proof fn lemma_struct_accepted(
    container: ContainerFacts,
    retired: Seq<Retired>,
    style: Style,
    fields: Vec<Field>,
)
    requires
        fields@.len() <= usize::MAX,
    ensures
        refusal(container, false, retired, Body::Struct(style, fields)) is None <==> {
            &&& container.de_repr is None
            &&& container.ser_repr is None
            &&& forall|s: int, f: nat|
                0 <= s < retired.len() ==> !#[trigger] reuses(
                    retired[s]@,
                    style,
                    fields@,
                    container.rename_all,
                    f,
                )
            &&& container.transparent ==> lone(fields@)
        },
{
    lemma_fields(retired, style, fields@, container.rename_all, 0);
    lemma_transparent(style, fields@, container.transparent, container.rename_all);
}

/// Code is generated for an enum exactly if it names no conversion and neither
/// it nor a variant that reaches the wire reuses what it has retired.
pub proof fn lemma_enum_accepted(
    container: ContainerFacts,
    retired: Seq<Retired>,
    variants: Vec<Variant>,
)
    requires
        variants@.len() <= usize::MAX,
        forall|v: int|
            0 <= v < variants@.len() ==> (#[trigger] variants@[v]).fields@.len() <= usize::MAX,
    ensures
        refusal(container, false, retired, Body::Enum(variants)) is None <==> {
            &&& container.de_repr is None
            &&& container.ser_repr is None
            &&& forall|s: int|
                0 <= s < retired.len() ==> !#[trigger] tag_fault(
                    retired[s]@,
                    variants@,
                    container.rename_all,
                )
            &&& forall|v: nat, s: int, f: nat|
                !#[trigger] payload_reuses(variants@, container.rename_all_fields, v, s, f)
        },
{
    lemma_enum(retired, variants@, container.rename_all, container.rename_all_fields);
}

/// A conversion that no declared type goes with is blamed where it is named,
/// the earlier one where there are two.
pub proof fn lemma_undeclared(container: ContainerFacts, retired: Seq<Retired>, body: Body)
    requires
        container.de_repr is Some || container.ser_repr is Some,
    ensures
        refusal(container, false, retired, body) matches Some(RefusalFault::Item(at, _)) && {
            &&& container.de_repr matches Some(de) ==> at <= de.at
            &&& container.ser_repr matches Some(ser) ==> at <= ser.at
            &&& {
                ||| container.de_repr matches Some(de) && at == de.at
                ||| container.ser_repr matches Some(ser) && at == ser.at
            }
        },
{
}

/// Each field gets its value from where it is on the wire: from its columns, or
/// from its columns through serde, and by default exactly where it has none.
pub proof fn lemma_sources(fields: Seq<Field>, f: nat)
    requires
        f < fields.len() <= usize::MAX,
    ensures
        sources(fields).len() == fields.len(),
        sources(fields)[f as int] is Default <==> !live(fields, fields.len()).contains(f as usize),
        sources(fields)[f as int] is Serde <==> by_serde(fields, f),
        any_serde(fields) <==> exists|g: nat| #[trigger] by_serde(fields, g),
{
    let all = live(fields, fields.len());
    lemma_live(fields, fields.len());
    if all.contains(f as usize) {
        let i = choose|i: int| 0 <= i < all.len() && all[i] == f as usize;
        assert(!fields[all[i] as int].attrs.skip);
    }
    if any_serde(fields) {
        let i = choose|i: int|
            0 <= i < fields.len() && source_of(#[trigger] fields[i]) == Source::Serde;
        assert(by_serde(fields, i as nat));
    }
    if exists|g: nat| #[trigger] by_serde(fields, g) {
        let g = choose|g: nat| #[trigger] by_serde(fields, g);
        assert(source_of(fields[g as int]) == Source::Serde);
    }
}

/// Whether a field that reaches the wire this way holds the identifier somewhere
/// in its type.
pub open spec fn held_by(
    fields: Seq<Field>,
    f: nat,
    routed: bool,
    param: Seq<char>,
    way: Seq<nat>,
) -> bool {
    &&& on_wire(fields, f)
    &&& by_serde(fields, f) == routed
    &&& leads_to(fields[f as int].ty@, way, param)
}

/// The same of a field of a type, in variant `v` if it is an enum.
pub open spec fn body_held_by(
    body: Body,
    v: nat,
    f: nat,
    routed: bool,
    param: Seq<char>,
    way: Seq<nat>,
) -> bool {
    match body {
        Body::Struct(_, fields) => v == 0 && held_by(fields@, f, routed, param, way),
        Body::Enum(variants) => kept(variants@, v) && held_by(
            variants@[v as int].fields@,
            f,
            routed,
            param,
            way,
        ),
    }
}

proof fn lemma_reaches(fields: Seq<Field>, routed: bool, param: Seq<char>)
    ensures
        reaches(fields, routed, param) <==> exists|f: nat, way: Seq<nat>| #[trigger]
            held_by(fields, f, routed, param, way),
{
    if reaches(fields, routed, param) {
        let i = choose|i: int| 0 <= i < fields.len() && #[trigger] uses(fields[i], routed, param);
        lemma_mentioned(fields[i].ty@, param);
        let way = choose|way: Seq<nat>| #[trigger] leads_to(fields[i].ty@, way, param);
        assert(held_by(fields, i as nat, routed, param, way));
    }
    assert forall|f: nat, way: Seq<nat>| #[trigger]
        held_by(fields, f, routed, param, way) implies reaches(fields, routed, param) by {
        lemma_mentioned(fields[f as int].ty@, param);
        assert(uses(fields[f as int], routed, param));
    }
}

proof fn lemma_body_reaches(body: Body, routed: bool, param: Seq<char>)
    ensures
        body.reaches(routed, param) <==> exists|v: nat, f: nat, way: Seq<nat>| #[trigger]
            body_held_by(body, v, f, routed, param, way),
{
    match body {
        Body::Struct(_, fields) => {
            lemma_reaches(fields@, routed, param);
            if body.reaches(routed, param) {
                let (f, way) = choose|f: nat, way: Seq<nat>| #[trigger]
                    held_by(fields@, f, routed, param, way);
                assert(body_held_by(body, 0, f, routed, param, way));
            }
            assert forall|v: nat, f: nat, way: Seq<nat>| #[trigger]
                body_held_by(body, v, f, routed, param, way) implies body.reaches(routed, param) by {
                assert(held_by(fields@, f, routed, param, way));
            }
        },
        Body::Enum(variants) => {
            if body.reaches(routed, param) {
                let v = choose|v: int|
                    0 <= v < variants@.len() && !(#[trigger] variants@[v]).attrs.skip && reaches(
                        variants@[v].fields@,
                        routed,
                        param,
                    );
                lemma_reaches(variants@[v].fields@, routed, param);
                let (f, way) = choose|f: nat, way: Seq<nat>| #[trigger]
                    held_by(variants@[v].fields@, f, routed, param, way);
                assert(body_held_by(body, v as nat, f, routed, param, way));
            }
            assert forall|v: nat, f: nat, way: Seq<nat>| #[trigger]
                body_held_by(body, v, f, routed, param, way) implies body.reaches(routed, param) by {
                lemma_reaches(variants@[v as int].fields@, routed, param);
                assert(held_by(variants@[v as int].fields@, f, routed, param, way));
                assert(!variants@[v as int].attrs.skip);
            }
        },
    }
}

/// A parameter is asked to go through serde exactly if a field that does holds
/// it, and goes without the impl's own trait exactly if only such fields do. One
/// that no field holds keeps the trait.
pub proof fn lemma_role(body: Body, param: Seq<char>)
    ensures
        ({
            let asked = role(body.reaches(true, param), body.reaches(false, param));
            let through = exists|v: nat, f: nat, way: Seq<nat>| #[trigger]
                body_held_by(body, v, f, true, param, way);
            let directly = exists|v: nat, f: nat, way: Seq<nat>| #[trigger]
                body_held_by(body, v, f, false, param, way);
            &&& asked.fallback <==> through
            &&& !asked.primary <==> through && !directly
        }),
{
    lemma_body_reaches(body, true, param);
    lemma_body_reaches(body, false, param);
}

/// What a routed field must provide is restated for exactly those that hold no
/// parameter, each once and in order.
pub proof fn lemma_asserted(fields: Seq<Field>, params: Seq<String>, n: nat)
    requires
        n <= fields.len() <= usize::MAX,
    ensures
        forall|f: usize| #[trigger]
            asserted(fields, params, n).contains(f) <==> f < n && by_serde(fields, f as nat)
                && forall|p: int, way: Seq<nat>|
                0 <= p < params.len() ==> !#[trigger] leads_to(
                    fields[f as int].ty@,
                    way,
                    params[p]@,
                ),
        forall|i: int, j: int|
            0 <= i < j < asserted(fields, params, n).len() ==> asserted(fields, params, n)[i]
                < asserted(fields, params, n)[j],
    decreases n,
{
    if n > 0 {
        let m = (n - 1) as nat;
        lemma_asserted(fields, params, m);
        let before = asserted(fields, params, m);
        let all = asserted(fields, params, n);
        let last = fields[m as int];
        let free = forall|p: int, way: Seq<nat>|
            0 <= p < params.len() ==> !#[trigger] leads_to(last.ty@, way, params[p]@);
        assert(is_asserted(last, params) <==> by_serde(fields, m) && free) by {
            assert forall|p: int| 0 <= p < params.len() implies (mentioned(
                last.ty@,
                (#[trigger] params[p])@,
            ) <==> exists|way: Seq<nat>| #[trigger] leads_to(last.ty@, way, params[p]@)) by {
                lemma_mentioned(last.ty@, params[p]@);
            }
            if free {
                assert forall|p: int| 0 <= p < params.len() implies !mentioned(
                    last.ty@,
                    (#[trigger] params[p])@,
                ) by {
                    lemma_mentioned(last.ty@, params[p]@);
                }
            }
        }
        assert forall|f: usize| #[trigger] all.contains(f) <==> (before.contains(f) || (f == m
            && is_asserted(last, params))) by {
            if before.contains(f) {
                let i = choose|i: int| 0 <= i < before.len() && before[i] == f;
                assert(all[i] == f);
            }
            if f == m && is_asserted(last, params) {
                assert(all[before.len() as int] == f);
            }
            if all.contains(f) {
                let i = choose|i: int| 0 <= i < all.len() && all[i] == f;
                if i < before.len() {
                    assert(before[i] == f);
                }
            }
        }
        assert forall|i: int, j: int| 0 <= i < j < all.len() implies all[i] < all[j] by {
            assert(before.contains(before[i]));
            if j < before.len() {
                assert(before[i] < before[j]);
            }
        }
    }
}

/// The schemas of the fields that reach the wire are schemas of values.
pub open spec fn are_values(kids: Seq<Shape>) -> bool {
    forall|i: int|
        0 <= i < kids.len() ==> (#[trigger] kids[i]).well_formed() && !is_variant(kids[i].kind)
}

/// The schema of a derived struct is a schema of a value. It is its only field's
/// where it asks to be; else it has its own name, the schemas of the fields that
/// reach the wire in order, under their wire names if they have names, and is of
/// the kind that says how the fields are written.
pub proof fn lemma_derived_struct(
    style: Style,
    fields: Seq<Field>,
    transparent: bool,
    rule: Option<RenameRule>,
    name: Seq<char>,
    kids: Seq<Shape>,
)
    requires
        fields.len() <= usize::MAX,
        style == Style::Unit ==> fields.len() == 0,
        kids.len() == places(fields, fields.len()),
        are_values(kids),
        struct_form(style, fields, transparent, rule) is Some,
    ensures
        ({
            let form = struct_form(style, fields, transparent, rule)->0;
            let s = struct_shape(form, name, kids);
            &&& s.well_formed()
            &&& !is_variant(s.kind)
            &&& transparent ==> kids.len() == 1 && s == kids[0]
            &&& !transparent ==> {
                &&& s.name == name
                &&& s.kids == kids
                &&& s.kind is UnitStruct <==> style == Style::Unit
                &&& s.kind is Struct <==> style == Style::Named
                &&& s.kind is NewtypeStruct <==> style == Style::Unnamed && fields.len() == 1
                    && on_wire(fields, 0)
                &&& s.kind is TupleStruct <==> style == Style::Unnamed && !(fields.len() == 1
                    && on_wire(fields, 0))
                &&& style == Style::Named ==> forall|f: nat| #[trigger]
                    on_wire(fields, f) ==> places(fields, f) < s.labels.len() && s.labels[places(
                        fields,
                        f,
                    ) as int] == field_wire(
                        fields[f as int].ident@,
                        fields[f as int].attrs@,
                        rule,
                    )
            }
        }),
{
    lemma_live_places(fields, fields.len());
    lemma_form(style, fields, rule);
    if fields.len() == 1 {
        assert(places(fields, 0) == 0);
    }
    if fields.len() == 0 {
        assert(kids =~= seq![]);
    }
}

/// The same of the payload of a derived variant, which has no name of its own.
pub proof fn lemma_derived_variant(
    style: Style,
    fields: Seq<Field>,
    rule: Option<RenameRule>,
    kids: Seq<Shape>,
)
    requires
        fields.len() <= usize::MAX,
        style == Style::Unit ==> fields.len() == 0,
        kids.len() == places(fields, fields.len()),
        are_values(kids),
    ensures
        ({
            let s = variant_shape(form_of(style, fields, rule), kids);
            &&& s.well_formed()
            &&& is_variant(s.kind)
            &&& s.kids == kids
            &&& s.kind is UnitVariant <==> style == Style::Unit
            &&& s.kind is StructVariant <==> style == Style::Named
            &&& s.kind is NewtypeVariant <==> style == Style::Unnamed && fields.len() == 1
                && on_wire(fields, 0)
            &&& style == Style::Named ==> forall|f: nat| #[trigger]
                on_wire(fields, f) ==> places(fields, f) < s.labels.len() && s.labels[places(
                    fields,
                    f,
                ) as int] == field_wire(fields[f as int].ident@, fields[f as int].attrs@, rule)
        }),
{
    lemma_live_places(fields, fields.len());
    lemma_form(style, fields, rule);
    if fields.len() == 1 {
        assert(places(fields, 0) == 0);
    }
    if fields.len() == 0 {
        assert(kids =~= seq![]);
    }
}

/// A type is called what `rename` says, else what its identifier says without
/// the marker of a raw one.
pub proof fn lemma_container_name(container: ContainerFacts, ident: Seq<char>)
    requires
        !(ident.len() >= 2 && ident[0] == 'r' && ident[1] == '#'),
    ensures
        container.rename matches Some(name) ==> container_wire(container, ident) == name,
        container.rename is None ==> container_wire(container, ident) == ident,
        container_wire(container, seq!['r', '#'] + ident) == container_wire(container, ident),
{
    let raw = seq!['r', '#'] + ident;
    assert(raw.subrange(2, raw.len() as int) =~= ident);
}

/// The casing that a variant sets for its own fields holds there, whatever the
/// enum sets; one that sets none takes the enum's.
pub proof fn lemma_own_rule(own: RenameRule, other: Option<RenameRule>)
    ensures
        rule_or(Some(own), other) == Some(own),
        rule_or(None, other) == other,
{
}

/// The column count of an enum is only known when the program runs exactly if a
/// field of a variant that reaches the wire does so through serde.
pub proof fn lemma_enum_fallback(variants: Seq<Variant>)
    ensures
        any_variant_serde(variants) <==> exists|v: nat, f: nat| #[trigger]
            by_serde(variants[v as int].fields@, f) && kept(variants, v),
{
    if any_variant_serde(variants) {
        let v = choose|v: int|
            0 <= v < variants.len() && !(#[trigger] variants[v]).attrs.skip && any_serde(
                variants[v].fields@,
            );
        let f = choose|f: int|
            0 <= f < variants[v].fields@.len() && source_of(#[trigger] variants[v].fields@[f])
                == Source::Serde;
        assert(by_serde(variants[v as int].fields@, f as nat) && kept(variants, v as nat));
    }
    assert forall|v: nat, f: nat| #[trigger]
        by_serde(variants[v as int].fields@, f) && kept(variants, v) implies any_variant_serde(
        variants,
    ) by {
        assert(source_of(variants[v as int].fields@[f as int]) == Source::Serde);
        assert(any_serde(variants[v as int].fields@));
        assert(!variants[v as int].attrs.skip);
    }
}

} // verus!
