//! What a retirement keeps away: no field and no variant that reaches the wire
//! may answer to what data of before still carries.

use vstd::prelude::*;

use crate::derive::model::{
    field_wire, is_unit, lemma_live, lemma_live_places, lemma_live_variants, live, live_variants,
    places, rule_or, variant_wire, Field, Style, Variant,
};
use crate::derive::removed::{
    alias_taker, claimant, claims, enum_clash, fields_clash, forbidden, name_taker, payload_clash,
    payloads_clash, slot_clash, takes_name, variants_clash, Retired, Slot,
};
use crate::derive::rename::RenameRule;
use crate::text::decimal;

verus! {

/// Whether field `f` would read what data of before holds in a slot: it reaches
/// the wire and is read from the slot's name, under its own name or an alias, or
/// stands at the slot's position. A `()` reads nothing, but an alias of it is
/// still a claim.
pub open spec fn reuses(
    slot: Slot,
    style: Style,
    fields: Seq<Field>,
    rule: Option<RenameRule>,
    f: nat,
) -> bool {
    let field = fields[f as int];
    &&& f < fields.len()
    &&& !field.attrs.skip
    &&& match slot {
        Slot::Name(name) => {
            ||| field.attrs@.aliases.contains(name)
            ||| style == Style::Named && !is_unit(field.ty@) && field_wire(
                field.ident@,
                field.attrs@,
                rule,
            ) == name
        },
        Slot::Position(index) => {
            ||| field.attrs@.aliases.contains(decimal(index))
            ||| style == Style::Unnamed && !is_unit(field.ty@) && places(fields, f) == index
        },
    }
}

proof fn lemma_name_taker(
    style: Style,
    fields: Seq<Field>,
    live: Seq<usize>,
    rule: Option<RenameRule>,
    name: Seq<char>,
    i: nat,
)
    ensures
        match name_taker(style, fields, live, rule, name, i) {
            Some(f) => exists|k: int|
                i <= k < live.len() && #[trigger] live[k] == f && takes_name(
                    style,
                    fields[f as int],
                    rule,
                    name,
                ),
            None => forall|k: int|
                i <= k < live.len() ==> !takes_name(
                    style,
                    fields[#[trigger] live[k] as int],
                    rule,
                    name,
                ),
        },
    decreases live.len() - i,
{
    if i < live.len() {
        lemma_name_taker(style, fields, live, rule, name, i + 1);
    }
}

proof fn lemma_alias_taker(fields: Seq<Field>, live: Seq<usize>, name: Seq<char>, i: nat)
    ensures
        match alias_taker(fields, live, name, i) {
            Some(f) => exists|k: int|
                i <= k < live.len() && #[trigger] live[k] == f
                    && fields[f as int].attrs@.aliases.contains(name),
            None => forall|k: int|
                i <= k < live.len() ==> !fields[#[trigger] live[k] as int].attrs@.aliases.contains(
                    name,
                ),
        },
    decreases live.len() - i,
{
    if i < live.len() {
        lemma_alias_taker(fields, live, name, i + 1);
    }
}

/// A retired slot is refused exactly if some field reuses it, and the one that
/// is blamed does.
pub proof fn lemma_slot(slot: Slot, style: Style, fields: Seq<Field>, rule: Option<RenameRule>)
    requires
        fields.len() <= usize::MAX,
    ensures
        slot_clash(slot, style, fields, live(fields, fields.len()), rule) is Some <==> exists|f: nat|
            #[trigger] reuses(slot, style, fields, rule, f),
        slot_clash(slot, style, fields, live(fields, fields.len()), rule) matches Some(clash)
            ==> reuses(slot, style, fields, rule, clash.field),
{
    let all = live(fields, fields.len());
    lemma_live(fields, fields.len());
    lemma_live_places(fields, fields.len());
    lemma_alias_taker(fields, all, forbidden(slot), 0);
    match slot {
        Slot::Name(name) => {
            lemma_name_taker(style, fields, all, rule, name, 0);
        },
        Slot::Position(index) => {
            if index < all.len() {
                let f = all[index as int] as nat;
                let p = places(fields, f);
                assert(all[p as int] == f);
                assert(p == index) by {
                    if p < index {
                        assert(all[p as int] < all[index as int]);
                    } else if index < p {
                        assert(all[index as int] < all[p as int]);
                    }
                }
            }
        },
    }
    let clash = slot_clash(slot, style, fields, all, rule);
    if clash is Some {
        assert(reuses(slot, style, fields, rule, clash->0.field));
    }
    assert forall|f: nat| #[trigger] reuses(slot, style, fields, rule, f) implies clash is Some by {
        assert(!fields[f as int].attrs.skip);
        assert(all.contains(f as usize));
        let k = choose|k: int| 0 <= k < all.len() && all[k] == f as usize;
        assert(all[k] == f);
        assert(all[places(fields, f) as int] == f);
    }
}

/// The fields of a struct or variant are refused exactly if one of them reuses
/// a retired slot, and the one that is blamed does.
pub proof fn lemma_fields(
    retired: Seq<Retired>,
    style: Style,
    fields: Seq<Field>,
    rule: Option<RenameRule>,
    i: nat,
)
    requires
        fields.len() <= usize::MAX,
    ensures
        ({
            let clash = fields_clash(
                retired,
                style,
                fields,
                live(fields, fields.len()),
                rule,
                i,
            );
            &&& clash is Some <==> exists|s: int, f: nat|
                i <= s < retired.len() && #[trigger] reuses(
                    retired[s]@,
                    style,
                    fields,
                    rule,
                    f,
                )
            &&& clash matches Some(clash) ==> exists|s: int|
                i <= s < retired.len() && #[trigger] reuses(
                    retired[s]@,
                    style,
                    fields,
                    rule,
                    clash.field,
                )
        }),
    decreases retired.len() - i,
{
    if i < retired.len() {
        lemma_slot(retired[i as int]@, style, fields, rule);
        lemma_fields(retired, style, fields, rule, i + 1);
        let all = live(fields, fields.len());
        let here = slot_clash(retired[i as int]@, style, fields, all, rule);
        if here is Some {
            assert(reuses(retired[i as int]@, style, fields, rule, here->0.field));
        }
        assert forall|s: int, f: nat|
            i <= s < retired.len() && #[trigger] reuses(
                retired[s]@,
                style,
                fields,
                rule,
                f,
            ) implies fields_clash(retired, style, fields, all, rule, i) is Some by {
            if s > i {
                assert(i + 1 <= s < retired.len() && reuses(retired[s]@, style, fields, rule, f));
            }
        }
    }
}

/// Whether variant `v` would be read from a retired tag.
pub open spec fn answers(
    name: Seq<char>,
    variants: Seq<Variant>,
    rule: Option<RenameRule>,
    v: nat,
) -> bool {
    let variant = variants[v as int];
    &&& v < variants.len()
    &&& !variant.attrs.skip
    &&& {
        ||| variant_wire(variant.ident@, variant.attrs@, rule) == name
        ||| variant.attrs@.aliases.contains(name)
    }
}

/// Whether field `f` of variant `v` reuses a slot that the variant has retired.
pub open spec fn payload_reuses(
    variants: Seq<Variant>,
    field_rule: Option<RenameRule>,
    v: nat,
    s: int,
    f: nat,
) -> bool {
    let variant = variants[v as int];
    &&& v < variants.len()
    &&& !variant.attrs.skip
    &&& 0 <= s < variant.retired@.len()
    &&& reuses(
        variant.retired@[s]@,
        variant.style,
        variant.fields@,
        rule_or(variant.attrs@.rename_all, field_rule),
        f,
    )
}

proof fn lemma_claimant(
    variants: Seq<Variant>,
    live: Seq<usize>,
    rule: Option<RenameRule>,
    name: Seq<char>,
    i: nat,
)
    ensures
        match claimant(variants, live, rule, name, i) {
            Some(v) => exists|k: int|
                i <= k < live.len() && #[trigger] live[k] == v && claims(
                    variants[v as int],
                    rule,
                    name,
                ),
            None => forall|k: int|
                i <= k < live.len() ==> !claims(variants[#[trigger] live[k] as int], rule, name),
        },
    decreases live.len() - i,
{
    if i < live.len() {
        lemma_claimant(variants, live, rule, name, i + 1);
    }
}

/// A name that an enum has retired is refused exactly if a variant that reaches
/// the wire answers to it, and the one that is blamed does.
pub proof fn lemma_tag(variants: Seq<Variant>, rule: Option<RenameRule>, name: Seq<char>)
    requires
        variants.len() <= usize::MAX,
    ensures
        ({
            let found = claimant(
                variants,
                live_variants(variants, variants.len()),
                rule,
                name,
                0,
            );
            &&& found is Some <==> exists|v: nat| #[trigger] answers(name, variants, rule, v)
            &&& found matches Some(v) ==> answers(name, variants, rule, v)
        }),
{
    let all = live_variants(variants, variants.len());
    lemma_live_variants(variants, variants.len());
    lemma_claimant(variants, all, rule, name, 0);
    let found = claimant(variants, all, rule, name, 0);
    if found is Some {
        assert(answers(name, variants, rule, found->0));
    }
    assert forall|v: nat| #[trigger] answers(name, variants, rule, v) implies found is Some by {
        assert(!variants[v as int].attrs.skip);
        assert(all.contains(v as usize));
        let k = choose|k: int| 0 <= k < all.len() && all[k] == v as usize;
        assert(all[k] == v);
    }
}

/// Whether a retired slot of an enum itself is at fault: it is a position, or a
/// variant answers to its name.
pub open spec fn tag_fault(
    slot: Slot,
    variants: Seq<Variant>,
    rule: Option<RenameRule>,
) -> bool {
    match slot {
        Slot::Position(_) => true,
        Slot::Name(name) => exists|v: nat| #[trigger] answers(name, variants, rule, v),
    }
}

proof fn lemma_tags(
    retired: Seq<Retired>,
    variants: Seq<Variant>,
    rule: Option<RenameRule>,
    i: nat,
)
    requires
        variants.len() <= usize::MAX,
    ensures
        variants_clash(
            retired,
            variants,
            live_variants(variants, variants.len()),
            rule,
            i,
        ) is Some <==> exists|s: int|
            i <= s < retired.len() && #[trigger] tag_fault(retired[s]@, variants, rule),
    decreases retired.len() - i,
{
    if i < retired.len() {
        lemma_tags(retired, variants, rule, i + 1);
        let all = live_variants(variants, variants.len());
        match retired[i as int]@ {
            Slot::Name(name) => {
                lemma_tag(variants, rule, name);
            },
            _ => {},
        }
        let clash = variants_clash(retired, variants, all, rule, i);
        if clash is Some && !tag_fault(retired[i as int]@, variants, rule) {
            let s = choose|s: int|
                i + 1 <= s < retired.len() && #[trigger] tag_fault(retired[s]@, variants, rule);
            assert(tag_fault(retired[s]@, variants, rule));
        }
        assert forall|s: int|
            i <= s < retired.len() && #[trigger] tag_fault(
                retired[s]@,
                variants,
                rule,
            ) implies clash is Some by {
            if s > i {
                assert(i + 1 <= s < retired.len() && tag_fault(retired[s]@, variants, rule));
            }
        }
    }
}

proof fn lemma_payloads(
    variants: Seq<Variant>,
    live: Seq<usize>,
    field_rule: Option<RenameRule>,
    i: nat,
)
    ensures
        match payloads_clash(variants, live, field_rule, i) {
            Some(clash) => exists|k: int|
                i <= k < live.len() && payload_clash(
                    variants[#[trigger] live[k] as int],
                    field_rule,
                ) is Some,
            None => forall|k: int|
                i <= k < live.len() ==> payload_clash(
                    variants[#[trigger] live[k] as int],
                    field_rule,
                ) is None,
        },
    decreases live.len() - i,
{
    if i < live.len() {
        lemma_payloads(variants, live, field_rule, i + 1);
    }
}

/// An enum is refused exactly if one of its own retired slots is at fault, or a
/// field of a variant that reaches the wire reuses a slot of that variant.
pub proof fn lemma_enum(
    retired: Seq<Retired>,
    variants: Seq<Variant>,
    rule: Option<RenameRule>,
    field_rule: Option<RenameRule>,
)
    requires
        variants.len() <= usize::MAX,
        forall|v: int|
            0 <= v < variants.len() ==> (#[trigger] variants[v]).fields@.len() <= usize::MAX,
    ensures
        enum_clash(retired, variants, rule, field_rule) is Some <==> {
            ||| exists|s: int|
                0 <= s < retired.len() && #[trigger] tag_fault(retired[s]@, variants, rule)
            ||| exists|v: nat, s: int, f: nat|
                #[trigger] payload_reuses(variants, field_rule, v, s, f)
        },
{
    let all = live_variants(variants, variants.len());
    lemma_live_variants(variants, variants.len());
    lemma_tags(retired, variants, rule, 0);
    lemma_payloads(variants, all, field_rule, 0);
    let inner = payloads_clash(variants, all, field_rule, 0);
    if inner is Some {
        let k = choose|k: int|
            0 <= k < all.len() && payload_clash(
                variants[#[trigger] all[k] as int],
                field_rule,
            ) is Some;
        let v = all[k] as nat;
        let variant = variants[v as int];
        let r = rule_or(variant.attrs@.rename_all, field_rule);
        lemma_fields(variant.retired@, variant.style, variant.fields@, r, 0);
        let (s, f) = choose|s: int, f: nat|
            0 <= s < variant.retired@.len() && #[trigger] reuses(
                variant.retired@[s]@,
                variant.style,
                variant.fields@,
                r,
                f,
            );
        assert(payload_reuses(variants, field_rule, v, s, f));
    }
    assert forall|v: nat, s: int, f: nat|
        #[trigger] payload_reuses(variants, field_rule, v, s, f) implies inner is Some by {
        let variant = variants[v as int];
        let r = rule_or(variant.attrs@.rename_all, field_rule);
        lemma_fields(variant.retired@, variant.style, variant.fields@, r, 0);
        assert(0 <= s < variant.retired@.len() && reuses(
            variant.retired@[s]@,
            variant.style,
            variant.fields@,
            r,
            f,
        ));
        assert(!variants[v as int].attrs.skip);
        assert(all.contains(v as usize));
        let k = choose|k: int| 0 <= k < all.len() && all[k] == v as usize;
        assert(all[k] == v);
        assert(payload_clash(variants[all[k] as int], field_rule) is Some);
    }
}

} // verus!
