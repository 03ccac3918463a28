//! What the attributes come to, item by item: which are refused, which decide,
//! and which are passed over.

use vstd::prelude::*;

use crate::derive::attrs::{
    container_facts, field_facts, field_items, variant_facts, Form, Item, Literal, Space,
};
use crate::derive::options::{
    carbonite_facts, carbonite_step, removed_value, retired_by, CarboniteFacts, Site,
};
use crate::derive::removed::Slot;
use crate::derive::rename::{rule_named, RenameRule};

verus! {

/// Whether an item of this attribute has this name.
pub open spec fn called(item: Item, space: Space, name: Seq<char>) -> bool {
    item.space == space && item.name@ == name
}

/// Whether item `i` is the last of the first `n` with this name.
pub open spec fn last_called(
    items: Seq<Item>,
    n: nat,
    space: Space,
    name: Seq<char>,
    i: nat,
) -> bool {
    &&& i < n
    &&& called(items[i as int], space, name)
    &&& forall|j: nat| i < j < n ==> !called(#[trigger] items[j as int], space, name)
}

/// Whether none of the first `n` items has this name.
pub open spec fn uncalled(items: Seq<Item>, n: nat, space: Space, name: Seq<char>) -> bool {
    forall|j: nat| j < n ==> !called(#[trigger] items[j as int], space, name)
}

/// A string decides, and the last one does: `value` is what the last of the
/// first `n` items with this name is set to, and nothing where there is none.
pub open spec fn set_by(
    items: Seq<Item>,
    n: nat,
    space: Space,
    name: Seq<char>,
    value: Option<Seq<char>>,
) -> bool {
    match value {
        Some(s) => exists|i: nat| #[trigger]
            last_called(items, n, space, name, i) && (items[i as int].form matches Form::Text(t)
                && t@ == s),
        None => uncalled(items, n, space, name),
    }
}

/// Whether an item is set to a string.
pub open spec fn has_text(item: Item) -> bool {
    item.form is Text
}

/// Whether an item is set to the name of a casing rule.
pub open spec fn has_rule(item: Item) -> bool {
    item.form matches Form::Text(s) && rule_named(s@) is Some
}

/// The names that have no place on a field, whatever they are set to.
pub open spec fn no_field_name(name: Seq<char>) -> bool {
    ||| name == "skip_serializing"@
    ||| name == "skip_deserializing"@
    ||| name == "skip_serializing_if"@
    ||| name == "flatten"@
    ||| name == "with"@
    ||| name == "serialize_with"@
    ||| name == "deserialize_with"@
}

/// Whether an item has no place on a field.
pub open spec fn bad_on_field(item: Item) -> bool {
    ||| item.space == Space::Carbonite && item.name@ != "serde"@
    ||| item.space == Space::Serde && no_field_name(item.name@)
    ||| called(item, Space::Serde, "rename"@) && !has_text(item)
}

/// The names that are told apart are different names.
proof fn lemma_names()
    ensures
        "rename"@.len() == 6,
        "alias"@.len() == 5,
        "skip"@.len() == 4,
        "serde"@.len() == 5,
        "serde"@[0] == 's',
        "alias"@[0] == 'a',
        "skip_serializing"@.len() == 16,
        "skip_deserializing"@.len() == 18,
        "skip_serializing_if"@.len() == 19,
        "flatten"@.len() == 7,
        "with"@.len() == 4,
        "with"@[0] == 'w',
        "skip"@[0] == 's',
        "serialize_with"@.len() == 14,
        "deserialize_with"@.len() == 16,
        "deserialize_with"@[0] == 'd',
        "skip_serializing"@[0] == 's',
        "rename_all"@.len() == 10,
        "rename_all_fields"@.len() == 17,
        "transparent"@.len() == 11,
        "untagged"@.len() == 8,
        "tag"@.len() == 3,
        "content"@.len() == 7,
        "from"@.len() == 4,
        "from"@[0] == 'f',
        "try_from"@.len() == 8,
        "try_from"@[1] == 'r',
        "untagged"@[1] == 'n',
        "into"@.len() == 4,
        "into"@[0] == 'i',
        "field_identifier"@.len() == 16,
        "variant_identifier"@.len() == 18,
        "remote"@.len() == 6,
        "remote"@[2] == 'm',
        "rename"@[2] == 'n',
        "removed"@.len() == 7,
        "crate"@.len() == 5,
        "as"@.len() == 2,
{
    reveal_strlit("rename");
    reveal_strlit("alias");
    reveal_strlit("skip");
    reveal_strlit("serde");
    reveal_strlit("skip_serializing");
    reveal_strlit("skip_deserializing");
    reveal_strlit("skip_serializing_if");
    reveal_strlit("flatten");
    reveal_strlit("with");
    reveal_strlit("serialize_with");
    reveal_strlit("deserialize_with");
    reveal_strlit("rename_all");
    reveal_strlit("rename_all_fields");
    reveal_strlit("transparent");
    reveal_strlit("untagged");
    reveal_strlit("tag");
    reveal_strlit("content");
    reveal_strlit("from");
    reveal_strlit("try_from");
    reveal_strlit("into");
    reveal_strlit("field_identifier");
    reveal_strlit("variant_identifier");
    reveal_strlit("remote");
    reveal_strlit("removed");
    reveal_strlit("crate");
    reveal_strlit("as");
}

/// A string that decides goes on to decide until an item of the same name
/// comes.
proof fn lemma_set_by(
    items: Seq<Item>,
    n: nat,
    space: Space,
    name: Seq<char>,
    value: Option<Seq<char>>,
)
    requires
        set_by(items, n, space, name, value),
    ensures
        !called(items[n as int], space, name) ==> set_by(items, n + 1, space, name, value),
        called(items[n as int], space, name) ==> (items[n as int].form matches Form::Text(t)
            ==> set_by(items, n + 1, space, name, Some(t@))),
{
    if called(items[n as int], space, name) {
        assert(last_called(items, n + 1, space, name, n));
    } else if value is Some {
        let s = value->0;
        let i = choose|i: nat| #[trigger]
            last_called(items, n, space, name, i) && (items[i as int].form matches Form::Text(t)
                && t@ == s);
        assert(last_called(items, n + 1, space, name, i));
    }
}

/// Whether these are the other names that the first `n` items give.
pub open spec fn aliased(items: Seq<Item>, n: nat, aliases: Seq<Seq<char>>) -> bool {
    forall|s: Seq<char>| #[trigger]
        aliases.contains(s) <==> exists|i: nat|
            i < n && called(#[trigger] items[i as int], Space::Serde, "alias"@)
                && (items[i as int].form matches Form::Text(t) && t@ == s)
}

proof fn lemma_aliased(items: Seq<Item>, n: nat, aliases: Seq<Seq<char>>)
    requires
        aliased(items, n, aliases),
    ensures
        !(called(items[n as int], Space::Serde, "alias"@) && items[n as int].form is Text)
            ==> aliased(items, n + 1, aliases),
        called(items[n as int], Space::Serde, "alias"@) ==> (
        items[n as int].form matches Form::Text(t) ==> aliased(items, n + 1, aliases.push(t@))),
{
    let item = items[n as int];
    if called(item, Space::Serde, "alias"@) && item.form is Text {
        let t = item.form->Text_0@;
        let more = aliases.push(t);
        assert forall|s: Seq<char>| #[trigger] more.contains(s) <==> exists|i: nat|
            i < n + 1 && called(#[trigger] items[i as int], Space::Serde, "alias"@)
                && (items[i as int].form matches Form::Text(t) && t@ == s) by {
            if more.contains(s) {
                let k = choose|k: int| 0 <= k < more.len() && more[k] == s;
                if k < aliases.len() {
                    assert(aliases[k] == s);
                    assert(aliases.contains(s));
                } else {
                    assert(called(items[n as int], Space::Serde, "alias"@));
                }
            }
            if exists|i: nat|
                i < n + 1 && called(#[trigger] items[i as int], Space::Serde, "alias"@)
                    && (items[i as int].form matches Form::Text(t) && t@ == s) {
                let i = choose|i: nat|
                    i < n + 1 && called(#[trigger] items[i as int], Space::Serde, "alias"@)
                        && (items[i as int].form matches Form::Text(t) && t@ == s);
                if i < n {
                    assert(aliases.contains(s));
                    let k = choose|k: int| 0 <= k < aliases.len() && aliases[k] == s;
                    assert(more[k] == s);
                } else {
                    assert(more[aliases.len() as int] == s);
                }
            }
        }
    } else {
        assert forall|s: Seq<char>| #[trigger] aliases.contains(s) <==> exists|i: nat|
            i < n + 1 && called(#[trigger] items[i as int], Space::Serde, "alias"@)
                && (items[i as int].form matches Form::Text(t) && t@ == s) by {}
    }
}

/// The items of a field are refused exactly if one has no place there, and the
/// first such is blamed. Else the last `rename` gives the name, every `alias`
/// counts, the field is skipped if one item says so, and the last item of the
/// library's own attribute is the one that routes it.
pub proof fn lemma_field_items(items: Seq<Item>, n: nat)
    ensures
        match field_items(items, n) {
            Ok(f) => {
                &&& forall|i: nat| i < n ==> !bad_on_field(#[trigger] items[i as int])
                &&& set_by(items, n, Space::Serde, "rename"@, f.rename)
                &&& aliased(items, n, f.aliases)
                &&& f.skip <==> !uncalled(items, n, Space::Serde, "skip"@)
                &&& match f.fallback {
                    Some(at) => last_called(items, n, Space::Carbonite, "serde"@, at),
                    None => uncalled(items, n, Space::Carbonite, "serde"@),
                }
            },
            Err(e) => {
                &&& e.at < n
                &&& bad_on_field(items[e.at as int])
                &&& forall|i: nat| i < e.at ==> !bad_on_field(#[trigger] items[i as int])
            },
        },
    decreases n,
{
    lemma_names();
    if n > 0 {
        let m = (n - 1) as nat;
        lemma_field_items(items, m);
        match field_items(items, m) {
            Ok(f) => {
                let item = items[m as int];
                lemma_set_by(items, m, Space::Serde, "rename"@, f.rename);
                lemma_aliased(items, m, f.aliases);
                match field_items(items, n) {
                    Ok(g) => {
                        assert(!bad_on_field(item));
                        if called(item, Space::Serde, "skip"@) {
                            assert(!uncalled(items, n, Space::Serde, "skip"@));
                        } else if !uncalled(items, m, Space::Serde, "skip"@) {
                            let j = choose|j: nat|
                                j < m && called(
                                    #[trigger] items[j as int],
                                    Space::Serde,
                                    "skip"@,
                                );
                            assert(called(items[j as int], Space::Serde, "skip"@));
                        }
                    },
                    Err(_) => {
                        assert(bad_on_field(item));
                    },
                }
            },
            Err(_) => {},
        }
    }
}

/// A field that is skipped cannot be routed, and nothing else is refused beyond
/// the items themselves.
pub proof fn lemma_field(items: Seq<Item>)
    ensures
        field_facts(items) is Ok <==> {
            &&& forall|i: nat| i < items.len() ==> !bad_on_field(#[trigger] items[i as int])
            &&& {
                ||| uncalled(items, items.len(), Space::Serde, "skip"@)
                ||| uncalled(items, items.len(), Space::Carbonite, "serde"@)
            }
        },
        field_facts(items) matches Ok(f) ==> field_items(items, items.len()) == field_facts(items)
            && !(f.skip && f.fallback is Some),
{
    lemma_field_items(items, items.len());
    match field_items(items, items.len()) {
        Ok(f) => {
            if f.fallback is Some {
                let at = f.fallback->0;
                assert(called(items[at as int], Space::Carbonite, "serde"@));
            }
        },
        Err(e) => {
            assert(bad_on_field(items[e.at as int]));
        },
    }
}

/// A casing rule decides, and the last one does.
pub open spec fn ruled_by(
    items: Seq<Item>,
    n: nat,
    name: Seq<char>,
    value: Option<RenameRule>,
) -> bool {
    match value {
        Some(rule) => exists|i: nat| #[trigger]
            last_called(items, n, Space::Serde, name, i) && (
            items[i as int].form matches Form::Text(t) && rule_named(t@) == Some(rule)),
        None => uncalled(items, n, Space::Serde, name),
    }
}

proof fn lemma_ruled_by(items: Seq<Item>, n: nat, name: Seq<char>, value: Option<RenameRule>)
    requires
        ruled_by(items, n, name, value),
    ensures
        !called(items[n as int], Space::Serde, name) ==> ruled_by(items, n + 1, name, value),
        called(items[n as int], Space::Serde, name) ==> (items[n as int].form matches Form::Text(t)
            ==> (rule_named(t@) is Some ==> ruled_by(items, n + 1, name, rule_named(t@)))),
{
    if called(items[n as int], Space::Serde, name) {
        assert(last_called(items, n + 1, Space::Serde, name, n));
    } else if value is Some {
        let rule = value->0;
        let i = choose|i: nat| #[trigger]
            last_called(items, n, Space::Serde, name, i) && (
            items[i as int].form matches Form::Text(t) && rule_named(t@) == Some(rule));
        assert(last_called(items, n + 1, Space::Serde, name, i));
    }
}

/// A name that was called stays called, and one that was not is if the next
/// item has it.
proof fn lemma_called(items: Seq<Item>, n: nat, space: Space, name: Seq<char>)
    ensures
        uncalled(items, n + 1, space, name) <==> uncalled(items, n, space, name) && !called(
            items[n as int],
            space,
            name,
        ),
{
    if !uncalled(items, n, space, name) {
        let j = choose|j: nat| j < n && called(#[trigger] items[j as int], space, name);
        assert(called(items[j as int], space, name));
    }
    if called(items[n as int], space, name) {
        assert(!uncalled(items, n + 1, space, name));
    }
}

/// Whether an item has no place on a variant.
pub open spec fn bad_on_variant(item: Item) -> bool {
    &&& item.space == Space::Serde
    &&& {
        ||| item.name@ == "skip_serializing"@
        ||| item.name@ == "skip_deserializing"@
        ||| item.name@ == "untagged"@
        ||| item.name@ == "with"@
        ||| item.name@ == "serialize_with"@
        ||| item.name@ == "deserialize_with"@
        ||| item.name@ == "rename"@ && !has_text(item)
        ||| item.name@ == "rename_all"@ && !has_rule(item)
    }
}

/// The items of a variant are refused exactly if one has no place there, and
/// the first such is blamed. Else the last `rename` gives the name, the last
/// `rename_all` the casing of its fields, every `alias` counts, and the variant
/// is skipped if one item says so.
pub proof fn lemma_variant_items(items: Seq<Item>, n: nat)
    ensures
        match variant_facts(items, n) {
            Ok(v) => {
                &&& forall|i: nat| i < n ==> !bad_on_variant(#[trigger] items[i as int])
                &&& set_by(items, n, Space::Serde, "rename"@, v.rename)
                &&& ruled_by(items, n, "rename_all"@, v.rename_all)
                &&& aliased(items, n, v.aliases)
                &&& v.skip <==> !uncalled(items, n, Space::Serde, "skip"@)
            },
            Err(e) => {
                &&& e.at < n
                &&& bad_on_variant(items[e.at as int])
                &&& forall|i: nat| i < e.at ==> !bad_on_variant(#[trigger] items[i as int])
            },
        },
    decreases n,
{
    lemma_names();
    if n > 0 {
        let m = (n - 1) as nat;
        lemma_variant_items(items, m);
        match variant_facts(items, m) {
            Ok(v) => {
                lemma_set_by(items, m, Space::Serde, "rename"@, v.rename);
                lemma_ruled_by(items, m, "rename_all"@, v.rename_all);
                lemma_aliased(items, m, v.aliases);
                lemma_called(items, m, Space::Serde, "skip"@);
                match variant_facts(items, n) {
                    Ok(_) => {
                        assert(!bad_on_variant(items[m as int]));
                    },
                    Err(_) => {
                        assert(bad_on_variant(items[m as int]));
                    },
                }
            },
            Err(_) => {},
        }
    }
}

/// Whether an item has no place on a container.
pub open spec fn bad_on_container(item: Item) -> bool {
    &&& item.space == Space::Serde
    &&& {
        ||| item.name@ == "untagged"@
        ||| item.name@ == "tag"@
        ||| item.name@ == "content"@
        ||| item.name@ == "field_identifier"@
        ||| item.name@ == "variant_identifier"@
        ||| item.name@ == "remote"@
        ||| (item.name@ == "rename"@ || item.name@ == "from"@ || item.name@ == "try_from"@
            || item.name@ == "into"@) && !has_text(item)
        ||| (item.name@ == "rename_all"@ || item.name@ == "rename_all_fields"@) && !has_rule(item)
    }
}

/// Whether item `i` is the last of the first `n` that says what a type is read
/// from.
pub open spec fn last_source(items: Seq<Item>, n: nat, i: nat) -> bool {
    &&& i < n
    &&& called(items[i as int], Space::Serde, "from"@) || called(
        items[i as int],
        Space::Serde,
        "try_from"@,
    )
    &&& forall|j: nat|
        i < j < n ==> !called(#[trigger] items[j as int], Space::Serde, "from"@) && !called(
            items[j as int],
            Space::Serde,
            "try_from"@,
        )
}

/// The items of a container are refused exactly if one has no place there, and
/// the first such is blamed. Else of each kind the last item decides, what a
/// type is read from and what it is written into are kept apart, and each is
/// remembered with the item that named it.
pub proof fn lemma_container_items(items: Seq<Item>, n: nat)
    ensures
        match container_facts(items, n) {
            Ok(c) => {
                &&& forall|i: nat| i < n ==> !bad_on_container(#[trigger] items[i as int])
                &&& set_by(items, n, Space::Serde, "rename"@, c.rename)
                &&& ruled_by(items, n, "rename_all"@, c.rename_all)
                &&& ruled_by(items, n, "rename_all_fields"@, c.rename_all_fields)
                &&& c.transparent <==> !uncalled(items, n, Space::Serde, "transparent"@)
                &&& match c.de_repr {
                    Some(de) => last_source(items, n, de.at) && de.attr
                        == items[de.at as int].name@ && (
                    items[de.at as int].form matches Form::Text(t) && t@ == de.text),
                    None => uncalled(items, n, Space::Serde, "from"@) && uncalled(
                        items,
                        n,
                        Space::Serde,
                        "try_from"@,
                    ),
                }
                &&& match c.ser_repr {
                    Some(ser) => last_called(items, n, Space::Serde, "into"@, ser.at) && ser.attr
                        == "into"@ && (items[ser.at as int].form matches Form::Text(t) && t@
                        == ser.text),
                    None => uncalled(items, n, Space::Serde, "into"@),
                }
            },
            Err(e) => {
                &&& e.at < n
                &&& bad_on_container(items[e.at as int])
                &&& forall|i: nat| i < e.at ==> !bad_on_container(#[trigger] items[i as int])
            },
        },
    decreases n,
{
    lemma_names();
    if n > 0 {
        let m = (n - 1) as nat;
        lemma_container_items(items, m);
        match container_facts(items, m) {
            Ok(c) => {
                lemma_set_by(items, m, Space::Serde, "rename"@, c.rename);
                lemma_ruled_by(items, m, "rename_all"@, c.rename_all);
                lemma_ruled_by(items, m, "rename_all_fields"@, c.rename_all_fields);
                lemma_called(items, m, Space::Serde, "transparent"@);
                lemma_called(items, m, Space::Serde, "from"@);
                lemma_called(items, m, Space::Serde, "try_from"@);
                lemma_called(items, m, Space::Serde, "into"@);
                match container_facts(items, n) {
                    Ok(_) => {
                        assert(!bad_on_container(items[m as int]));
                    },
                    Err(_) => {
                        assert(bad_on_container(items[m as int]));
                    },
                }
            },
            Err(_) => {},
        }
    }
}

/// Whether a literal retires a slot, and which.
pub open spec fn retires(literal: Literal, slot: Slot) -> bool {
    match literal {
        Literal::Text(name) => slot == Slot::Name(name@),
        Literal::Position(index) => slot == Slot::Position(index as nat),
        Literal::Other => false,
    }
}

/// The slots that a list of literals retires are those of each, in order, and
/// there are any only if each literal can retire one.
pub proof fn lemma_retired_by(literals: Seq<Literal>, n: nat)
    requires
        n <= literals.len(),
    ensures
        retired_by(literals, n) is None <==> exists|i: int|
            0 <= i < n && (#[trigger] literals[i]) is Other,
        retired_by(literals, n) matches Some(slots) ==> slots.len() == n && forall|i: int|
            0 <= i < n ==> retires(literals[i], #[trigger] slots[i]),
    decreases n,
{
    if n > 0 {
        let m = (n - 1) as nat;
        lemma_retired_by(literals, m);
        if literals[m as int] is Other {
        } else if retired_by(literals, m) is None {
            let i = choose|i: int| 0 <= i < m && (#[trigger] literals[i]) is Other;
            assert(literals[i] is Other);
        }
    }
}

/// Whether an item of the library's own attribute has no place on a type or a
/// variant.
pub open spec fn bad_option(site: Site, item: Item) -> bool {
    let setting = site == Site::Container && (item.name@ == "crate"@ || item.name@ == "as"@);
    &&& item.space == Space::Carbonite
    &&& {
        ||| item.name@ != "removed"@ && !setting
        ||| setting && !has_text(item)
        ||| item.name@ == "removed"@ && !(item.form matches Form::List(literals) && forall|i: int|
            0 <= i < literals@.len() ==> !((#[trigger] literals@[i]) is Other))
    }
}

/// Whether one of the first `n` items retires a slot.
pub open spec fn retired_in(items: Seq<Item>, n: nat, slot: Slot) -> bool {
    exists|i: nat, l: int| #[trigger]
        retires_at(items, i, l, slot) && i < n
}

/// Whether literal `l` of item `i` retires a slot.
pub open spec fn retires_at(items: Seq<Item>, i: nat, l: int, slot: Slot) -> bool {
    &&& called(items[i as int], Space::Carbonite, "removed"@)
    &&& items[i as int].form matches Form::List(literals) && 0 <= l < literals@.len() && retires(
        literals@[l],
        slot,
    )
}

proof fn lemma_removed_value(item: Item)
    ensures
        removed_value(item) is Ok <==> (item.form matches Form::List(literals) && forall|i: int|
            0 <= i < literals@.len() ==> !((#[trigger] literals@[i]) is Other)),
        removed_value(item) matches Ok(slots) ==> (item.form matches Form::List(literals)
            && slots.len() == literals@.len() && forall|i: int|
            0 <= i < slots.len() ==> retires(literals@[i], #[trigger] slots[i])),
{
    match item.form {
        Form::List(literals) => {
            lemma_retired_by(literals@, literals@.len());
        },
        _ => {},
    }
}

/// Two slots that a literal retires are one.
proof fn lemma_retires_one(literal: Literal, a: Slot, b: Slot)
    requires
        retires(literal, a),
        retires(literal, b),
    ensures
        a == b,
{
}

/// The library's own items are refused exactly if one has no place there, and
/// the first such is blamed. Else the last `crate` and the last `as` decide, and
/// what is retired is what any of the `removed` lists names.
pub proof fn lemma_options(site: Site, items: Seq<Item>, n: nat)
    ensures
        match carbonite_facts(site, items, n) {
            Ok(c) => {
                &&& forall|i: nat| i < n ==> !bad_option(site, #[trigger] items[i as int])
                &&& site == Site::Container ==> {
                    &&& set_by(items, n, Space::Carbonite, "crate"@, c.krate)
                    &&& set_by(items, n, Space::Carbonite, "as"@, c.repr)
                }
                &&& site == Site::Variant ==> c.krate is None && c.repr is None
                &&& forall|slot: Slot| #[trigger]
                    c.removed.contains(slot) <==> retired_in(items, n, slot)
            },
            Err(e) => {
                &&& e.at < n
                &&& bad_option(site, items[e.at as int])
                &&& forall|i: nat| i < e.at ==> !bad_option(site, #[trigger] items[i as int])
            },
        },
    decreases n,
{
    lemma_names();
    if n > 0 {
        let m = (n - 1) as nat;
        let item = items[m as int];
        lemma_options(site, items, m);
        lemma_removed_value(item);
        match carbonite_facts(site, items, m) {
            Ok(c) => {
                if site == Site::Container {
                    lemma_set_by(items, m, Space::Carbonite, "crate"@, c.krate);
                    lemma_set_by(items, m, Space::Carbonite, "as"@, c.repr);
                }
                match carbonite_facts(site, items, n) {
                    Ok(d) => {
                        assert(!bad_option(site, item));
                        assert forall|slot: Slot| #[trigger]
                            d.removed.contains(slot) <==> retired_in(items, n, slot) by {
                            lemma_more_retired(site, items, m, c, d, slot);
                        }
                    },
                    Err(_) => {
                        assert(bad_option(site, item));
                    },
                }
            },
            Err(_) => {},
        }
    }
}

proof fn lemma_more_retired(
    site: Site,
    items: Seq<Item>,
    m: nat,
    c: CarboniteFacts,
    d: CarboniteFacts,
    slot: Slot,
)
    requires
        carbonite_step(site, c, items[m as int], m) == Ok::<_, crate::derive::attrs::Complaint>(d),
        c.removed.contains(slot) <==> retired_in(items, m, slot),
    ensures
        d.removed.contains(slot) <==> retired_in(items, m + 1, slot),
{
    let item = items[m as int];
    lemma_removed_value(item);
    if called(item, Space::Carbonite, "removed"@) {
        let slots = removed_value(item)->Ok_0;
        let literals = item.form->List_0@;
        assert(d.removed == c.removed + slots);
        if d.removed.contains(slot) {
            let k = choose|k: int| 0 <= k < d.removed.len() && d.removed[k] == slot;
            if k < c.removed.len() {
                assert(c.removed[k] == slot);
                assert(c.removed.contains(slot));
                let (i, l) = choose|i: nat, l: int| #[trigger]
                    retires_at(items, i, l, slot) && i < m;
                assert(retires_at(items, i, l, slot));
            } else {
                assert(slots[k - c.removed.len()] == slot);
                assert(retires_at(items, m, k - c.removed.len(), slot));
            }
        }
        if retired_in(items, m + 1, slot) {
            let (i, l) = choose|i: nat, l: int| #[trigger]
                retires_at(items, i, l, slot) && i < m + 1;
            if i < m {
                assert(retired_in(items, m, slot));
                let k = choose|k: int| 0 <= k < c.removed.len() && c.removed[k] == slot;
                assert(d.removed[k] == slot);
            } else {
                assert(retires(literals[l], slots[l]));
                lemma_retires_one(literals[l], slots[l], slot);
                assert(d.removed[c.removed.len() + l] == slot);
            }
        }
    } else {
        assert(d.removed == c.removed);
        if retired_in(items, m, slot) {
            let (i, l) = choose|i: nat, l: int| #[trigger] retires_at(items, i, l, slot) && i < m;
            assert(retires_at(items, i, l, slot));
        }
        if retired_in(items, m + 1, slot) {
            let (i, l) = choose|i: nat, l: int| #[trigger]
                retires_at(items, i, l, slot) && i < m + 1;
            assert(i < m);
            assert(retired_in(items, m, slot));
        }
    }
}

} // verus!
