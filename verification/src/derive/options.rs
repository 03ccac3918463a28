//! The derive's own attributes on a container or a variant:
//! `#[carbonite(crate = "...")]`, `#[carbonite(as = "...")]` and
//! `#[carbonite(removed(...))]`.

use vstd::prelude::*;

use crate::derive::attrs::{
    assigned, expect_assigned, text_of, Complaint, Form, Item, Literal, Rejection, Space,
};
use crate::derive::removed::{slot_of, Retired, Slot};
use crate::text;

verus! {

/// What the carbonite attributes of a container or a variant say.
#[derive(Debug)]
pub struct CarboniteAttrs {
    /// Where the generated code finds the crate.
    pub krate: Option<String>,
    /// The type that this one is represented as on the wire, in *both*
    /// directions.
    pub repr: Option<String>,
    /// The retired slots.
    pub removed: Vec<Retired>,
}

/// The view of [`CarboniteAttrs`].
#[verifier::ext_equal]
pub struct CarboniteFacts {
    pub krate: Option<Seq<char>>,
    pub repr: Option<Seq<char>>,
    pub removed: Seq<Slot>,
}

/// The slots in a list.
pub open spec fn slots_of(list: Seq<Retired>) -> Seq<Slot> {
    Seq::new(list.len(), |i: int| list[i]@)
}

impl View for CarboniteAttrs {
    type V = CarboniteFacts;

    open spec fn view(&self) -> CarboniteFacts {
        CarboniteFacts {
            krate: text_of(self.krate),
            repr: text_of(self.repr),
            removed: slots_of(self.removed@),
        }
    }
}

/// The slots that the first `n` literals retire, if each of them can.
pub open spec fn retired_by(literals: Seq<Literal>, n: nat) -> Option<Seq<Slot>>
    decreases n,
{
    if n == 0 {
        Some(seq![])
    } else {
        match (retired_by(literals, (n - 1) as nat), slot_of(literals[n - 1])) {
            (Some(before), Some(slot)) => Some(before.push(slot)),
            _ => None,
        }
    }
}

/// The slots that an item retires, or what is wrong with it.
pub open spec fn removed_value(item: Item) -> Result<Seq<Slot>, Seq<char>> {
    match item.form {
        Form::List(literals) => match retired_by(literals@, literals@.len()) {
            Some(slots) => Ok(slots),
            None => Err(
                "a retired slot is a field or variant name (`\"old\"`) or a position in a tuple (`1`)"@,
            ),
        },
        _ => Err("expected parentheses"@),
    }
}

/// Where an attribute stands.
#[derive(Clone, Copy, Debug, PartialEq, Eq, Structural)]
pub enum Site {
    /// On a struct or an enum.
    Container,
    /// On a variant.
    Variant,
}

/// What is said of an attribute that nothing knows.
pub open spec fn unrecognized(site: Site) -> Seq<char> {
    match site {
        Site::Container =>
            "unrecognized carbonite container attribute; the three are `crate = \"...\"`, `as = \"...\"` and `removed(...)`"@,
        Site::Variant =>
            "unrecognized carbonite variant attribute; the only one is `removed(...)`"@,
    }
}

/// What one more item adds to what is known.
pub open spec fn carbonite_step(site: Site, c: CarboniteFacts, item: Item, at: nat) -> Result<
    CarboniteFacts,
    Complaint,
> {
    let name = item.name@;
    if item.space != Space::Carbonite {
        Ok(c)
    } else if name == "removed"@ {
        match removed_value(item) {
            Ok(slots) => Ok(CarboniteFacts { removed: c.removed + slots, ..c }),
            Err(message) => Err(Complaint { at, message }),
        }
    } else if site == Site::Container && name == "crate"@ {
        match assigned(item) {
            Ok(s) => Ok(CarboniteFacts { krate: Some(s), ..c }),
            Err(message) => Err(Complaint { at, message }),
        }
    } else if site == Site::Container && name == "as"@ {
        match assigned(item) {
            Ok(s) => Ok(CarboniteFacts { repr: Some(s), ..c }),
            Err(message) => Err(Complaint { at, message }),
        }
    } else {
        Err(Complaint { at, message: unrecognized(site) })
    }
}

/// What the first `n` items say.
pub open spec fn carbonite_facts(site: Site, items: Seq<Item>, n: nat) -> Result<
    CarboniteFacts,
    Complaint,
>
    decreases n,
{
    if n == 0 {
        Ok(CarboniteFacts { krate: None, repr: None, removed: seq![] })
    } else {
        match carbonite_facts(site, items, (n - 1) as nat) {
            Ok(c) => carbonite_step(site, c, items[n - 1], (n - 1) as nat),
            Err(e) => Err(e),
        }
    }
}

proof fn lemma_stuck(site: Site, items: Seq<Item>, i: nat, n: nat)
    requires
        i <= n,
        carbonite_facts(site, items, i) is Err,
    ensures
        carbonite_facts(site, items, n) == carbonite_facts(site, items, i),
    decreases n,
{
    if i < n {
        lemma_stuck(site, items, i, (n - 1) as nat);
    }
}

proof fn lemma_unretirable(literals: Seq<Literal>, i: nat, n: nat)
    requires
        i <= n,
        retired_by(literals, i) is None,
    ensures
        retired_by(literals, n) is None,
    decreases n,
{
    if i < n {
        lemma_unretirable(literals, i, (n - 1) as nat);
    }
}

fn parse_removed(literals: &Vec<Literal>, at: usize) -> (result: Result<Vec<Retired>, Rejection>)
    ensures
        match result {
            Ok(list) => retired_by(literals@, literals@.len()) == Some(slots_of(list@)),
            Err(e) => retired_by(literals@, literals@.len()) is None && e@ == (Complaint {
                at: at as nat,
                message:
                    "a retired slot is a field or variant name (`\"old\"`) or a position in a tuple (`1`)"@,
            }),
        },
{
    let mut out: Vec<Retired> = Vec::new();
    assert(slots_of(out@) =~= seq![]);
    let mut i: usize = 0;
    while i < literals.len()
        invariant
            i <= literals@.len(),
            retired_by(literals@, i as nat) == Some(slots_of(out@)),
        decreases literals@.len() - i,
    {
        match Retired::parse(&literals[i], at) {
            Ok(slot) => {
                let ghost before = slots_of(out@);
                out.push(slot);
                assert(slots_of(out@) =~= before.push(slot@));
            },
            Err(e) => {
                proof {
                    lemma_unretirable(literals@, (i + 1) as nat, literals@.len());
                }
                return Err(e);
            },
        }
        i += 1;
    }
    Ok(out)
}

fn carbonite_item(site: Site, out: &mut CarboniteAttrs, item: &Item, at: usize) -> (result: Result<
    (),
    Rejection,
>)
    ensures
        match result {
            Ok(()) => carbonite_step(site, old(out)@, *item, at as nat) == Ok::<_, Complaint>(
                final(out)@,
            ),
            Err(e) => carbonite_step(site, old(out)@, *item, at as nat) == Err::<
                CarboniteFacts,
                _,
            >(e@),
        },
{
    if item.space != Space::Carbonite {
        return Ok(());
    }
    let name = item.name.as_str();
    if text::same(name, "removed") {
        match &item.form {
            Form::List(literals) => {
                let mut list = parse_removed(literals, at)?;
                let ghost before = out@.removed;
                let ghost slots = slots_of(list@);
                out.removed.append(&mut list);
                assert(out@.removed =~= before + slots);
            },
            _ => {
                return Err(Rejection { at, message: "expected parentheses".to_owned() });
            },
        }
    } else if site == Site::Container && text::same(name, "crate") {
        out.krate = Some(expect_assigned(item, at)?);
    } else if site == Site::Container && text::same(name, "as") {
        out.repr = Some(expect_assigned(item, at)?);
    } else {
        let message = match site {
            Site::Container =>
                "unrecognized carbonite container attribute; the three are `crate = \"...\"`, `as = \"...\"` and `removed(...)`",
            Site::Variant =>
                "unrecognized carbonite variant attribute; the only one is `removed(...)`",
        };
        return Err(Rejection { at, message: message.to_owned() });
    }
    Ok(())
}

fn parse_at(site: Site, items: &[Item]) -> (result: Result<CarboniteAttrs, Rejection>)
    ensures
        match result {
            Ok(c) => carbonite_facts(site, items@, items@.len()) == Ok::<_, Complaint>(c@),
            Err(e) => carbonite_facts(site, items@, items@.len()) == Err::<CarboniteFacts, _>(e@),
        },
{
    let mut out = CarboniteAttrs { krate: None, repr: None, removed: Vec::new() };
    assert(out@ =~= CarboniteFacts { krate: None, repr: None, removed: seq![] });
    let mut i: usize = 0;
    while i < items.len()
        invariant
            i <= items@.len(),
            carbonite_facts(site, items@, i as nat) == Ok::<_, Complaint>(out@),
        decreases items@.len() - i,
    {
        match carbonite_item(site, &mut out, &items[i], i) {
            Ok(()) => {},
            Err(e) => {
                proof {
                    lemma_stuck(site, items@, (i + 1) as nat, items@.len());
                }
                return Err(e);
            },
        }
        i += 1;
    }
    Ok(out)
}

/// Reads the carbonite attributes of a container.
pub fn parse_carbonite_attrs(items: &[Item]) -> (result: Result<CarboniteAttrs, Rejection>)
    ensures
        match result {
            Ok(c) => carbonite_facts(Site::Container, items@, items@.len()) == Ok::<_, Complaint>(
                c@,
            ),
            Err(e) => carbonite_facts(Site::Container, items@, items@.len()) == Err::<
                CarboniteFacts,
                _,
            >(e@),
        },
{
    parse_at(Site::Container, items)
}

/// Reads the slots that a variant has retired.
pub fn parse_carbonite_variant_attrs(items: &[Item]) -> (result: Result<Vec<Retired>, Rejection>)
    ensures
        match result {
            Ok(list) => carbonite_facts(Site::Variant, items@, items@.len()) matches Ok(c)
                && c.removed == slots_of(list@),
            Err(e) => carbonite_facts(Site::Variant, items@, items@.len()) == Err::<
                CarboniteFacts,
                _,
            >(e@),
        },
{
    let attrs = parse_at(Site::Variant, items)?;
    Ok(attrs.removed)
}

} // verus!
