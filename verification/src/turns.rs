//! Reading part by part, in turn: what a reader that takes whatever comes is
//! handed, and that taking up each part where it is told to gives the value that
//! is there.

use vstd::prelude::*;

use crate::error::Fault;
use crate::get::{
    get, get_entries, get_fields, get_items, lemma_get_within, lemma_skip_get, same_places, skip, Cur,
};
use crate::plan::{GivenVariant, VariantPlan};
use crate::reader::{step, ColMap, ColSeq, Next, Step};
use crate::shape::{kid_base, lemma_kid_columns, width_of, Shape};
use crate::skip::skip_from;
use crate::spot::VariantSpot;
use crate::value::{entry, Val};

verus! {

/// The schema inside the newtype structs and shared objects around it.
pub open spec fn unwrapped(s: Shape) -> Shape
    decreases s,
{
    if (s.kind is NewtypeStruct || s.kind is Shared) && s.kids.len() == 1 {
        unwrapped(s.kids[0])
    } else {
        s
    }
}

/// What is next in the columns is what the schema inside all wrappers says.
/// Named fields are handed over by name, unless the schemas are the same: then
/// they are handed over in order, as fields without names always are.
pub proof fn lemma_next_kind(s: Shape, base: nat, fast: bool, cur: Cur)
    requires
        step(s, base, fast, cur) is Ok,
    ensures
        ({
            let next = step(s, base, fast, cur)->Ok_0.0;
            let kind = unwrapped(s).kind;
            &&& next is Scalar <==> kind is Primitive
            &&& next is Str <==> kind is String
            &&& next is Bytes <==> kind is Bytes
            &&& next is Unit <==> kind is Unit || kind is UnitStruct
            &&& next is Absent || next is Present <==> kind is Option
            &&& next is Items <==> kind is Sequence
            &&& next is Entries <==> kind is Mapping
            &&& next is ByName <==> kind is Struct && !fast
            &&& next is Fields <==> kind is Tuple || kind is TupleStruct || (kind is Struct && fast)
            &&& next is Variant <==> kind is Enum
        }),
    decreases s,
{
    if s.kind is NewtypeStruct {
        lemma_next_kind(s.kids[0], base, fast, cur);
    } else if s.kind is Shared {
        let (key, next) = cur.varint(base)->Ok_0;
        lemma_next_kind(s.kids[0], base + 1, fast, next.reserve(base));
    }
}

/// What is next, with named fields in order.
pub open spec fn unnamed(next: Next) -> Next {
    match next {
        Next::ByName(place) => Next::Fields(place),
        _ => next,
    }
}

/// That the schemas are the same changes nothing but whether names are told: not
/// what is there, nor where, nor what is refused.
pub proof fn lemma_names_alone(s: Shape, base: nat, cur: Cur)
    ensures
        match (step(s, base, true, cur), step(s, base, false, cur)) {
            (Ok((a, end)), Ok((b, other))) => a == unnamed(b) && end == other,
            (Err(fault), Err(other)) => fault == other,
            _ => false,
        },
    decreases s,
{
    if s.kind is NewtypeStruct && s.kids.len() == 1 {
        lemma_names_alone(s.kids[0], base, cur);
    } else if s.kind is Shared && s.kids.len() == 1 {
        match cur.varint(base) {
            Ok((key, next)) => {
                lemma_names_alone(s.kids[0], base + 1, next.reserve(base));
            },
            Err(_) => {},
        }
    }
}

/// Reading so many elements, each where the reader is told.
pub open spec fn items_in_turn(items: ColSeq<'_>, cur: Cur, n: nat) -> Result<
    (Seq<Val>, Cur),
    Fault,
>
    decreases n,
{
    if n == 0 {
        Ok((seq![], cur))
    } else {
        match items_in_turn(items, cur, (n - 1) as nat) {
            Ok((before, next)) => match get(items.elem().shape(), items.elem().base(), next) {
                Ok((v, end)) => Ok((before.push(v), end)),
                Err(fault) => Err(fault),
            },
            Err(fault) => Err(fault),
        }
    }
}

/// Reading so many entries, each key and each value where the reader is told.
pub open spec fn entries_in_turn(entries: ColMap<'_>, cur: Cur, n: nat) -> Result<
    (Seq<Val>, Cur),
    Fault,
>
    decreases n,
{
    if n == 0 {
        Ok((seq![], cur))
    } else {
        match entries_in_turn(entries, cur, (n - 1) as nat) {
            Ok((before, next)) => match get(entries.key().shape(), entries.key().base(), next) {
                Ok((key, keyed)) => match get(entries.held().shape(), entries.held().base(), keyed) {
                    Ok((value, end)) => Ok((before.push(entry(key, value)), end)),
                    Err(fault) => Err(fault),
                },
                Err(fault) => Err(fault),
            },
            Err(fault) => Err(fault),
        }
    }
}

proof fn lemma_items_in_turn(items: ColSeq<'_>, s: Shape, base: nat, cur: Cur, n: nat)
    requires
        s.kids.len() == 1,
        items.elem().shape() == s.kids[0],
        items.elem().base() == base + 1,
    ensures
        items_in_turn(items, cur, n) == get_items(s, base, cur, n),
    decreases n,
{
    if n > 0 {
        lemma_items_in_turn(items, s, base, cur, (n - 1) as nat);
    }
}

proof fn lemma_entries_in_turn(entries: ColMap<'_>, s: Shape, base: nat, cur: Cur, n: nat)
    requires
        s.kids.len() == 2,
        entries.key().shape() == s.kids[0],
        entries.key().base() == base + 1,
        entries.held().shape() == s.kids[1],
        entries.held().base() == base + 1 + width_of(s.kids[0]),
    ensures
        entries_in_turn(entries, cur, n) == get_entries(s, base, cur, n),
    decreases n,
{
    if n > 0 {
        lemma_entries_in_turn(entries, s, base, cur, (n - 1) as nat);
    }
}

/// Reading as many elements or entries as are said to be left, each where the
/// reader is told, gives the parts of the list that is there and ends where it
/// ends.
pub proof fn lemma_list_in_turn(
    shown: Step<'_, '_>,
    s: Shape,
    base: nat,
    fast: bool,
    cur: Cur,
    columns: nat,
)
    requires
        s.kind is Sequence || s.kind is Mapping,
        s.well_formed(),
        step(s, base, fast, cur) is Ok,
        shown.shows(step(s, base, fast, cur)->Ok_0.0, columns),
    ensures
        ({
            let rest = step(s, base, fast, cur)->Ok_0.1;
            let parts = match shown {
                Step::Items(items) => items_in_turn(items, rest, items.left()),
                Step::Entries(entries) => entries_in_turn(entries, rest, entries.left()),
                _ => Err(Fault::UnexpectedEof),
            };
            &&& shown is Items <==> s.kind is Sequence
            &&& shown is Entries <==> s.kind is Mapping
            &&& match (get(s, base, cur), parts) {
                (Ok((v, end)), Ok((kids, other))) => v.kids == kids && end == other,
                (Err(fault), Err(other)) => fault == other,
                _ => false,
            }
        }),
{
    let rest = step(s, base, fast, cur)->Ok_0.1;
    match shown {
        Step::Items(items) => {
            lemma_items_in_turn(items, s, base, rest, items.left());
        },
        Step::Entries(entries) => {
            lemma_entries_in_turn(entries, s, base, rest, entries.left());
        },
        _ => {},
    }
}

/// What a plan hands over of a variant's payload is read where the writer put
/// it: the only field, or all of them.
pub proof fn lemma_payload_places(
    plan: VariantPlan<'_>,
    g: GivenVariant,
    spot: VariantSpot<'_>,
    cur: Cur,
)
    requires
        plan.carries_out(g, spot),
        g is Only ==> spot.shape().kids.len() == 1,
        get_fields(spot.shape(), spot.base(), cur, spot.shape().kids.len()) is Ok,
    ensures
        ({
            let s = spot.shape();
            let (kids, end) = get_fields(s, spot.base(), cur, s.kids.len())->Ok_0;
            match plan {
                VariantPlan::Only(only) => get(only.shape(), only.base(), cur) == Ok::<
                    (Val, Cur),
                    Fault,
                >((kids[0], end)),
                VariantPlan::Product(list)
                | VariantPlan::ByName(list)
                | VariantPlan::Numbered(list) => get_fields(
                    list.shape(),
                    list.base(),
                    cur,
                    list.shape().kids.len(),
                ) == Ok::<(Seq<Val>, Cur), Fault>((kids, end)),
                VariantPlan::Skip => g is Skip,
            }
        }),
{
    let s = spot.shape();
    if g is Only {
        assert(get_fields(s, spot.base(), cur, 0) == Ok::<(Seq<Val>, Cur), Fault>((seq![], cur)));
        assert(get_fields(s, spot.base(), cur, 1) is Ok);
    }
}

proof fn lemma_first_fields(s: Shape, base: nat, cur: Cur, i: nat, n: nat)
    requires
        s.well_formed(),
        cur.sized(),
        base + width_of(s) <= cur.bufs.len(),
        i <= n <= s.kids.len(),
        get_fields(s, base, cur, n) is Ok,
    ensures
        get_fields(s, base, cur, i) is Ok,
        get_fields(s, base, cur, i)->Ok_0.1.sized(),
        get_fields(s, base, cur, i)->Ok_0.1.bufs == cur.bufs,
    decreases n,
{
    if i < n {
        lemma_first_fields(s, base, cur, i, (n - 1) as nat);
    } else if n > 0 {
        let m = (n - 1) as nat;
        lemma_first_fields(s, base, cur, m, m);
        lemma_kid_columns(s, m);
        let next = get_fields(s, base, cur, m)->Ok_0.1;
        lemma_get_within(s.kids[m as int], kid_base(s, base, m), next);
    }
}

/// A reader that stops after some of the fields still ends where the writer's
/// fields end: skipping the rest moves on as far as reading them would.
pub proof fn lemma_rest_skipped(s: Shape, base: nat, cur: Cur, mid: Cur, i: nat)
    requires
        s.well_formed(),
        cur.sized(),
        base + width_of(s) <= cur.bufs.len(),
        i <= s.kids.len(),
        get_fields(s, base, cur, s.kids.len()) is Ok,
        get_fields(s, base, cur, i) matches Ok((_, next)) && same_places(next, mid),
    ensures
        skip_from(s, base, mid, i) is Ok,
        same_places(
            get_fields(s, base, cur, s.kids.len())->Ok_0.1,
            skip_from(s, base, mid, i)->Ok_0,
        ),
    decreases s.kids.len() - i,
{
    let n = s.kids.len();
    if i < n {
        lemma_first_fields(s, base, cur, i, n);
        lemma_first_fields(s, base, cur, i + 1, n);
        lemma_kid_columns(s, i);
        let next = get_fields(s, base, cur, i)->Ok_0.1;
        lemma_skip_get(s.kids[i as int], kid_base(s, base, i), next, mid);
        let after = skip(s.kids[i as int], kid_base(s, base, i), mid)->Ok_0;
        lemma_rest_skipped(s, base, cur, after, i + 1);
    }
}

/// A shared object that comes again is the one that was read before, and takes
/// no more than its key; one that was not kept cannot be had again.
pub proof fn lemma_read_again(s: Shape, base: nat, cur: Cur)
    requires
        s.kind is Shared,
        s.well_formed(),
        cur.varint(base) matches Ok((key, next)) && key < next.regs[base as int].len(),
    ensures
        ({
            let (key, next) = cur.varint(base)->Ok_0;
            match (get(s, base, cur), next.regs[base as int][key as int]) {
                (Ok((v, end)), Some(object)) => v.kids == seq![object] && end == next,
                (Err(_), None) => true,
                _ => false,
            }
        }),
{
}

} // verus!
