//! The columnar fast path for sets.
//!
//! A set is written as the list of its items: an ordered set from the least to
//! the greatest, a hash set in whatever order it is walked. Reading collects
//! the items, whatever order they stand in and however often one occurs.

use std::collections::{BTreeSet, HashSet, VecDeque};
use std::hash::{BuildHasher, Hash};

use vstd::laws_cmp::obeys_cmp;
use vstd::laws_eq::obeys_concrete_eq;
use vstd::prelude::*;
use vstd::std_specs::hash::{builds_valid_hashers, obeys_key_model};
use vstd::std_specs::iter::IteratorSpec;

use crate::columnar::ColumnCursor;
use crate::error::{Fault, Result};
use crate::get::Cur;
use crate::ordered::{in_order, lemma_has_order, lemma_in_order, lemma_refs_obey, rises};
use crate::put::Row;
use crate::shape::{lemma_one_kid_columns, width_of};
use crate::static_schema::StaticSchema;
use crate::typed_de::{lemma_vec_back, DeserializeColumns, RoundTrip};
use crate::typed_ser::{
    all_stand, all_write, blank, first_refusal, item_vals, lemma_same_images, stamped, Modeled,
    SerializeColumns, Walk,
};
use crate::typed_std::{gather, lemma_list_image, list_image, queue, write_list};
use crate::value::{Head, Val};

verus! {

/// The list holds the items of the set, each once.
pub open spec fn lists<T>(order: Seq<T>, items: Set<T>) -> bool {
    order.no_duplicates() && order.to_set() == items
}

/// The items of a set in the order that a walk says. What is no order of the
/// items stands for some order of them.
pub open spec fn walked<T>(items: Set<T>, w: Walk) -> Seq<T> {
    let some = some_order(items);
    let order = Seq::new(w.order.len(), |i: int| some[w.order[i] as int]);
    if lists(order, items) {
        order
    } else {
        some
    }
}

/// Some order of the items of a set, if there is one.
pub open spec fn some_order<T>(items: Set<T>) -> Seq<T> {
    if exists|order: Seq<T>| lists(order, items) {
        choose|order: Seq<T>| lists(order, items)
    } else {
        seq![]
    }
}

/// The walk in this order, with these walks of the items.
pub open spec fn walk_along<T>(items: Set<T>, order: Seq<T>, parts: Seq<Walk>) -> Walk {
    Walk {
        order: Seq::new(order.len(), |i: int| some_order(items).index_of(order[i]) as nat),
        kids: seq![],
        parts,
    }
}

/// A walk holds items of the set only.
pub proof fn lemma_walked<T>(items: Set<T>, w: Walk)
    ensures
        forall|i: int| 0 <= i < walked(items, w).len() ==> items.contains(
            #[trigger] walked(items, w)[i],
        ),
{
    let order = walked(items, w);
    assert forall|i: int| 0 <= i < order.len() implies items.contains(#[trigger] order[i]) by {
        assert(lists(order, items));
        assert(order.to_set().contains(order[i]));
    }
}

/// There is a walk for every order.
pub proof fn lemma_walk_along<T>(items: Set<T>, order: Seq<T>, parts: Seq<Walk>)
    requires
        lists(order, items),
    ensures
        walked(items, walk_along(items, order, parts)) == order,
{
    let w = walk_along(items, order, parts);
    let some = some_order(items);
    let made = Seq::new(w.order.len(), |i: int| some[w.order[i] as int]);
    assert forall|i: int| 0 <= i < order.len() implies #[trigger] made[i] == order[i] by {
        assert(order.to_set().contains(order[i]));
        assert(some.to_set().contains(order[i]));
        assert(some.contains(order[i]));
    }
    assert(made =~= order);
}

/// Items with the trees that a walk says.
pub open spec fn unknown_items<T: Modeled>(w: Walk) -> Seq<T> {
    choose|items: Seq<T>| item_vals(items, w) == w.kids
}

/// The walk along these items, of which nothing is known.
pub open spec fn walk_unknown<T: Modeled>(items: Seq<T>, u: Walk) -> Walk {
    Walk { order: seq![], kids: item_vals(items, u), parts: u.parts }
}

/// What items append rests on their trees alone.
proof fn lemma_unknown_items<T: SerializeColumns>(items: Seq<T>, u: Walk)
    requires
        forall|x: T| #[trigger] x.writes(),
    ensures
        list_image(unknown_items::<T>(walk_unknown(items, u)), walk_unknown(items, u))
            == list_image(items, u),
{
    let w = walk_unknown(items, u);
    assert(item_vals(items, w) =~= item_vals(items, u));
    let others = unknown_items::<T>(w);
    let s = <Vec<T>>::node();
    let v = Val { head: Head::Sequence, kids: w.kids };
    let width = width_of(s);
    let row = Row { cols: blank(width), book: Seq::new(width, |c: int| Seq::<u64>::empty()) };
    lemma_list_image(items, w, v, s, 0, row);
    lemma_list_image(others, w, v, s, 0, row);
    lemma_same_images(items, u, w, items.len());
    lemma_unstamped(row, list_image(items, w), list_image(others, w));
}

/// What is appended can be told from the columns.
pub(crate) proof fn lemma_unstamped(row: Row, a: Seq<Seq<u8>>, b: Seq<Seq<u8>>)
    requires
        row.cols == blank(row.cols.len()),
        a.len() == row.cols.len(),
        b.len() == row.cols.len(),
        stamped(row, 0, a) == stamped(row, 0, b),
    ensures
        a == b,
{
    let (x, y) = (stamped(row, 0, a).cols, stamped(row, 0, b).cols);
    assert forall|c: int| 0 <= c < a.len() implies a[c] == b[c] by {
        assert(x[c] =~= a[c]);
        assert(y[c] =~= b[c]);
    }
    assert(a =~= b);
}

/// The items of an ordered set, from the least to the greatest.
fn ordered_refs<T: Ord>(items: &BTreeSet<T>) -> (result: Vec<&T>)
    ensures
        obeys_cmp::<T>() ==> result@.unref() == in_order(items@),
{
    broadcast use vstd::std_specs::btree::group_btree_axioms;

    let walk = items.iter();
    let out = gather(walk, items.len());
    let ghost all = out@;
    proof {
        if obeys_cmp::<T>() {
            lemma_refs_obey::<T>();
            assert(rises(all.unref())) by {
                assert forall|a: int, b: int|
                    #![trigger all.unref()[a], all.unref()[b]]
                    0 <= a < b < all.len() implies vstd::std_specs::cmp::OrdSpec::cmp_spec(
                    &all.unref()[a],
                    &all.unref()[b],
                ) is Less by {
                    assert(vstd::std_specs::cmp::OrdSpec::cmp_spec(&all[a], &all[b]) is Less);
                }
            }
            lemma_in_order(all.unref());
        }
    }
    out
}

/// The set is what is read from a tree: it holds the items of the list. Where
/// nothing is known of how items are told apart, nothing is known of the set.
pub open spec fn collected<T: Modeled>(made: Set<T>, faithful: bool, v: Val) -> bool {
    &&& v.head is Sequence
    &&& exists|items: Seq<T>| #[trigger]
        all_stand(items, v.kids) && (faithful ==> made == items.to_set())
}

/// The items of an ordered set in the order in which it is walked. Where nothing
/// is known of how items are ordered, nothing is known of the items.
pub open spec fn rising<T: Ord + Modeled>(items: Set<T>, w: Walk) -> Seq<T> {
    if obeys_cmp::<T>() {
        in_order(items)
    } else {
        unknown_items(w)
    }
}

impl<T: Ord + Modeled> Modeled for BTreeSet<T> {
    open spec fn val(&self, w: Walk) -> Val {
        Val { head: Head::Sequence, kids: item_vals(rising(self@, w), w) }
    }

    open spec fn stands_for(&self, v: Val) -> bool {
        collected(self@, obeys_cmp::<T>(), v)
    }
}

impl<T: Ord + SerializeColumns> SerializeColumns for BTreeSet<T> {
    open spec fn writes(&self) -> bool {
        if obeys_cmp::<T>() {
            all_write(in_order(self@))
        } else {
            forall|x: T| #[trigger] x.writes()
        }
    }

    open spec fn refusal(&self) -> Option<Fault> {
        if obeys_cmp::<T>() {
            first_refusal(in_order(self@), 0)
        } else {
            None
        }
    }

    open spec fn image(&self, w: Walk) -> Seq<Seq<u8>> {
        list_image(rising(self@, w), w)
    }

    proof fn lemma_image(&self, w: Walk, base: nat, row: Row) {
        lemma_list_image(rising(self@, w), w, self.val(w), Self::node(), base, row);
    }

    fn serialize_columns(&self, columns: &mut [Vec<u8>]) -> (result: Result<()>) {
        let refs = ordered_refs(self);
        proof {
            lemma_one_kid_columns(Self::node());
        }
        let ghost items = refs@.unref();
        proof {
            if obeys_cmp::<T>() {
                assert forall|w: Walk| #[trigger] list_image(items, w) == self.image(w) by {}
            } else if self.writes() {
                assert forall|u: Walk| #[trigger] list_image(items, u) == self.image(
                    walk_unknown(items, u),
                ) by {
                    lemma_unknown_items(items, u);
                }
            }
        }
        write_list(refs, columns, Ghost(items))
    }
}

impl<'de, T: Ord + RoundTrip<'de>> RoundTrip<'de> for BTreeSet<T> {
    proof fn lemma_read_back(&self, w: Walk, cur: Cur) {
        lemma_vec_back(rising(self@, w), w, self.val(w), cur);
    }
}

impl<'de, T: Ord + DeserializeColumns<'de>> DeserializeColumns<'de> for BTreeSet<T> {
    open spec fn sound() -> bool {
        T::sound()
    }

    open spec fn read(cur: Cur) -> std::result::Result<(Val, Cur), Fault> {
        <Vec<T>>::read(cur)
    }

    proof fn lemma_read(base: nat, cur: Cur) {
        <Vec<T>>::lemma_read(base, cur);
    }

    fn deserialize_columns(cursors: &mut [ColumnCursor<'de>]) -> (result: Result<Self>) {
        let items = match <Vec<T>>::deserialize_columns(cursors) {
            Ok(items) => items,
            Err(error) => return Err(error),
        };
        let ghost all = items@;
        let mut rest: VecDeque<T> = queue(items);
        let mut out: BTreeSet<T> = BTreeSet::new();
        assert(all.subrange(0, 0).to_set() =~= Set::<T>::empty());
        assert(all.skip(0) =~= all);
        while rest.len() > 0
            invariant
                rest@.len() <= all.len(),
                rest@ == all.skip(all.len() - rest@.len()),
                obeys_cmp::<T>() ==> out@ == all.subrange(0, all.len() - rest@.len()).to_set(),
            decreases rest@.len(),
        {
            let ghost before = rest@;
            match rest.pop_front() {
                Some(item) => {
                    proof {
                        let k = all.len() - before.len();
                        lemma_one_more(all, k);
                        assert(item == all[k]);
                        assert(rest@ =~= all.skip(k + 1));
                    }
                    out.insert(item);
                },
                None => {},
            }
        }
        assert(all.subrange(0, all.len() - rest@.len()) =~= all);
        Ok(out)
    }
}

/// A list with one more item holds one more item.
proof fn lemma_one_more<T>(items: Seq<T>, k: int)
    requires
        0 <= k < items.len(),
    ensures
        items.subrange(0, k + 1).to_set() == items.subrange(0, k).to_set().insert(items[k]),
{
    let (x, y) = (items.subrange(0, k), items.subrange(0, k + 1));
    assert forall|a: T| y.to_set().contains(a) == x.to_set().insert(items[k]).contains(a) by {
        if y.contains(a) {
            let i = y.index_of(a);
            if i < k {
                assert(x[i] == a);
            }
        }
        if x.contains(a) {
            let i = x.index_of(a);
            assert(y[i] == a);
        }
        assert(y[k] == items[k]);
    }
    assert(y.to_set() =~= x.to_set().insert(items[k]));
}

/// The items of a hash set, in the order in which it is walked.
fn hashed_refs<T, S>(items: &HashSet<T, S>) -> (result: Vec<&T>)
    ensures
        obeys_key_model::<T>() && builds_valid_hashers::<S>() ==> lists(result@.unref(), items@),
{
    broadcast use vstd::std_specs::hash::group_hash_axioms;

    let walk = items.iter();
    let out = gather(walk, items.len());
    let ghost all = out@;
    proof {
        if obeys_key_model::<T>() && builds_valid_hashers::<S>() {
            assert(all.unref().no_duplicates()) by {
                assert forall|a: int, b: int|
                    0 <= a < all.len() && 0 <= b < all.len() && a != b implies all.unref()[a]
                    != all.unref()[b] by {
                    assert(all[a] != all[b]);
                }
            }
        }
    }
    out
}

/// Some item is refused, and every item is written or refused with this.
pub open spec fn refused_alike<T: SerializeColumns>(items: Set<T>, fault: Fault) -> bool {
    &&& exists|x: T| items.contains(x) && !(#[trigger] x.writes())
    &&& forall|x: T|
        items.contains(x) ==> #[trigger] x.writes() || x.refusal() == Some(fault)
}

/// What the items of a set are refused with in whatever order it is walked,
/// where that is known.
pub open spec fn sole_refusal<T: SerializeColumns>(items: Set<T>) -> Option<Fault> {
    if exists|fault: Fault| refused_alike(items, fault) {
        Some(choose|fault: Fault| refused_alike(items, fault))
    } else {
        None
    }
}

/// Items that are refused alike are refused so in every order.
pub(crate) proof fn lemma_refused_alike<T: SerializeColumns>(
    order: Seq<T>,
    items: Set<T>,
    fault: Fault,
    i: nat,
    at: nat,
)
    requires
        order.to_set() == items,
        refused_alike(items, fault),
        i <= at < order.len(),
        !order[at as int].writes(),
    ensures
        first_refusal(order, i) == Some(fault),
    decreases order.len() - i,
{
    let x = order[i as int];
    assert(order.to_set().contains(x));
    if x.writes() {
        lemma_refused_alike(order, items, fault, i + 1, at);
    }
}

/// The same, in every order of a set.
pub(crate) proof fn lemma_sole_refusal<T: SerializeColumns>(order: Seq<T>, items: Set<T>)
    requires
        order.to_set() == items,
        sole_refusal(items) is Some,
    ensures
        first_refusal(order, 0) == sole_refusal(items),
{
    let fault = choose|fault: Fault| refused_alike(items, fault);
    let x = choose|x: T| items.contains(x) && !(#[trigger] x.writes());
    assert(order.to_set().contains(x));
    lemma_refused_alike(order, items, fault, 0, order.index_of(x) as nat);
}

/// The items of a hash set in the order in which it is walked. Where nothing is
/// known of how items are hashed, nothing is known of the items.
pub open spec fn strewn<T: Modeled, S>(items: Set<T>, w: Walk) -> Seq<T> {
    if obeys_key_model::<T>() && builds_valid_hashers::<S>() {
        walked(items, w)
    } else {
        unknown_items(w)
    }
}

impl<T: Modeled, S> Modeled for HashSet<T, S> {
    open spec fn val(&self, w: Walk) -> Val {
        Val { head: Head::Sequence, kids: item_vals(strewn::<T, S>(self@, w), w) }
    }

    open spec fn stands_for(&self, v: Val) -> bool {
        collected(self@, obeys_key_model::<T>() && builds_valid_hashers::<S>(), v)
    }
}

impl<T: SerializeColumns, S> SerializeColumns for HashSet<T, S> {
    open spec fn writes(&self) -> bool {
        if obeys_key_model::<T>() && builds_valid_hashers::<S>() {
            forall|x: T| self@.contains(x) ==> #[trigger] x.writes()
        } else {
            forall|x: T| #[trigger] x.writes()
        }
    }

    open spec fn refusal(&self) -> Option<Fault> {
        if obeys_key_model::<T>() && builds_valid_hashers::<S>() {
            sole_refusal(self@)
        } else {
            None
        }
    }

    open spec fn image(&self, w: Walk) -> Seq<Seq<u8>> {
        list_image(strewn::<T, S>(self@, w), w)
    }

    proof fn lemma_image(&self, w: Walk, base: nat, row: Row) {
        lemma_walked(self@, w);
        lemma_list_image(strewn::<T, S>(self@, w), w, self.val(w), Self::node(), base, row);
    }

    fn serialize_columns(&self, columns: &mut [Vec<u8>]) -> (result: Result<()>) {
        let refs = hashed_refs(self);
        proof {
            lemma_one_kid_columns(Self::node());
        }
        let ghost items = refs@.unref();
        proof {
            if self.refusal() is Some {
                lemma_sole_refusal(items, self@);
            }
            if !(obeys_key_model::<T>() && builds_valid_hashers::<S>()) {
                if self.writes() {
                    assert forall|u: Walk| #[trigger] list_image(items, u) == self.image(
                        walk_unknown(items, u),
                    ) by {
                        lemma_unknown_items(items, u);
                    }
                }
            } else if self.writes() {
                assert forall|i: int| 0 <= i < items.len() implies (#[trigger] items[i]).writes() by {
                    assert(items.to_set().contains(items[i]));
                }
                assert forall|u: Walk| #[trigger] list_image(items, u) == self.image(
                    walk_along(self@, items, u.parts),
                ) by {
                    let w = walk_along(self@, items, u.parts);
                    lemma_walk_along(self@, items, u.parts);
                    lemma_same_images(items, u, w, items.len());
                }
            }
        }
        write_list(refs, columns, Ghost(items))
    }
}

impl<'de, T, S> DeserializeColumns<'de> for HashSet<T, S> where
    T: Hash + Eq + DeserializeColumns<'de>,
    S: BuildHasher + Default,
 {
    open spec fn sound() -> bool {
        T::sound()
    }

    open spec fn read(cur: Cur) -> std::result::Result<(Val, Cur), Fault> {
        <Vec<T>>::read(cur)
    }

    proof fn lemma_read(base: nat, cur: Cur) {
        <Vec<T>>::lemma_read(base, cur);
    }

    fn deserialize_columns(cursors: &mut [ColumnCursor<'de>]) -> (result: Result<Self>) {
        let items = match <Vec<T>>::deserialize_columns(cursors) {
            Ok(items) => items,
            Err(error) => return Err(error),
        };
        let ghost all = items@;
        let mut rest: VecDeque<T> = queue(items);
        let mut out: HashSet<T, S> = HashSet::default();
        assert(all.subrange(0, 0).to_set() =~= Set::<T>::empty());
        assert(all.skip(0) =~= all);
        while rest.len() > 0
            invariant
                rest@.len() <= all.len(),
                rest@ == all.skip(all.len() - rest@.len()),
                obeys_key_model::<T>() && builds_valid_hashers::<S>() ==> out@ == all.subrange(
                    0,
                    all.len() - rest@.len(),
                ).to_set(),
            decreases rest@.len(),
        {
            let ghost before = rest@;
            match rest.pop_front() {
                Some(item) => {
                    proof {
                        let k = all.len() - before.len();
                        lemma_one_more(all, k);
                        assert(item == all[k]);
                        assert(rest@ =~= all.skip(k + 1));
                    }
                    out.insert(item);
                },
                None => {},
            }
        }
        assert(all.subrange(0, all.len() - rest@.len()) =~= all);
        Ok(out)
    }
}

impl<'de, T, S> RoundTrip<'de> for HashSet<T, S> where
    T: Hash + Eq + RoundTrip<'de>,
    S: BuildHasher + Default,
 {
    proof fn lemma_read_back(&self, w: Walk, cur: Cur) {
        lemma_walked(self@, w);
        lemma_vec_back(strewn::<T, S>(self@, w), w, self.val(w), cur);
    }
}

/// No two values of the type can be read from the same tree of one of them.
pub open spec fn told_apart<T: Modeled>() -> bool {
    forall|a: T, b: T, w: Walk| #[trigger] a.stands_for(b.val(w)) ==> a == b
}

/// A finite set has some order.
proof fn lemma_some_order<T>(items: Set<T>)
    requires
        items.finite(),
    ensures
        lists(some_order(items), items),
    decreases items.len(),
{
    if items.len() == 0 {
        assert(items =~= Set::empty());
        assert(lists(Seq::<T>::empty(), items)) by {
            assert(Seq::<T>::empty().to_set() =~= items);
        }
    } else {
        let x = items.choose();
        let rest = items.remove(x);
        lemma_some_order(rest);
        let order = some_order(rest);
        let longer = order.push(x);
        assert(order.to_set().contains(x) == order.contains(x));
        assert forall|a: T| longer.to_set().contains(a) == items.contains(a) by {
            if longer.contains(a) {
                let i = longer.index_of(a);
                if i < order.len() {
                    assert(order[i] == a);
                    assert(order.to_set().contains(a));
                }
            }
            if items.contains(a) && a != x {
                assert(order.to_set().contains(a));
                let i = order.index_of(a);
                assert(longer[i] == a);
            }
            assert(longer[order.len() as int] == x);
        }
        assert(longer.to_set() =~= items);
        assert(lists(longer, items));
    }
}

/// A walk of a finite set lists its items.
pub proof fn lemma_walk_lists<T>(items: Set<T>, w: Walk)
    requires
        items.finite(),
    ensures
        lists(walked(items, w), items),
{
    lemma_some_order(items);
}

/// A set that is read from a list of the items of another holds the same.
proof fn lemma_collected<T: Modeled>(made: Set<T>, order: Seq<T>, w: Walk)
    requires
        told_apart::<T>(),
        collected(made, true, Val { head: Head::Sequence, kids: item_vals(order, w) }),
    ensures
        made == order.to_set(),
{
    let kids = item_vals(order, w);
    let items = choose|items: Seq<T>| #[trigger]
        all_stand(items, kids) && made == items.to_set();
    assert forall|i: int| 0 <= i < items.len() implies items[i] == order[i] by {
        assert(items[i].stands_for(order[i].val(w.part(i))));
    }
    assert(items =~= order);
}

/// An ordered set comes back from the tree that it is written as: what is read
/// from it holds the same items, where the tree of an item fixes it.
pub proof fn lemma_ordered_set_back<T: Ord + Modeled>(
    made: &BTreeSet<T>,
    items: &BTreeSet<T>,
    w: Walk,
)
    requires
        obeys_cmp::<T>(),
        obeys_concrete_eq::<T>(),
        told_apart::<T>(),
        items@.finite(),
        made.stands_for(items.val(w)),
    ensures
        made@ == items@,
{
    lemma_has_order(items@);
    lemma_collected(made@, in_order(items@), w);
}

/// A hash set comes back from the tree that it is written as, in whatever order
/// it is walked: what is read from it holds the same items, where the tree of
/// an item fixes it.
pub proof fn lemma_hash_set_back<T: Modeled, S>(
    made: &HashSet<T, S>,
    items: &HashSet<T, S>,
    w: Walk,
)
    requires
        obeys_key_model::<T>(),
        builds_valid_hashers::<S>(),
        told_apart::<T>(),
        items@.finite(),
        made.stands_for(items.val(w)),
    ensures
        made@ == items@,
{
    lemma_walk_lists(items@, w);
    lemma_collected(made@, walked(items@, w), w);
}

} // verus!
