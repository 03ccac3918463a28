//! The columnar fast path for maps.
//!
//! A map is written as the list of its entries: an ordered map by the order of
//! its keys, a hash map in whatever order it is walked. The columns of an entry
//! are those of its key and then those of its value, as for a pair. Reading
//! inserts the entries one after another, so the last of a key stays.

use std::collections::{BTreeMap, HashMap, VecDeque};
use std::hash::{BuildHasher, Hash};

use vstd::laws_cmp::obeys_cmp;
use vstd::laws_eq::obeys_concrete_eq;
use vstd::prelude::*;
use vstd::std_specs::hash::{builds_valid_hashers, obeys_key_model};
use vstd::std_specs::iter::IteratorSpec;

use crate::columnar::ColumnCursor;
use crate::entries::{
    entries_stand, entry_stands, entry_vals_of, lemma_entries_image, lemma_mapping_back,
    lemma_mapping_read, read_mapping, take_entries, write_entries,
};
use crate::error::{Fault, Result};
use crate::get::Cur;
use crate::ordered::{
    entries_in_order, in_order, lemma_has_order, lemma_in_order, lemma_rising_once, rises,
};
use crate::put::Row;
use crate::shape::{lemma_two_kids_columns, width_of, Shape};
use crate::static_schema::StaticSchema;
use crate::typed_de::{DeserializeColumns, RoundTrip};
use crate::typed_ser::{
    all_write, blank, first_refusal, lemma_same_images, Modeled, SerializeColumns, Walk,
};
use crate::typed_sets::{
    lemma_sole_refusal, lemma_unstamped, lemma_walk_along, lemma_walk_lists, lemma_walked, lists, sole_refusal, told_apart,
    walk_along, walked,
};
use crate::typed_std::{gather, list_image, queue};
use crate::value::{Head, Val};

verus! {

/// The entries of an ordered map, by the order of the keys.
fn ordered_entries<K: Ord, V>(map: &BTreeMap<K, V>) -> (result: Vec<(&K, &V)>)
    ensures
        obeys_cmp::<K>() ==> result@.unref() == entries_in_order(map@),
{
    broadcast use vstd::std_specs::btree::group_btree_axioms;

    let walk = map.iter();
    let out = gather(walk, map.len());
    let ghost all = out@;
    assert(obeys_cmp::<K>() ==> vstd::std_specs::btree::increasing_seq(
        all.map_values(|kv: (&K, &V)| *kv.0),
    ));
    assert(obeys_cmp::<K>() ==> forall|i: int|
        0 <= i < all.len() ==> map@.contains_key(*(#[trigger] all[i]).0) && map@[*all[i].0]
            == *all[i].1) by {
        assert forall|i: int| obeys_cmp::<K>() && 0 <= i < all.len() implies map@.contains_key(
            *(#[trigger] all[i]).0,
        ) && map@[*all[i].0] == *all[i].1 by {
            assert(map@.contains_key(*all[i].0));
        }
    }
    assert(obeys_cmp::<K>() ==> forall|k: K| #[trigger]
        map@.contains_key(k) ==> all.contains((&k, &map@[k])));
    proof {
        if obeys_cmp::<K>() {
            let keys = all.map_values(|kv: (&K, &V)| *kv.0);
            assert(rises(keys));
            assert forall|k: K| keys.to_set().contains(k) == map@.dom().contains(k) by {
                if keys.contains(k) {
                    let i = keys.index_of(k);
                    assert(map@.contains_key(*all[i].0));
                }
                if map@.contains_key(k) {
                    let i = all.index_of((&k, &map@[k]));
                    assert(keys[i] == k);
                }
            }
            assert(keys.to_set() =~= map@.dom());
            lemma_in_order(keys);
            assert(all.unref() =~= entries_in_order(map@)) by {
                assert forall|i: int| 0 <= i < all.len() implies all.unref()[i]
                    == entries_in_order(map@)[i] by {
                    assert(keys[i] == *all[i].0);
                    assert(map@.contains_key(*all[i].0));
                }
            }
        }
    }
    out
}

/// The map after the first `n` entries were inserted one after another.
pub open spec fn inserted<K, V>(entries: Seq<(K, V)>, n: nat) -> Map<K, V>
    decreases n,
{
    if n == 0 {
        Map::empty()
    } else {
        inserted(entries, (n - 1) as nat).insert(entries[n - 1].0, entries[n - 1].1)
    }
}

/// Where a key occurs more than once, its last value stays: the map has the keys
/// of the entries, each with the value of the last entry that has it.
pub proof fn lemma_last_stays<K, V>(entries: Seq<(K, V)>, n: nat, k: K)
    requires
        n <= entries.len(),
    ensures
        inserted(entries, n).contains_key(k) <==> exists|i: int|
            0 <= i < n && (#[trigger] entries[i]).0 == k,
        inserted(entries, n).contains_key(k) ==> exists|i: int|
            0 <= i < n && (#[trigger] entries[i]).0 == k && inserted(entries, n)[k] == entries[i].1
                && forall|j: int| i < j < n ==> (#[trigger] entries[j]).0 != k,
    decreases n,
{
    if n > 0 {
        let m = (n - 1) as nat;
        lemma_last_stays(entries, m, k);
        if entries[m as int].0 == k {
            assert(inserted(entries, n)[k] == entries[m as int].1);
        } else if inserted(entries, m).contains_key(k) {
            let i = choose|i: int|
                0 <= i < m && (#[trigger] entries[i]).0 == k && inserted(entries, m)[k]
                    == entries[i].1 && forall|j: int|
                    i < j < m ==> (#[trigger] entries[j]).0 != k;
            assert(entries[i].0 == k && inserted(entries, n)[k] == entries[i].1);
        }
    }
}

/// The map is what is read from a tree: the entries, inserted one after
/// another. Where nothing is known of how keys are told apart, nothing is known
/// of the map.
pub open spec fn filled<K: Modeled, V: Modeled>(made: Map<K, V>, faithful: bool, v: Val) -> bool {
    &&& v.head is Mapping
    &&& exists|entries: Seq<(K, V)>| #[trigger]
        entries_stand(entries, v.kids) && (faithful ==> made == inserted(entries, entries.len()))
}

/// Entries with the trees that a walk says.
pub open spec fn unknown_entries<K: Modeled, V: Modeled>(w: Walk) -> Seq<(K, V)> {
    choose|entries: Seq<(K, V)>| entry_vals_of(entries, w) == w.kids
}

/// The walk along these entries, of which nothing is known.
pub open spec fn walk_unknown<K: Modeled, V: Modeled>(entries: Seq<(K, V)>, u: Walk) -> Walk {
    Walk { order: seq![], kids: entry_vals_of(entries, u), parts: u.parts }
}

/// What entries append rests on their trees alone.
proof fn lemma_unknown_entries<K: SerializeColumns, V: SerializeColumns>(
    entries: Seq<(K, V)>,
    s: Shape,
    u: Walk,
)
    requires
        forall|k: K| #[trigger] k.writes(),
        forall|v: V| #[trigger] v.writes(),
        s.kind is Mapping,
        s.kids == seq![K::node(), V::node()],
    ensures
        list_image(unknown_entries::<K, V>(walk_unknown(entries, u)), walk_unknown(entries, u))
            == list_image(entries, u),
{
    let w = walk_unknown(entries, u);
    assert(entry_vals_of(entries, w) =~= entry_vals_of(entries, u));
    let others = unknown_entries::<K, V>(w);
    let v = Val { head: Head::Mapping, kids: w.kids };
    let width = width_of(s);
    let row = Row { cols: blank(width), book: Seq::new(width, |c: int| Seq::<u64>::empty()) };
    lemma_entries_image(entries, w, v, s, 0, row);
    lemma_entries_image(others, w, v, s, 0, row);
    lemma_same_images(entries, u, w, entries.len());
    lemma_unstamped(row, list_image(entries, w), list_image(others, w));
}

/// The entries of an ordered map in the order in which it is walked. Where
/// nothing is known of how keys are ordered, nothing is known of the entries.
pub open spec fn entries_rising<K: Ord + Modeled, V: Modeled>(
    map: Map<K, V>,
    w: Walk,
) -> Seq<(K, V)> {
    if obeys_cmp::<K>() {
        entries_in_order(map)
    } else {
        unknown_entries(w)
    }
}

impl<K: Ord + Modeled, V: Modeled> Modeled for BTreeMap<K, V> {
    open spec fn val(&self, w: Walk) -> Val {
        Val { head: Head::Mapping, kids: entry_vals_of(entries_rising(self@, w), w) }
    }

    open spec fn stands_for(&self, v: Val) -> bool {
        filled(self@, obeys_cmp::<K>(), v)
    }
}

impl<K: Ord + SerializeColumns, V: SerializeColumns> SerializeColumns for BTreeMap<K, V> {
    open spec fn writes(&self) -> bool {
        if obeys_cmp::<K>() {
            all_write(entries_in_order(self@))
        } else {
            &&& forall|k: K| #[trigger] k.writes()
            &&& forall|v: V| #[trigger] v.writes()
        }
    }

    open spec fn refusal(&self) -> Option<Fault> {
        if obeys_cmp::<K>() {
            first_refusal(entries_in_order(self@), 0)
        } else {
            None
        }
    }

    open spec fn image(&self, w: Walk) -> Seq<Seq<u8>> {
        list_image(entries_rising(self@, w), w)
    }

    proof fn lemma_image(&self, w: Walk, base: nat, row: Row) {
        lemma_entries_image(entries_rising(self@, w), w, self.val(w), Self::node(), base, row);
    }

    fn serialize_columns(&self, columns: &mut [Vec<u8>]) -> (result: Result<()>) {
        let refs = ordered_entries(self);
        proof {
            lemma_two_kids_columns(Self::node());
            let entries = refs@.unref();
            if obeys_cmp::<K>() {
                assert forall|w: Walk| #[trigger] list_image(entries, w) == self.image(w) by {}
            } else if self.writes() {
                assert forall|u: Walk| #[trigger] list_image(entries, u) == self.image(
                    walk_unknown(entries, u),
                ) by {
                    lemma_unknown_entries(entries, Self::node(), u);
                }
            }
        }
        write_entries(refs, columns)
    }
}

impl<'de, K, V> RoundTrip<'de> for BTreeMap<K, V> where
    K: Ord + RoundTrip<'de>,
    V: RoundTrip<'de>,
 {
    proof fn lemma_read_back(&self, w: Walk, cur: Cur) {
        lemma_mapping_back(entries_rising(self@, w), w, self.val(w), Self::node(), cur);
    }
}

impl<'de, K, V> DeserializeColumns<'de> for BTreeMap<K, V> where
    K: Ord + DeserializeColumns<'de>,
    V: DeserializeColumns<'de>,
 {
    open spec fn sound() -> bool {
        K::sound() && V::sound()
    }

    open spec fn read(cur: Cur) -> std::result::Result<(Val, Cur), Fault> {
        read_mapping::<K, V>(cur)
    }

    proof fn lemma_read(base: nat, cur: Cur) {
        lemma_mapping_read::<K, V>(Self::node(), base, cur);
    }

    fn deserialize_columns(cursors: &mut [ColumnCursor<'de>]) -> (result: Result<Self>) {
        proof {
            lemma_two_kids_columns(Self::node());
        }
        let entries = match take_entries::<K, V>(cursors) {
            Ok(entries) => entries,
            Err(error) => return Err(error),
        };
        let ghost all = entries@;
        let mut rest: VecDeque<(K, V)> = queue(entries);
        let mut out: BTreeMap<K, V> = BTreeMap::new();
        let ghost mut done: nat = 0;
        assert(all.skip(0) =~= all);
        while rest.len() > 0
            invariant
                done + rest@.len() == all.len(),
                rest@ == all.skip(done + 0int),
                obeys_cmp::<K>() ==> out@ == inserted(all, done),
            decreases rest@.len(),
        {
            match rest.pop_front() {
                Some(item) => {
                    proof {
                        assert(item == all[done + 0int]);
                        assert(rest@ =~= all.skip(done + 1int));
                        done = done + 1;
                    }
                    out.insert(item.0, item.1);
                },
                None => {},
            }
        }
        Ok(out)
    }
}

/// The entries of a hash map, in the order in which it is walked.
fn hashed_entries<K, V, S>(map: &HashMap<K, V, S>) -> (result: Vec<(&K, &V)>)
    ensures
        obeys_key_model::<K>() && builds_valid_hashers::<S>() ==> lists(
            result@.unref(),
            map@.kv_pairs(),
        ),
{
    broadcast use vstd::std_specs::hash::group_hash_axioms;

    let walk = map.iter();
    let out = gather(walk, map.len());
    let ghost all = out@;
    assert(obeys_key_model::<K>() && builds_valid_hashers::<S>() ==> all.no_duplicates());
    assert(obeys_key_model::<K>() && builds_valid_hashers::<S>() ==> all.unref().to_set()
        == map@.kv_pairs());
    proof {
        if obeys_key_model::<K>() && builds_valid_hashers::<S>() {
            assert forall|a: int, b: int|
                0 <= a < all.len() && 0 <= b < all.len() && a != b implies all.unref()[a]
                != all.unref()[b] by {
                assert(all[a] != all[b]);
            }
        }
    }
    out
}

/// A list of the entries of a map lists its keys.
proof fn lemma_listed_keys<K, V>(map: Map<K, V>, entries: Seq<(K, V)>)
    requires
        lists(entries, map.kv_pairs()),
    ensures
        lists(entries.map_values(|e: (K, V)| e.0), map.dom()),
        forall|i: int| 0 <= i < entries.len() ==> map.contains_key((#[trigger] entries[i]).0)
            && map[entries[i].0] == entries[i].1,
{
    let keys = entries.map_values(|e: (K, V)| e.0);
    assert forall|i: int| 0 <= i < entries.len() implies map.contains_key(
        (#[trigger] entries[i]).0,
    ) && map[entries[i].0] == entries[i].1 by {
        assert(entries.to_set().contains(entries[i]));
    }
    assert forall|a: int, b: int|
        0 <= a < keys.len() && 0 <= b < keys.len() && a != b implies keys[a] != keys[b] by {
        assert(entries[a] != entries[b]);
    }
    assert forall|k: K| keys.to_set().contains(k) == map.dom().contains(k) by {
        if keys.contains(k) {
            let i = keys.index_of(k);
            assert(map.contains_key(entries[i].0));
        }
        if map.contains_key(k) {
            assert(map.kv_pairs().contains((k, map[k])));
            assert(entries.to_set().contains((k, map[k])));
            let i = entries.index_of((k, map[k]));
            assert(keys[i] == k);
        }
    }
    assert(keys.to_set() =~= map.dom());
}

/// The entries of a map in the order that a walk says.
pub open spec fn entries_walked<K, V>(map: Map<K, V>, w: Walk) -> Seq<(K, V)> {
    let keys = walked(map.dom(), w);
    Seq::new(keys.len(), |i: int| (keys[i], map[keys[i]]))
}

/// The entries of a hash map in the order in which it is walked. Where nothing
/// is known of how keys are hashed, nothing is known of the entries.
pub open spec fn entries_strewn<K: Modeled, V: Modeled, S>(map: Map<K, V>, w: Walk) -> Seq<(K, V)> {
    if obeys_key_model::<K>() && builds_valid_hashers::<S>() {
        entries_walked(map, w)
    } else {
        unknown_entries(w)
    }
}

impl<K: Modeled, V: Modeled, S> Modeled for HashMap<K, V, S> {
    open spec fn val(&self, w: Walk) -> Val {
        Val { head: Head::Mapping, kids: entry_vals_of(entries_strewn::<K, V, S>(self@, w), w) }
    }

    open spec fn stands_for(&self, v: Val) -> bool {
        filled(self@, obeys_key_model::<K>() && builds_valid_hashers::<S>(), v)
    }
}

/// A walk holds entries of the map only.
proof fn lemma_entries_walked<K, V>(map: Map<K, V>, w: Walk)
    ensures
        forall|i: int|
            0 <= i < entries_walked(map, w).len() ==> {
                let e = #[trigger] entries_walked(map, w)[i];
                map.contains_key(e.0) && e.1 == map[e.0]
            },
{
    lemma_walked(map.dom(), w);
    let keys = walked(map.dom(), w);
    assert forall|i: int| 0 <= i < entries_walked(map, w).len() implies {
        let e = #[trigger] entries_walked(map, w)[i];
        map.contains_key(e.0) && e.1 == map[e.0]
    } by {
        assert(map.dom().contains(keys[i]));
    }
}

impl<K: SerializeColumns, V: SerializeColumns, S> SerializeColumns for HashMap<K, V, S> {
    open spec fn writes(&self) -> bool {
        if obeys_key_model::<K>() && builds_valid_hashers::<S>() {
            forall|k: K| #[trigger] self@.contains_key(k) ==> k.writes() && self@[k].writes()
        } else {
            &&& forall|k: K| #[trigger] k.writes()
            &&& forall|v: V| #[trigger] v.writes()
        }
    }

    open spec fn refusal(&self) -> Option<Fault> {
        if obeys_key_model::<K>() && builds_valid_hashers::<S>() {
            sole_refusal(self@.kv_pairs())
        } else {
            None
        }
    }

    open spec fn image(&self, w: Walk) -> Seq<Seq<u8>> {
        list_image(entries_strewn::<K, V, S>(self@, w), w)
    }

    proof fn lemma_image(&self, w: Walk, base: nat, row: Row) {
        lemma_entries_walked(self@, w);
        lemma_entries_image(entries_strewn::<K, V, S>(self@, w), w, self.val(w), Self::node(), base, row);
    }

    fn serialize_columns(&self, columns: &mut [Vec<u8>]) -> (result: Result<()>) {
        let refs = hashed_entries(self);
        proof {
            lemma_two_kids_columns(Self::node());
            let entries = refs@.unref();
            if self.refusal() is Some {
                lemma_sole_refusal(entries, self@.kv_pairs());
            }
            if !(obeys_key_model::<K>() && builds_valid_hashers::<S>()) {
                if self.writes() {
                    assert forall|u: Walk| #[trigger] list_image(entries, u) == self.image(
                        walk_unknown(entries, u),
                    ) by {
                        lemma_unknown_entries(entries, Self::node(), u);
                    }
                }
            } else if self.writes() {
                lemma_listed_keys(self@, entries);
                let keys = entries.map_values(|e: (K, V)| e.0);
                assert forall|i: int| 0 <= i < entries.len() implies (#[trigger] entries[i]).writes() by {
                    assert(self@.contains_key(entries[i].0));
                }
                assert forall|u: Walk| #[trigger] list_image(entries, u) == self.image(
                    walk_along(self@.dom(), keys, u.parts),
                ) by {
                    let w = walk_along(self@.dom(), keys, u.parts);
                    lemma_walk_along(self@.dom(), keys, u.parts);
                    assert(entries_walked(self@, w) =~= entries);
                    lemma_same_images(entries, u, w, entries.len());
                }
            }
        }
        write_entries(refs, columns)
    }
}

impl<'de, K, V, S> DeserializeColumns<'de> for HashMap<K, V, S> where
    K: Hash + Eq + DeserializeColumns<'de>,
    V: DeserializeColumns<'de>,
    S: BuildHasher + Default,
 {
    open spec fn sound() -> bool {
        K::sound() && V::sound()
    }

    open spec fn read(cur: Cur) -> std::result::Result<(Val, Cur), Fault> {
        read_mapping::<K, V>(cur)
    }

    proof fn lemma_read(base: nat, cur: Cur) {
        lemma_mapping_read::<K, V>(Self::node(), base, cur);
    }

    fn deserialize_columns(cursors: &mut [ColumnCursor<'de>]) -> (result: Result<Self>) {
        proof {
            lemma_two_kids_columns(Self::node());
        }
        let entries = match take_entries::<K, V>(cursors) {
            Ok(entries) => entries,
            Err(error) => return Err(error),
        };
        let ghost all = entries@;
        let mut rest: VecDeque<(K, V)> = queue(entries);
        let mut out: HashMap<K, V, S> = HashMap::default();
        let ghost mut done: nat = 0;
        assert(all.skip(0) =~= all);
        while rest.len() > 0
            invariant
                done + rest@.len() == all.len(),
                rest@ == all.skip(done + 0int),
                obeys_key_model::<K>() && builds_valid_hashers::<S>() ==> out@ == inserted(
                    all,
                    done,
                ),
            decreases rest@.len(),
        {
            match rest.pop_front() {
                Some(item) => {
                    proof {
                        assert(item == all[done + 0int]);
                        assert(rest@ =~= all.skip(done + 1int));
                        done = done + 1;
                    }
                    out.insert(item.0, item.1);
                },
                None => {},
            }
        }
        Ok(out)
    }
}

impl<'de, K, V, S> RoundTrip<'de> for HashMap<K, V, S> where
    K: Hash + Eq + RoundTrip<'de>,
    V: RoundTrip<'de>,
    S: BuildHasher + Default,
 {
    proof fn lemma_read_back(&self, w: Walk, cur: Cur) {
        lemma_entries_walked(self@, w);
        lemma_mapping_back(entries_strewn::<K, V, S>(self@, w), w, self.val(w), Self::node(), cur);
    }
}

/// Inserting entries with different keys keeps them all.
proof fn lemma_inserted<K, V>(entries: Seq<(K, V)>, n: nat)
    requires
        n <= entries.len(),
        forall|i: int, j: int| 0 <= i < j < entries.len() ==> entries[i].0 != entries[j].0,
    ensures
        forall|i: int| 0 <= i < n ==> inserted(entries, n).contains_key((#[trigger] entries[i]).0)
            && inserted(entries, n)[entries[i].0] == entries[i].1,
        forall|k: K| #[trigger]
            inserted(entries, n).contains_key(k) ==> exists|i: int|
                0 <= i < n && (#[trigger] entries[i]).0 == k,
    decreases n,
{
    if n > 0 {
        lemma_inserted(entries, (n - 1) as nat);
        assert forall|k: K| #[trigger] inserted(entries, n).contains_key(k) implies exists|i: int|
            0 <= i < n && (#[trigger] entries[i]).0 == k by {
            if k == entries[n - 1].0 {
            } else {
                assert(inserted(entries, (n - 1) as nat).contains_key(k));
            }
        }
    }
}

/// The maps have the same keys, and each value of the one is what is read from
/// a tree of the value of the other.
pub open spec fn same_entries<K, V: Modeled>(made: Map<K, V>, map: Map<K, V>) -> bool {
    &&& made.dom() == map.dom()
    &&& forall|k: K| #[trigger]
        map.contains_key(k) ==> exists|u: Walk| made[k].stands_for(#[trigger] map[k].val(u))
}

/// A map that is read from a list of the entries of another has the same.
proof fn lemma_filled<K: Modeled, V: Modeled>(
    made: Map<K, V>,
    map: Map<K, V>,
    keys: Seq<K>,
    entries: Seq<(K, V)>,
    w: Walk,
)
    requires
        told_apart::<K>(),
        lists(keys, map.dom()),
        entries == Seq::new(keys.len(), |i: int| (keys[i], map[keys[i]])),
        filled(made, true, Val { head: Head::Mapping, kids: entry_vals_of(entries, w) }),
    ensures
        same_entries(made, map),
{
    let kids = entry_vals_of(entries, w);
    let got = choose|got: Seq<(K, V)>| #[trigger]
        entries_stand(got, kids) && made == inserted(got, got.len());
    assert forall|i: int| 0 <= i < got.len() implies (#[trigger] got[i]).0 == keys[i]
        && got[i].1.stands_for(map[keys[i]].val(w.part(i).part(1))) by {
        assert(entry_stands(got[i], kids[i]));
        assert(got[i].0.stands_for(keys[i].val(w.part(i).part(0))));
    }
    assert forall|i: int, j: int| 0 <= i < j < got.len() implies got[i].0 != got[j].0 by {
        assert(keys[i] != keys[j]);
    }
    lemma_inserted(got, got.len());
    assert forall|k: K| made.dom().contains(k) == map.dom().contains(k) by {
        if map.dom().contains(k) {
            assert(keys.to_set().contains(k));
            let i = keys.index_of(k);
            assert(made.contains_key(got[i].0));
        }
        if made.contains_key(k) {
            let i = choose|i: int| 0 <= i < got.len() && (#[trigger] got[i]).0 == k;
            assert(keys.to_set().contains(keys[i]));
        }
    }
    assert(made.dom() =~= map.dom());
    assert forall|k: K| #[trigger] map.contains_key(k) implies exists|u: Walk|
        made[k].stands_for(#[trigger] map[k].val(u)) by {
        assert(keys.to_set().contains(k));
        let i = keys.index_of(k);
        assert(made[got[i].0] == got[i].1);
        assert(made[k].stands_for(map[k].val(w.part(i).part(1))));
    }
}

/// Where the tree of a value fixes it too, the two maps are the same.
pub proof fn lemma_same_map<K, V: Modeled>(made: Map<K, V>, map: Map<K, V>)
    requires
        told_apart::<V>(),
        same_entries(made, map),
    ensures
        made == map,
{
    assert forall|k: K| map.contains_key(k) implies #[trigger] made[k] == map[k] by {
        let u = choose|u: Walk| made[k].stands_for(#[trigger] map[k].val(u));
    }
    assert(made =~= map);
}

/// An ordered map comes back from the tree that it is written as: what is read
/// from it has the same entries, where the tree of a key fixes it.
pub proof fn lemma_ordered_map_back<K: Ord + Modeled, V: Modeled>(
    made: &BTreeMap<K, V>,
    map: &BTreeMap<K, V>,
    w: Walk,
)
    requires
        obeys_cmp::<K>(),
        obeys_concrete_eq::<K>(),
        told_apart::<K>(),
        made.stands_for(map.val(w)),
    ensures
        same_entries(made@, map@),
{
    broadcast use vstd::std_specs::btree::group_btree_axioms;

    let keys = in_order(map@.dom());
    lemma_has_order(map@.dom());
    lemma_rising_once(keys);
    lemma_filled(made@, map@, keys, entries_in_order(map@), w);
}

/// A hash map comes back from the tree that it is written as, in whatever order
/// it is walked: what is read from it has the same entries, where the tree of a
/// key fixes it.
pub proof fn lemma_hash_map_back<K: Modeled, V: Modeled, S>(
    made: &HashMap<K, V, S>,
    map: &HashMap<K, V, S>,
    w: Walk,
)
    requires
        obeys_key_model::<K>(),
        builds_valid_hashers::<S>(),
        told_apart::<K>(),
        map@.dom().finite(),
        made.stands_for(map.val(w)),
    ensures
        same_entries(made@, map@),
{
    lemma_walk_lists(map@.dom(), w);
    lemma_filled(made@, map@, walked(map@.dom(), w), entries_walked(map@, w), w);
}

} // verus!
