//! Shared-structure preservation: the per-row dictionaries.
//!
//! Within one row, each unique object is written once — a varint **key
//! column** (one entry per occurrence) plus the payload columns as a dense
//! **dictionary** (one entry per unique object, in first-occurrence order).
//! Keys are dense indices assigned at write time; identities are only
//! ephemeral and never reach the file.
//!
//! A position is the number of its key column, so positions are distinct and
//! an object shared between two positions stands in both dictionaries. Every
//! row starts with fresh dictionaries.

use std::collections::HashMap;

use vstd::prelude::*;
use vstd::std_specs::hash::*;

use crate::error::{Error, Fault, Result};
use crate::get::repeat_unavailable as unavailable;
use crate::put::place_of;
use crate::roundtrip::lemma_place;

verus! {

/// The dictionaries of the row being written.
pub struct WriteState {
    /// For each position, the keys assigned to objects.
    keys: Vec<HashMap<u64, u64>>,
    /// For each position, the objects in the order of their keys.
    order: Ghost<Seq<Seq<u64>>>,
}

impl View for WriteState {
    type V = Seq<Seq<u64>>;

    closed spec fn view(&self) -> Seq<Seq<u64>> {
        self.order@
    }
}

/// Which key an object has, and whether the row sees the object for the first
/// time.
#[derive(Debug, PartialEq)]
pub enum WriteKey {
    New(u64),
    Existing(u64),
}

/// The keys of one position agree with the order of its objects.
spec fn indexed(keys: Map<u64, u64>, order: Seq<u64>) -> bool {
    &&& keys.dom().finite()
    &&& keys.len() == order.len()
    &&& forall|id: u64| #[trigger]
        keys.contains_key(id) ==> place_of(order, id) == Some(keys[id] as nat)
    &&& forall|id: u64| place_of(order, id) is Some ==> #[trigger] keys.contains_key(id)
}

impl WriteState {
    /// The keys agree with the order of the objects.
    pub closed spec fn well_formed(&self) -> bool {
        &&& self.keys@.len() == self.order@.len()
        &&& forall|c: int|
            0 <= c < self.keys@.len() ==> indexed((#[trigger] self.keys@[c])@, self.order@[c])
    }

    /// Fresh dictionaries for a row of `columns` columns.
    pub fn new(columns: usize) -> (result: Self)
        ensures
            result.well_formed(),
            result@ == Seq::new(columns as nat, |c: int| Seq::<u64>::empty()),
    {
        broadcast use group_hash_axioms;

        let mut keys: Vec<HashMap<u64, u64>> = Vec::new();
        let ghost order = Seq::new(columns as nat, |c: int| Seq::<u64>::empty());
        let mut i: usize = 0;
        while i < columns
            invariant
                i <= columns,
                keys@.len() == i,
                forall|c: int| 0 <= c < i ==> (#[trigger] keys@[c])@ == Map::<u64, u64>::empty(),
            decreases columns - i,
        {
            keys.push(HashMap::new());
            i += 1;
        }
        WriteState { keys, order: Ghost(order) }
    }

    /// The key of an object at a position: the one it has, or the next one,
    /// which it then keeps.
    pub fn write_key(&mut self, position: usize, id: u64) -> (result: WriteKey)
        requires
            old(self).well_formed(),
            position < old(self)@.len(),
        ensures
            final(self).well_formed(),
            match result {
                WriteKey::Existing(key) => {
                    &&& place_of(old(self)@[position as int], id) == Some(key as nat)
                    &&& final(self)@ == old(self)@
                },
                WriteKey::New(key) => {
                    &&& place_of(old(self)@[position as int], id) is None
                    &&& key == old(self)@[position as int].len()
                    &&& final(self)@ == old(self)@.update(
                        position as int,
                        old(self)@[position as int].push(id),
                    )
                },
            },
    {
        broadcast use group_hash_axioms;

        proof {
            assert(indexed(self.keys@[position as int]@, self.order@[position as int]));
        }
        if let Some(key) = self.keys[position].get(&id) {
            return WriteKey::Existing(*key);
        }
        let key: u64 = self.keys[position].len() as u64;
        let ghost before = self.keys@[position as int]@;
        let ghost list = self.order@[position as int];
        self.keys[position].insert(id, key);
        self.order = Ghost(self.order@.update(position as int, list.push(id)));
        proof {
            let after = self.keys@[position as int]@;
            assert(after == before.insert(id, key));
            assert forall|other: u64| #[trigger] after.contains_key(other) implies place_of(
                list.push(id),
                other,
            ) == Some(after[other] as nat) by {
                assert(list.push(id).drop_last() =~= list);
                if other != id {
                    assert(before.contains_key(other));
                }
            }
            assert forall|other: u64| place_of(list.push(id), other) is Some implies
                #[trigger] after.contains_key(other) by {
                assert(list.push(id).drop_last() =~= list);
                if other != id {
                    assert(place_of(list, other) is Some);
                    assert(before.contains_key(other));
                }
            }
            assert(indexed(after, list.push(id)));
        }
        WriteKey::New(key)
    }
}

/// The dictionaries of the row being read. An entry is `None` while it is
/// still being read (a cycle), and where the object was skipped or read by a
/// reader that keeps no shareable pointer, so that it cannot be repeated.
pub struct ReadState<E> {
    registries: Vec<Vec<Option<E>>>,
}

impl<E> View for ReadState<E> {
    type V = Seq<Seq<Option<E>>>;

    closed spec fn view(&self) -> Seq<Seq<Option<E>>> {
        Seq::new(self.registries@.len(), |c: int| self.registries@[c]@)
    }
}

/// What a key stands for.
#[derive(Debug)]
pub enum ReadSlot<E> {
    /// An already-materialized dictionary entry.
    Repeat(E),
    /// A new entry; the payload follows in the dictionary columns. The
    /// reserved index must be fulfilled once the value exists.
    New(usize),
}

impl<E> ReadState<E> {
    /// Fresh dictionaries for a row of `columns` columns.
    pub fn new(columns: usize) -> (result: Self)
        ensures
            result@ == Seq::new(columns as nat, |c: int| Seq::<Option<E>>::empty()),
    {
        let mut registries: Vec<Vec<Option<E>>> = Vec::new();
        let mut i: usize = 0;
        while i < columns
            invariant
                i <= columns,
                registries@.len() == i,
                forall|c: int| 0 <= c < i ==> (#[trigger] registries@[c])@ == Seq::<Option<E>>::empty(),
            decreases columns - i,
        {
            registries.push(Vec::new());
            i += 1;
        }
        let result = ReadState { registries };
        assert(result@ =~= Seq::new(columns as nat, |c: int| Seq::<Option<E>>::empty()));
        result
    }

    /// Looks a key up: an object that is there, the next one, or no key at
    /// all. The next one is reserved.
    pub fn read_slot(&mut self, position: usize, key: u64) -> (result: Result<ReadSlot<E>>) where
        E: Clone,

        requires
            position < old(self)@.len(),
        ensures
            ({
                let list = old(self)@[position as int];
                match result {
                    Ok(ReadSlot::Repeat(object)) => {
                        &&& key < list.len()
                        &&& list[key as int] matches Some(kept) && cloned(kept, object)
                        &&& final(self)@ == old(self)@
                    },
                    Ok(ReadSlot::New(index)) => {
                        &&& key == list.len()
                        &&& index == key
                        &&& final(self)@ == old(self)@.update(position as int, list.push(None))
                    },
                    Err(error) => {
                        &&& final(self)@ == old(self)@
                        &&& if key < list.len() {
                            list[key as int] is None && error@ == unavailable()
                        } else {
                            key > list.len() && error@ == Fault::InvalidTag("shared key"@, key)
                        }
                    },
                }
            }),
    {
        let len: u64 = self.registries[position].len() as u64;
        if key < len {
            match &self.registries[position][key as usize] {
                Some(object) => Ok(ReadSlot::Repeat(object.clone())),
                None => Err(repeat_unavailable()),
            }
        } else if key == len {
            let ghost before = self@;
            self.registries[position].push(None);
            assert(self@ =~= before.update(
                position as int,
                before[position as int].push(None),
            ));
            Ok(ReadSlot::New(key as usize))
        } else {
            Err(Error::InvalidTag { what: "shared key", value: key })
        }
    }

    /// Like [`ReadState::read_slot`] but for skipping: repeats are fine
    /// (nothing to materialize). Returns whether the entry is new (payload
    /// must be skipped).
    pub fn read_skip(&mut self, position: usize, key: u64) -> (result: Result<bool>)
        requires
            position < old(self)@.len(),
        ensures
            ({
                let list = old(self)@[position as int];
                match result {
                    Ok(false) => key < list.len() && final(self)@ == old(self)@,
                    Ok(true) => {
                        &&& key == list.len()
                        &&& final(self)@ == old(self)@.update(position as int, list.push(None))
                    },
                    Err(error) => {
                        &&& final(self)@ == old(self)@
                        &&& key > list.len()
                        &&& error@ == Fault::InvalidTag("shared key"@, key)
                    },
                }
            }),
    {
        let len: u64 = self.registries[position].len() as u64;
        if key < len {
            Ok(false)
        } else if key == len {
            let ghost before = self@;
            self.registries[position].push(None);
            assert(self@ =~= before.update(
                position as int,
                before[position as int].push(None),
            ));
            Ok(true)
        } else {
            Err(Error::InvalidTag { what: "shared key", value: key })
        }
    }

    /// Puts an object in the place reserved for it. Places that were never
    /// reserved are left alone.
    pub fn fulfill(&mut self, position: usize, index: usize, object: E)
        ensures
            final(self)@ == if position < old(self)@.len() && index < old(
                self,
            )@[position as int].len() {
                old(self)@.update(
                    position as int,
                    old(self)@[position as int].update(index as int, Some(object)),
                )
            } else {
                old(self)@
            },
    {
        let ghost before = self@;
        if position < self.registries.len() && index < self.registries[position].len() {
            self.registries[position][index] = Some(object);
            assert(self@ =~= before.update(
                position as int,
                before[position as int].update(index as int, Some(object)),
            ));
        }
    }
}

/// The report of a repeated object that is not there to be repeated.
pub fn repeat_unavailable() -> (result: Error)
    ensures
        result@ == unavailable(),
{
    Error::Message(
        "a repeated shared value cannot be materialized here; the reading field must use carbonite::Shared/SharedArc (or the value is cyclic)".to_owned(),
    )
}

/// Keys are dense: an object has a key below the number of objects, no two
/// objects have the same key, and every such key is some object's.
pub proof fn lemma_keys_dense(order: Seq<u64>, a: u64, b: u64)
    requires
        place_of(order, a) is Some,
        place_of(order, b) is Some,
    ensures
        place_of(order, a)->0 < order.len(),
        place_of(order, a) == place_of(order, b) ==> a == b,
        order[place_of(order, a)->0 as int] == a,
{
    lemma_place(order, a);
    lemma_place(order, b);
}

} // verus!
