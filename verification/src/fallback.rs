//! Fields whose types only ship serde impls.
//!
//! A field that is routed through serde has no schema of its own at compile
//! time. Its schema comes from tracing its type, once, and is kept in a
//! registry; the field keeps the columns and the bytes it would have had if the
//! whole containing type had been traced.

use std::collections::HashMap;

use vstd::prelude::*;
use vstd::std_specs::hash::*;

use crate::columnar::ColumnCursor;
use crate::de::{cur_of, objects, read_at, readable_state, still_readable, took, Object};
use crate::error::{Fault, Result};
use crate::get::{get, Cur};
use crate::layout::Layout;
use crate::put::put;
use crate::schema::SchemaNode;
use crate::ser::{row_of, serialize_at, writable, wrote};
use crate::shape::{width_of, Shape};
use crate::shared::{ReadState, WriteState};
use crate::value::{Val, Value};

verus! {

/// A memoized trace: the field type's schema, and its column layout.
#[derive(Debug)]
pub struct Traced {
    node: SchemaNode,
    layout: Layout,
}

impl View for Traced {
    type V = Shape;

    /// The schema of the field type.
    closed spec fn view(&self) -> Shape {
        self.node@
    }
}

impl Traced {
    /// The layout is that of the schema.
    pub closed spec fn well_formed(&self) -> bool {
        self.layout.well_formed() && self.layout.root.shape() == self.node@
    }

    /// Lays out the columns of a traced schema.
    pub fn new(node: SchemaNode) -> (result: Self)
        requires
            width_of(node@) <= usize::MAX,
        ensures
            result.well_formed(),
            result@ == node@,
    {
        let layout = Layout::new(&node);
        Traced { node, layout }
    }

    /// The schema of the field.
    pub fn node(&self) -> (result: &SchemaNode)
        ensures
            result@ == self@,
    {
        &self.node
    }

    /// The layout of the field.
    pub fn layout(&self) -> (result: &Layout)
        requires
            self.well_formed(),
        ensures
            result.well_formed(),
            result.root.shape() == self@,
    {
        &self.layout
    }

    /// How many columns the field occupies.
    pub fn columns(&self) -> (result: usize)
        requires
            self.well_formed(),
        ensures
            result == width_of(self@),
    {
        self.layout.columns
    }

    /// Writes one such field into its own slice of the row's columns.
    pub fn serialize(
        &self,
        value: &Value,
        columns: &mut [Vec<u8>],
        state: &mut WriteState,
    ) -> (result: Result<()>)
        requires
            self.well_formed(),
            old(columns)@.len() == width_of(self@),
            writable(old(columns)@, *old(state)),
        ensures
            final(columns)@.len() == old(columns)@.len(),
            wrote(
                result,
                put(value@, self@, 0, row_of(old(columns)@, *old(state))),
                row_of(old(columns)@, *old(state)),
                final(columns)@,
                *final(state),
            ),
    {
        let ghost before = columns@;
        let mut own: Vec<Vec<u8>> = Vec::new();
        let n = columns.len();
        let mut i: usize = 0;
        while i < n
            invariant
                i <= n,
                n == before.len(),
                columns@.len() == n,
                own@.len() == i,
                forall|c: int| 0 <= c < i ==> #[trigger] own@[c] == before[c],
                forall|c: int| i <= c < n ==> #[trigger] columns@[c] == before[c],
            decreases n - i,
        {
            let mut column: Vec<u8> = Vec::new();
            std::mem::swap(&mut column, &mut columns[i]);
            own.push(column);
            i += 1;
        }
        assert(own@ =~= before);
        let result = serialize_at(value, &self.layout.root, &mut own, state, Ghost(0));
        let ghost after = own@;
        let mut k: usize = 0;
        while k < n
            invariant
                k <= n,
                n == after.len(),
                columns@.len() == n,
                own@.len() == n,
                forall|c: int| 0 <= c < k ==> #[trigger] columns@[c] == after[c],
                forall|c: int| k <= c < n ==> #[trigger] own@[c] == after[c],
            decreases n - k,
        {
            std::mem::swap(&mut own[k], &mut columns[k]);
            k += 1;
        }
        assert(columns@ =~= after);
        result
    }

    /// Reads one such field from its own slice of the row's columns.
    pub fn deserialize(
        &self,
        cursors: &mut [ColumnCursor<'_>],
        regs: &mut ReadState<Object>,
    ) -> (result: Result<Value>)
        requires
            self.well_formed(),
            old(cursors)@.len() == width_of(self@),
            readable_state(old(cursors)@, objects(*old(regs))),
        ensures
            still_readable(old(cursors)@, final(cursors)@, objects(*final(regs))),
            match result {
                Ok(value) => took(
                    get(self@, 0, cur_of(old(cursors)@, objects(*old(regs)))),
                    value@,
                    final(cursors)@,
                    objects(*final(regs)),
                ),
                Err(error) => get(self@, 0, cur_of(old(cursors)@, objects(*old(regs)))) == Err::<
                    (Val, Cur),
                    Fault,
                >(error@),
            },
    {
        read_at(&self.layout.root, cursors, regs, Ghost(0))
    }
}

/// The traces of all field types that were met so far, by a number that stands
/// for the type.
#[derive(Debug)]
pub struct Registry {
    entries: HashMap<u64, Traced>,
}

impl View for Registry {
    type V = Map<u64, Traced>;

    closed spec fn view(&self) -> Map<u64, Traced> {
        self.entries@
    }
}

impl Registry {
    /// Every trace has its layout.
    pub open spec fn well_formed(&self) -> bool {
        forall|key: u64| #[trigger] self@.contains_key(key) ==> self@[key].well_formed()
    }

    /// A registry without traces.
    pub fn new() -> (result: Self)
        ensures
            result.well_formed(),
            result@ == Map::<u64, Traced>::empty(),
    {
        Registry { entries: HashMap::new() }
    }

    /// The trace of a type, if it was traced before.
    pub fn get(&self, key: u64) -> (result: Option<&Traced>)
        ensures
            match result {
                Some(traced) => self@.contains_key(key) && *traced == self@[key],
                None => !self@.contains_key(key),
            },
    {
        broadcast use group_hash_axioms;

        self.entries.get(&key)
    }

    /// Keeps the trace of a type. The one that landed first stays, so that
    /// every caller sees one identical layout.
    pub fn enter(&mut self, key: u64, traced: Traced)
        requires
            old(self).well_formed(),
            traced.well_formed(),
        ensures
            final(self).well_formed(),
            final(self)@ == if old(self)@.contains_key(key) {
                old(self)@
            } else {
                old(self)@.insert(key, traced)
            },
    {
        broadcast use group_hash_axioms;

        let ghost before = self@;
        if self.entries.get(&key).is_none() {
            self.entries.insert(key, traced);
            assert(self@ == before.insert(key, traced));
        }
        assert forall|k: u64| #[trigger] self@.contains_key(k) implies self@[k].well_formed() by {
            if k != key {
                assert(before.contains_key(k));
            }
        }
    }
}

} // verus!
