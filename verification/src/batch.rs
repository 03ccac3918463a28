//! Serializing values into blobs.

use std::borrow::Cow;
use std::marker::PhantomData;

use vstd::prelude::*;
use vstd::std_specs::convert::IntoSpec;

use crate::blob::{assemble, blob, bytes_of};
use crate::error::{Fault, Result};
use crate::layout::Layout;
use crate::put::{lemma_put, prefix, put, total, Row};
use crate::rows::{columnar_schema_mismatch, foreign_schema};
use crate::schema::{held, Schema, SchemaNode};
use crate::ser::{row_of, serialize_at};
use crate::shape::{width_of, Shape};
use crate::shared::WriteState;
use crate::typed_ser::{appended, stamped, SerializeColumns, Walk};
use crate::value::{Val, Value};

verus! {

/// Columns at the start of a row: no shared object was written yet.
pub open spec fn new_row(cols: Seq<Seq<u8>>) -> Row {
    Row { cols, book: Seq::new(cols.len(), |c: int| Seq::<u64>::empty()) }
}

/// The columns after one more row.
pub open spec fn push_row(s: Shape, cols: Seq<Seq<u8>>, v: Val) -> std::result::Result<
    Seq<Seq<u8>>,
    Fault,
> {
    match put(v, s, 0, new_row(cols)) {
        Ok(row) => Ok(row.cols),
        Err(fault) => Err(fault),
    }
}

/// As many empty columns as a schema has.
pub open spec fn no_rows(s: Shape) -> Seq<Seq<u8>> {
    Seq::new(width_of(s), |c: int| Seq::<u8>::empty())
}

/// Nothing is taken back: every column starts with what it held before.
pub open spec fn grown(before: Seq<Seq<u8>>, after: Seq<Seq<u8>>) -> bool {
    &&& after.len() == before.len()
    &&& forall|c: int| 0 <= c < before.len() ==> prefix(before[c], #[trigger] after[c])
}

/// A row only adds to the columns, and adds something where there are columns.
pub proof fn lemma_push_grows(s: Shape, cols: Seq<Seq<u8>>, v: Val)
    requires
        s.well_formed(),
        cols.len() == width_of(s),
        push_row(s, cols, v) is Ok,
    ensures
        grown(cols, push_row(s, cols, v)->Ok_0),
        width_of(s) > 0 ==> total(push_row(s, cols, v)->Ok_0, width_of(s)) > total(
            cols,
            width_of(s),
        ),
{
    let row = new_row(cols);
    lemma_put(v, s, 0, row);
    let end = put(v, s, 0, row)->Ok_0;
    assert forall|c: int| 0 <= c < cols.len() implies prefix(
        cols[c],
        #[trigger] push_row(s, cols, v)->Ok_0[c],
    ) by {
        assert(prefix(row.cols[c], end.cols[c]));
    }
}

/// Serializes values according to a schema.
///
/// One `Serializer` can produce any number of blobs; the schema is borrowed,
/// to share one that lives longer, or owned, and never rebuilt.
#[verifier::reject_recursive_types(T)]
#[derive(Debug)]
pub struct Serializer<'s, T: ?Sized> {
    schema: Cow<'s, Schema<T>>,
    layout: Layout,
}

impl<'s, T: ?Sized> Serializer<'s, T> {
    /// The schema that is written.
    pub closed spec fn shape(&self) -> Shape {
        self.schema@
    }

    /// The layout is that of the schema.
    pub closed spec fn well_formed(&self) -> bool {
        self.layout.well_formed() && self.layout.root.shape() == self.schema@
    }

    /// The schema of a serializer can be written, and its columns counted.
    pub proof fn lemma_shape(&self)
        requires
            self.well_formed(),
        ensures
            self.shape().well_formed(),
            width_of(self.shape()) <= usize::MAX,
    {
    }

    /// Builds a serializer for `schema`.
    #[must_use]
    pub fn new<S: Into<Cow<'s, Schema<T>>>>(schema: S) -> (result: Self)
        requires
            S::obeys_into_spec(),
            width_of(schema.into_spec()@) <= usize::MAX,
        ensures
            result.well_formed(),
            result.shape() == schema.into_spec()@,
    {
        let schema: Cow<'s, Schema<T>> = schema.into();
        let layout = Layout::new(held(&schema).node());
        Serializer { schema, layout }
    }

    /// The schema this serializer writes.
    #[must_use]
    pub fn schema(&self) -> (result: &Schema<T>)
        ensures
            result@ == self.shape(),
    {
        held(&self.schema)
    }

    /// Serializes a single value into a standalone data blob.
    pub fn to_vec(&self, value: &Value) -> (result: Result<Vec<u8>>)
        requires
            self.well_formed(),
        ensures
            match result {
                Ok(bytes) => push_row(self.shape(), no_rows(self.shape()), value@) matches Ok(cols)
                    && bytes@ == blob(1, cols),
                Err(error) => push_row(self.shape(), no_rows(self.shape()), value@) == Err::<
                    Seq<Seq<u8>>,
                    Fault,
                >(error@),
            },
    {
        let mut batch = self.batch();
        match batch.push(value) {
            Ok(_) => Ok(batch.finish()),
            Err(error) => Err(error),
        }
    }

    /// Serializes a single value through the monomorphized columnar fast
    /// path. The bytes are those of [`Serializer::to_vec`].
    pub fn to_vec_columns(&self, value: &T) -> (result: Result<Vec<u8>>) where T: SerializeColumns
        requires
            self.well_formed(),
        ensures
            match result {
                Ok(bytes) => {
                    &&& T::node() == self.shape()
                    &&& value.refusal() is None
                    &&& exists|cols: Seq<Seq<u8>>|
                        cols.len() == width_of(self.shape()) && bytes@ == #[trigger] blob(1, cols)
                    &&& value.writes() ==> exists|w: Walk|
                        (push_row(
                            self.shape(),
                            no_rows(self.shape()),
                            #[trigger] value.val(w),
                        ) matches Ok(cols) && bytes@ == blob(1, cols))
                },
                Err(error) => {
                    &&& T::node() != self.shape() || !value.writes()
                    &&& T::node() != self.shape() ==> error@ == foreign_schema()
                    &&& T::node() == self.shape() && value.refusal() is Some ==> value.refusal()
                        == Some(error@)
                },
            },
    {
        let mut batch = self.batch();
        match batch.push_columns(value) {
            Ok(_) => Ok(batch.finish()),
            Err(error) => Err(error),
        }
    }

    /// Starts a batch: many values serialized against one schema into one
    /// blob, sharing columns.
    pub fn batch(&self) -> (result: Batch<'_, T>)
        requires
            self.well_formed(),
        ensures
            result.well_formed(),
            result.shape() == self.shape(),
            result.cols() == no_rows(self.shape()),
            result.count() == 0,
    {
        let mut columns: Vec<Vec<u8>> = Vec::new();
        let mut i: usize = 0;
        while i < self.layout.columns
            invariant
                i <= self.layout.columns,
                columns@.len() == i,
                forall|c: int| 0 <= c < i ==> (#[trigger] columns@[c])@ == Seq::<u8>::empty(),
            decreases self.layout.columns - i,
        {
            columns.push(Vec::new());
            i += 1;
        }
        let result = Batch {
            schema: held(&self.schema).node(),
            layout: &self.layout,
            columns,
            rows: 0,
            marker: PhantomData,
        };
        assert(result.cols() =~= no_rows(self.shape()));
        result
    }
}

/// Accumulates rows of `T` into shared columns; [`Batch::finish`] produces
/// the blob.
#[must_use]
#[derive(Debug)]
pub struct Batch<'a, T: ?Sized> {
    schema: &'a SchemaNode,
    layout: &'a Layout,
    columns: Vec<Vec<u8>>,
    rows: u64,
    marker: PhantomData<T>,
}

impl<'a, T: ?Sized> Batch<'a, T> {
    /// The schema of a row.
    pub closed spec fn shape(&self) -> Shape {
        self.layout.root.shape()
    }

    /// The bytes of each column.
    pub closed spec fn cols(&self) -> Seq<Seq<u8>> {
        bytes_of(self.columns@)
    }

    /// How many rows were pushed.
    pub closed spec fn count(&self) -> nat {
        self.rows as nat
    }

    /// There are as many columns as the schema has.
    pub closed spec fn well_formed(&self) -> bool {
        &&& self.layout.well_formed()
        &&& self.layout.root.shape() == self.schema@
        &&& self.columns@.len() == self.layout.columns
    }

    /// A batch has the columns of its schema.
    pub proof fn lemma_columns(&self)
        requires
            self.well_formed(),
        ensures
            self.shape().well_formed(),
            self.cols().len() == width_of(self.shape()),
    {
    }

    /// Appends one value as a row.
    ///
    /// On error the batch is left unchanged, so a failed push can be retried
    /// or skipped.
    pub fn push(&mut self, value: &Value) -> (result: Result<()>)
        requires
            old(self).well_formed(),
            old(self).count() < u64::MAX,
        ensures
            final(self).well_formed(),
            final(self).shape() == old(self).shape(),
            match result {
                Ok(_) => {
                    &&& push_row(old(self).shape(), old(self).cols(), value@) == Ok::<
                        Seq<Seq<u8>>,
                        Fault,
                    >(final(self).cols())
                    &&& grown(old(self).cols(), final(self).cols())
                    &&& final(self).count() == old(self).count() + 1
                },
                Err(error) => {
                    &&& push_row(old(self).shape(), old(self).cols(), value@) == Err::<
                        Seq<Seq<u8>>,
                        Fault,
                    >(error@)
                    &&& final(self).cols() == old(self).cols()
                    &&& final(self).count() == old(self).count()
                },
            },
    {
        let ghost before = self.cols();
        let rollback = lengths_of(&self.columns);
        let mut state = WriteState::new(self.columns.len());
        assert(row_of(self.columns@, state).book =~= new_row(before).book);
        let result = serialize_at(
            value,
            &self.layout.root,
            &mut self.columns,
            &mut state,
            Ghost(0),
        );
        match result {
            Ok(_) => {
                self.rows = self.rows + 1;
                proof {
                    lemma_push_grows(self.shape(), before, value@);
                }
                Ok(())
            },
            Err(error) => {
                truncate_to(&mut self.columns, &rollback, Ghost(before));
                Err(error)
            },
        }
    }

    /// Appends one value as a row through the monomorphized columnar fast
    /// path. The bytes are those of [`Batch::push`].
    ///
    /// The batch's schema must be the type's own; another is refused. On error
    /// the batch is left unchanged.
    pub fn push_columns(&mut self, value: &T) -> (result: Result<()>) where T: SerializeColumns
        requires
            old(self).well_formed(),
            old(self).count() < u64::MAX,
        ensures
            final(self).well_formed(),
            final(self).shape() == old(self).shape(),
            match result {
                Ok(_) => {
                    &&& T::node() == old(self).shape()
                    &&& value.refusal() is None
                    &&& value.writes() ==> exists|w: Walk|
                        push_row(old(self).shape(), old(self).cols(), #[trigger] value.val(w))
                            == Ok::<Seq<Seq<u8>>, Fault>(final(self).cols())
                    &&& grown(old(self).cols(), final(self).cols())
                    &&& final(self).count() == old(self).count() + 1
                },
                Err(error) => {
                    &&& T::node() != old(self).shape() || !value.writes()
                    &&& T::node() != old(self).shape() ==> error@ == foreign_schema()
                    &&& T::node() == old(self).shape() && value.refusal() is Some ==> value.refusal()
                        == Some(error@)
                    &&& final(self).cols() == old(self).cols()
                    &&& final(self).count() == old(self).count()
                },
            },
    {
        if !T::schema_node().same(self.schema) {
            return Err(columnar_schema_mismatch());
        }
        let ghost before = self.cols();
        let ghost had = self.columns@;
        let rollback = lengths_of(&self.columns);
        let result = value.serialize_columns(self.columns.as_mut_slice());
        match result {
            Ok(_) => {
                self.rows = self.rows + 1;
                proof {
                    assert forall|c: int| 0 <= c < before.len() implies prefix(
                        before[c],
                        #[trigger] self.cols()[c],
                    ) by {
                        assert(prefix(had[c]@, self.columns@[c]@));
                    }
                    if value.writes() {
                        let w = choose|w: Walk| appended(had, self.columns@, #[trigger] value.image(w));
                        value.lemma_image(w, 0, new_row(before));
                        let written = stamped(new_row(before), 0, value.image(w));
                        assert(self.cols() =~= written.cols);
                    }
                }
                Ok(())
            },
            Err(error) => {
                proof {
                    assert forall|c: int| 0 <= c < before.len() implies prefix(
                        before[c],
                        #[trigger] bytes_of(self.columns@)[c],
                    ) by {
                        assert(prefix(had[c]@, self.columns@[c]@));
                    }
                }
                truncate_to(&mut self.columns, &rollback, Ghost(before));
                Err(error)
            },
        }
    }

    /// Number of rows pushed so far.
    #[must_use]
    pub fn rows(&self) -> (result: u64)
        ensures
            result == self.count(),
    {
        self.rows
    }

    /// Discards every row pushed so far.
    pub fn reset(&mut self)
        requires
            old(self).well_formed(),
        ensures
            final(self).well_formed(),
            final(self).shape() == old(self).shape(),
            final(self).cols() == no_rows(old(self).shape()),
            final(self).count() == 0,
    {
        let mut i: usize = 0;
        let ghost columns = self.layout.columns;
        while i < self.columns.len()
            invariant
                self.layout == old(self).layout,
                self.schema == old(self).schema,
                self.columns@.len() == old(self).columns@.len(),
                i <= self.columns@.len(),
                forall|c: int| 0 <= c < i ==> (#[trigger] self.columns@[c])@ == Seq::<u8>::empty(),
            decreases self.columns@.len() - i,
        {
            self.columns[i].clear();
            i += 1;
        }
        self.rows = 0;
        assert(self.cols() =~= no_rows(self.shape()));
    }

    /// Assembles the blob: row count, column count, column byte lengths,
    /// then the column bytes back to back.
    #[must_use]
    pub fn finish(self) -> (result: Vec<u8>)
        ensures
            result@ == blob(self.count(), self.cols()),
    {
        let mut out: Vec<u8> = Vec::new();
        assemble(self.rows, &self.columns, &mut out);
        assert(out@ =~= blob(self.count(), self.cols()));
        out
    }

    /// Appends the blob to `out` and leaves the batch empty, keeping its
    /// buffers for the next one.
    pub fn finish_into(&mut self, out: &mut Vec<u8>)
        requires
            old(self).well_formed(),
        ensures
            final(out)@ == old(out)@ + blob(old(self).count(), old(self).cols()),
            final(self).well_formed(),
            final(self).shape() == old(self).shape(),
            final(self).cols() == no_rows(old(self).shape()),
            final(self).count() == 0,
    {
        assemble(self.rows, &self.columns, out);
        self.reset();
    }
}

/// The length of each column.
fn lengths_of(columns: &Vec<Vec<u8>>) -> (result: Vec<usize>)
    ensures
        result@.len() == columns@.len(),
        forall|c: int| 0 <= c < columns@.len() ==> #[trigger] result@[c] == columns@[c]@.len(),
{
    let mut list: Vec<usize> = Vec::new();
    let mut i: usize = 0;
    while i < columns.len()
        invariant
            i <= columns@.len(),
            list@.len() == i,
            forall|c: int| 0 <= c < i ==> #[trigger] list@[c] == columns@[c]@.len(),
        decreases columns@.len() - i,
    {
        list.push(columns[i].len());
        i += 1;
    }
    list
}

/// Cuts every column back to what it held before.
fn truncate_to(columns: &mut Vec<Vec<u8>>, list: &Vec<usize>, Ghost(before): Ghost<Seq<Seq<u8>>>)
    requires
        old(columns)@.len() == before.len(),
        list@.len() == before.len(),
        forall|c: int| 0 <= c < before.len() ==> #[trigger] list@[c] == before[c].len(),
        forall|c: int| 0 <= c < before.len() ==> prefix(before[c], #[trigger] bytes_of(old(columns)@)[c]),
    ensures
        final(columns)@.len() == old(columns)@.len(),
        bytes_of(final(columns)@) == before,
{
    let mut i: usize = 0;
    while i < columns.len()
        invariant
            i <= columns@.len(),
            columns@.len() == before.len(),
            list@.len() == before.len(),
            forall|c: int| 0 <= c < before.len() ==> #[trigger] list@[c] == before[c].len(),
            forall|c: int| 0 <= c < i ==> (#[trigger] columns@[c])@ == before[c],
            forall|c: int|
                i <= c < before.len() ==> prefix(before[c], #[trigger] bytes_of(columns@)[c]),
        decreases columns@.len() - i,
    {
        let ghost had = columns@;
        assert(prefix(before[i as int], bytes_of(columns@)[i as int]));
        columns[i].truncate(list[i]);
        assert(columns@[i as int]@ =~= before[i as int]);
        assert forall|c: int| i < c < before.len() implies prefix(
            before[c],
            #[trigger] bytes_of(columns@)[c],
        ) by {
            assert(bytes_of(had)[c] == bytes_of(columns@)[c]);
        }
        i += 1;
    }
    assert(bytes_of(columns@) =~= before);
}

} // verus!
