//! Reading blobs row by row.

use std::borrow::Cow;
use std::marker::PhantomData;

use vstd::prelude::*;
use vstd::std_specs::convert::IntoSpec;

use crate::blob::{fresh_columns, lemma_blob_opened, open, opened};
use crate::columnar::ColumnCursor;
use crate::de::{cur_of, data_len, objects, read_at, readable_state, same_data, Object};
use crate::error::{Error, Fault, Result};
use crate::get::{get, Cur};
use crate::layout::Layout;
use crate::put::total;
use crate::schema::{held, Schema};
use crate::shape::{width_of, Shape};
use crate::shared::ReadState;
use crate::spot::Spot;
use crate::static_schema::StaticSchema;
use crate::typed_de::{nothing, rejoin, slice_cur, window, DeserializeColumns};
use crate::typed_ser::Modeled;
use crate::value::{Val, Value};

verus! {

/// Deserializes values of type `T` from blobs written with a given schema.
///
/// The schema passed in is the **writer's** schema, possibly from an older
/// version of `T`. One `Deserializer` can decode any number of blobs.
///
/// # Untrusted input
///
/// Every blob is treated as hostile: the header's row count and every length
/// inside the data are validated against the bytes actually present before
/// they size an allocation or drive a loop, so decoding work stays
/// proportional to the input. Malformed input yields an [`Error`], never a
/// panic or an unbounded allocation.
#[verifier::reject_recursive_types(T)]
#[derive(Debug)]
pub struct Deserializer<'s, T: ?Sized> {
    schema: Cow<'s, Schema<T>>,
    layout: Layout,
    fast: bool,
}

impl<'s, T: ?Sized> Deserializer<'s, T> {
    /// The writer's schema.
    pub closed spec fn shape(&self) -> Shape {
        self.schema@
    }

    /// Whether rows decode positionally.
    pub closed spec fn fast(&self) -> bool {
        self.fast
    }

    /// The layout is that of the schema.
    pub closed spec fn well_formed(&self) -> bool {
        self.layout.well_formed() && self.layout.root.shape() == self.schema@
    }

    /// The schema of a deserializer can be written, and its columns counted.
    pub proof fn lemma_shape(&self)
        requires
            self.well_formed(),
        ensures
            self.shape().well_formed(),
            width_of(self.shape()) <= usize::MAX,
    {
    }

    /// Builds a deserializer without looking at `T`; always uses the
    /// name-matched path.
    #[must_use]
    pub fn new_untraced<S: Into<Cow<'s, Schema<T>>>>(schema: S) -> (result: Self)
        requires
            S::obeys_into_spec(),
            width_of(schema.into_spec()@) <= usize::MAX,
        ensures
            result.well_formed(),
            result.shape() == schema.into_spec()@,
            !result.fast(),
    {
        Self::build(schema.into(), false)
    }

    /// Builds a deserializer that uses the positional path exactly where the
    /// writer's schema is `T`'s own.
    #[must_use]
    pub fn new_static<S: Into<Cow<'s, Schema<T>>>>(schema: S) -> (result: Self) where
        T: StaticSchema,

        requires
            S::obeys_into_spec(),
            width_of(schema.into_spec()@) <= usize::MAX,
        ensures
            result.well_formed(),
            result.shape() == schema.into_spec()@,
            result.fast() == (T::node() == schema.into_spec()@),
    {
        let schema: Cow<'s, Schema<T>> = schema.into();
        let fast = T::schema_node().same(held(&schema).node());
        Self::build(schema, fast)
    }

    /// Builds a deserializer; `fast` selects positional decoding, which is
    /// right exactly where the schema is the reading type's own.
    #[must_use]
    pub fn build(schema: Cow<'s, Schema<T>>, fast: bool) -> (result: Self)
        requires
            width_of(schema@) <= usize::MAX,
        ensures
            result.well_formed(),
            result.shape() == schema@,
            result.fast() == fast,
    {
        let layout = Layout::new(held(&schema).node());
        Deserializer { schema, layout, fast }
    }

    /// The writer's schema.
    #[must_use]
    pub fn schema(&self) -> (result: &Schema<T>)
        ensures
            result@ == self.shape(),
    {
        held(&self.schema)
    }

    /// Whether the writer's schema matched `T`'s own, so rows decode
    /// positionally instead of by field name.
    ///
    /// `false` means the blob is being reconciled against `T`: an older
    /// file, a foreign writer, or a `T` whose own schema is not known.
    #[must_use]
    pub fn uses_fast_path(&self) -> (result: bool)
        ensures
            result == self.fast(),
    {
        self.fast
    }

    /// Deserializes a single-value blob (as produced by
    /// [`Serializer::to_vec`](crate::batch::Serializer::to_vec)).
    pub fn from_slice(&self, input: &[u8]) -> (result: Result<Value>)
        requires
            self.well_formed(),
        ensures
            match result {
                Ok(value) => single(input@, self.shape()) == Ok::<Val, Fault>(value@),
                Err(error) => single(input@, self.shape()) == Err::<Val, Fault>(error@),
            },
    {
        let mut rows = match self.rows(input) {
            Ok(rows) => rows,
            Err(error) => return Err(error),
        };
        if rows.remaining() != 1 {
            return Err(Error::Malformed("expected a single-value blob"));
        }
        match rows.next() {
            Some(result) => result,
            None => Err(Error::Malformed("expected a single-value blob")),
        }
    }

    /// Deserializes a single-value blob through the monomorphized columnar
    /// fast path.
    ///
    /// Unlike [`Self::from_slice`], this path cannot reconcile schema
    /// differences: it requires the blob's schema to equal the type's own.
    pub fn from_slice_columns<'de>(&self, input: &'de [u8]) -> (result: Result<T>) where
        T: DeserializeColumns<'de>,

        requires
            self.well_formed(),
            self.fast() ==> T::node() == self.shape(),
        ensures
            unread(input@, T::node(), self.shape()) matches Some(fault) ==> result matches Err(error)
                && error@ == fault,
            T::sound() ==> match result {
                Ok(x) => single_columns::<T>(input@, self.shape()) matches Ok(v) && x.stands_for(v),
                Err(error) => single_columns::<T>(input@, self.shape()) == Err::<Val, Fault>(
                    error@,
                ),
            },
    {
        let mut rows = match self.rows_columns(input) {
            Ok(rows) => rows,
            Err(error) => return Err(error),
        };
        if rows.remaining() != 1 {
            return Err(Error::Malformed("expected a single-value blob"));
        }
        match rows.next() {
            Some(result) => result,
            None => Err(Error::Malformed("expected a single-value blob")),
        }
    }

    /// Opens a blob and iterates its rows through the monomorphized columnar
    /// fast path, the reading counterpart of
    /// [`Batch::push_columns`](crate::batch::Batch::push_columns).
    ///
    /// Like [`Self::from_slice_columns`], this path cannot reconcile schema
    /// differences: it requires the blob's schema to equal the type's own.
    pub fn rows_columns<'de>(&self, input: &'de [u8]) -> (result: Result<RowsColumns<'de, T>>) where
        T: DeserializeColumns<'de>,

        requires
            self.well_formed(),
            self.fast() ==> T::node() == self.shape(),
        ensures
            match result {
                Ok(rows) => {
                    &&& T::node() == self.shape()
                    &&& rows.well_formed()
                    &&& rows.cur().bufs.len() == width_of(T::node())
                    &&& opened(input@, width_of(self.shape())) == Ok::<(nat, Seq<Seq<u8>>), Fault>(
                        (rows.left(), rows.cur().bufs),
                    )
                    &&& rows.cur() == at_start(rows.cur().bufs)
                },
                Err(error) => if T::node() != self.shape() {
                    error@ == foreign_schema()
                } else {
                    opened(input@, width_of(self.shape())) == Err::<(nat, Seq<Seq<u8>>), Fault>(
                        error@,
                    )
                },
            },
    {
        if !self.fast && !T::schema_node().same(held(&self.schema).node()) {
            return Err(columnar_schema_mismatch());
        }
        match open(input, self.layout.columns) {
            Ok((remaining, cursors)) => {
                let rows = RowsColumns { cursors, remaining, marker: PhantomData };
                proof {
                    lemma_blob_opened(input@, width_of(self.shape()));
                    assert(input@.len() == input.len());
                    lemma_data_len(cursors@, cursors@.len());
                    assert(rows.cur().bufs =~= fresh_columns(cursors@));
                    assert(rows.cur().pos =~= at_start(rows.cur().bufs).pos);
                    assert(rows.cur().regs =~= at_start(rows.cur().bufs).regs);
                }
                Ok(rows)
            },
            Err(error) => Err(error),
        }
    }

    /// Opens a blob and iterates its rows (as produced by
    /// [`Batch`](crate::batch::Batch)).
    pub fn rows<'a, 'de>(&'a self, input: &'de [u8]) -> (result: Result<Rows<'a, 'de, T>>)
        requires
            self.well_formed(),
        ensures
            match result {
                Ok(rows) => {
                    &&& rows.well_formed()
                    &&& rows.shape() == self.shape()
                    &&& rows.fast() == self.fast()
                    &&& opened(input@, width_of(self.shape())) == Ok::<(nat, Seq<Seq<u8>>), Fault>(
                        (rows.left(), rows.cur().bufs),
                    )
                    &&& rows.cur() == at_start(rows.cur().bufs)
                },
                Err(error) => opened(input@, width_of(self.shape())) == Err::<
                    (nat, Seq<Seq<u8>>),
                    Fault,
                >(error@),
            },
    {
        match open(input, self.layout.columns) {
            Ok((remaining, cursors)) => {
                let rows = Rows { de: self, cursors, remaining };
                proof {
                    lemma_blob_opened(input@, width_of(self.shape()));
                    assert(input@.len() == input.len());
                    lemma_data_len(cursors@, cursors@.len());
                    assert(rows.cur().bufs =~= fresh_columns(cursors@));
                    assert(rows.cur().pos =~= at_start(rows.cur().bufs).pos);
                    assert(rows.cur().regs =~= at_start(rows.cur().bufs).regs);
                }
                Ok(rows)
            },
            Err(error) => Err(error),
        }
    }
}

/// The report of a schema that is not the type's own.
pub open spec fn foreign_schema() -> Fault {
    Fault::SchemaMismatch(
        "the type's own static schema (columnar fast path)"@,
        "a schema that differs from it; use the serde path for evolution"@,
    )
}

/// The columnar fast path was asked to handle a schema that is not the type's
/// own.
pub fn columnar_schema_mismatch() -> (result: Error)
    ensures
        result@ == foreign_schema(),
{
    Error::SchemaMismatch {
        expected: "the type's own static schema (columnar fast path)".to_owned(),
        found: "a schema that differs from it; use the serde path for evolution".to_owned(),
    }
}

/// The start of every column.
pub open spec fn at_start(bufs: Seq<Seq<u8>>) -> Cur {
    Cur {
        bufs,
        pos: Seq::new(bufs.len(), |c: int| 0nat),
        regs: Seq::new(bufs.len(), |c: int| Seq::<Option<Val>>::empty()),
    }
}

/// The same places, at the start of a row: no shared object was read yet.
pub open spec fn fresh(cur: Cur) -> Cur {
    Cur { regs: Seq::new(cur.bufs.len(), |c: int| Seq::<Option<Val>>::empty()), ..cur }
}

/// Every column has been read to its end.
pub open spec fn spent(cur: Cur) -> bool {
    forall|c: int| 0 <= c < cur.bufs.len() ==> #[trigger] cur.pos[c] == cur.bufs[c].len()
}

/// Reads the next of `left` rows. The last row must consume every column
/// exactly.
pub open spec fn next_row(s: Shape, cur: Cur, left: nat) -> std::result::Result<(Val, Cur), Fault> {
    match get(s, 0, fresh(cur)) {
        Ok((v, next)) => if left == 1 && !spent(next) {
            Err(Fault::TrailingBytes)
        } else {
            Ok((v, fresh(next)))
        },
        Err(fault) => Err(fault),
    }
}

/// The value of a blob that holds a single one.
pub open spec fn single(input: Seq<u8>, s: Shape) -> std::result::Result<Val, Fault> {
    match opened(input, width_of(s)) {
        Ok((rows, cols)) => if rows != 1 {
            Err(Fault::Malformed("expected a single-value blob"@))
        } else {
            match next_row(s, at_start(cols), 1) {
                Ok((v, _)) => Ok(v),
                Err(fault) => Err(fault),
            }
        },
        Err(fault) => Err(fault),
    }
}

proof fn lemma_data_len(cursors: Seq<ColumnCursor<'_>>, n: nat)
    requires
        n <= cursors.len(),
    ensures
        data_len(cursors, n) == total(fresh_columns(cursors), n),
    decreases n,
{
    if n > 0 {
        lemma_data_len(cursors, (n - 1) as nat);
    }
}

/// When every column has been read to its end, in terms of the cursors.
proof fn lemma_spent(cursors: Seq<ColumnCursor<'_>>, regs: Seq<Seq<Option<Val>>>)
    ensures
        spent(cur_of(cursors, regs)) == (forall|c: int|
            0 <= c < cursors.len() ==> (#[trigger] cursors[c]).at() == cursors[c].data().len()),
{
    let cur = cur_of(cursors, regs);
    if spent(cur) {
        assert forall|c: int| 0 <= c < cursors.len() implies (#[trigger] cursors[c]).at()
            == cursors[c].data().len() by {
            assert(cur.pos[c] == cur.bufs[c].len());
        }
    }
}

/// Iterator over the rows of one blob.
///
/// After an error, iteration fuses (yields `None`); a decoding error mid-blob
/// leaves the column cursors in an unspecified position.
#[verifier::reject_recursive_types(T)]
#[derive(Debug)]
pub struct Rows<'a, 'de, T: ?Sized> {
    de: &'a Deserializer<'a, T>,
    cursors: Vec<ColumnCursor<'de>>,
    remaining: u64,
}

impl<'a, 'de, T: ?Sized> Rows<'a, 'de, T> {
    /// The writer's schema.
    pub closed spec fn shape(&self) -> Shape {
        self.de.shape()
    }

    /// Whether rows decode positionally.
    pub closed spec fn fast(&self) -> bool {
        self.de.fast()
    }

    /// The columns, and how far they have been read.
    pub closed spec fn cur(&self) -> Cur {
        cur_of(
            self.cursors@,
            Seq::new(self.cursors@.len(), |c: int| Seq::<Option<Val>>::empty()),
        )
    }

    /// The number of rows that are left.
    pub closed spec fn left(&self) -> nat {
        self.remaining as nat
    }

    /// There is a cursor for every column of the schema.
    pub closed spec fn well_formed(&self) -> bool {
        &&& self.de.well_formed()
        &&& self.cursors@.len() == self.de.layout.columns
        &&& readable_state(self.cursors@, self.cur().regs)
    }

    /// There are the columns of the schema, and none is read past its end.
    pub proof fn lemma_columns(&self)
        requires
            self.well_formed(),
        ensures
            self.shape().well_formed(),
            self.cur().well_formed(),
            self.cur().bufs.len() == width_of(self.shape()),
    {
    }

    /// Rows not yet read.
    ///
    /// The blob header is validated against the bytes present when the blob
    /// is opened, so this count cannot exceed what the input could hold.
    #[must_use]
    pub fn remaining(&self) -> (result: u64)
        ensures
            result == self.left(),
    {
        self.remaining
    }

    /// The lower bound is always `0`: the header's row count says how many
    /// rows the blob *claims*, but any of them may fail to decode, and a
    /// consumer must never size an allocation from a number the input has
    /// not yet earned.
    pub fn size_hint(&self) -> (result: (usize, Option<usize>))
        ensures
            result == (0usize, crate::reader::size_hint(self.left())),
    {
        if self.remaining <= usize::MAX as u64 {
            (0, Some(self.remaining as usize))
        } else {
            (0, None)
        }
    }

    /// The position of a row in the writer's layout.
    pub fn spot(&self) -> (result: Spot<'a>)
        requires
            self.well_formed(),
        ensures
            result.shape() == self.shape(),
            result.base() == 0,
            result.fits(self.cur().bufs.len()),
    {
        self.de.layout.spot()
    }

    /// Starts the next row, if there is one.
    pub fn begin_row(&mut self) -> (result: bool)
        requires
            old(self).well_formed(),
        ensures
            final(self).well_formed(),
            final(self).shape() == old(self).shape(),
            final(self).fast() == old(self).fast(),
            final(self).cur() == old(self).cur(),
            result == (old(self).left() > 0),
            final(self).left() == if result {
                (old(self).left() - 1) as nat
            } else {
                0
            },
    {
        if self.remaining == 0 {
            return false;
        }
        self.remaining = self.remaining - 1;
        true
    }

    /// The cursors, for a reader of the row.
    pub fn cursors(&mut self) -> (result: &mut Vec<ColumnCursor<'de>>)
        requires
            old(self).well_formed(),
        ensures
            result@.len() == old(self).cur().bufs.len(),
            cur_of(result@, old(self).cur().regs) == old(self).cur(),
            readable_state(result@, old(self).cur().regs),
            final(self).shape() == old(self).shape(),
            final(self).fast() == old(self).fast(),
            final(self).left() == old(self).left(),
            same_data(result@, final(result)@) && readable_state(
                final(result)@,
                old(self).cur().regs,
            ) ==> final(self).well_formed() && final(self).cur() == cur_of(
                final(result)@,
                old(self).cur().regs,
            ),
    {
        let ghost de = self.de;
        let ghost columns = self.cursors@.len();
        &mut self.cursors
    }

    /// Ends a row: `decoded` says whether its value was read. The last row
    /// must consume every column exactly.
    pub fn end_row(&mut self, decoded: bool) -> (result: Result<()>)
        requires
            old(self).well_formed(),
        ensures
            final(self).well_formed(),
            final(self).shape() == old(self).shape(),
            final(self).fast() == old(self).fast(),
            final(self).cur() == old(self).cur(),
            match result {
                Ok(_) => {
                    &&& !decoded || old(self).left() > 0 || spent(old(self).cur())
                    &&& final(self).left() == if decoded {
                        old(self).left()
                    } else {
                        0
                    }
                },
                Err(error) => {
                    &&& decoded
                    &&& old(self).left() == 0
                    &&& !spent(old(self).cur())
                    &&& error@ == Fault::TrailingBytes
                    &&& final(self).left() == 0
                },
            },
    {
        if !decoded {
            self.remaining = 0;
            return Ok(());
        }
        proof {
            lemma_spent(self.cursors@, self.cur().regs);
        }
        if self.remaining == 0 && !all_at_end(&self.cursors) {
            return Err(Error::TrailingBytes);
        }
        Ok(())
    }

    /// The next row, as a plain value.
    pub fn next(&mut self) -> (result: Option<Result<Value>>)
        requires
            old(self).well_formed(),
        ensures
            final(self).well_formed(),
            final(self).shape() == old(self).shape(),
            final(self).fast() == old(self).fast(),
            match result {
                None => old(self).left() == 0 && final(self).left() == 0,
                Some(Ok(value)) => {
                    &&& old(self).left() > 0
                    &&& next_row(old(self).shape(), old(self).cur(), old(self).left()) == Ok::<
                        (Val, Cur),
                        Fault,
                    >((value@, final(self).cur()))
                    &&& final(self).left() == old(self).left() - 1
                },
                Some(Err(error)) => {
                    &&& old(self).left() > 0
                    &&& next_row(old(self).shape(), old(self).cur(), old(self).left()) == Err::<
                        (Val, Cur),
                        Fault,
                    >(error@)
                    &&& final(self).left() == 0
                },
            },
    {
        if !self.begin_row() {
            return None;
        }
        let mut regs: ReadState<Object> = ReadState::new(self.cursors.len());
        let ghost before = self.cursors@;
        assert(objects(regs) =~= self.cur().regs) by {
            assert forall|c: int| 0 <= c < objects(regs).len() implies #[trigger] objects(regs)[c]
                == Seq::<Option<Val>>::empty() by {
                assert(objects(regs)[c] =~= Seq::<Option<Val>>::empty());
            }
        }
        assert(fresh(self.cur()) == self.cur());
        let result = read_at(
            &self.de.layout.root,
            self.cursors.as_mut_slice(),
            &mut regs,
            Ghost(0),
        );
        match result {
            Ok(value) => {
                assert(self.cur() == fresh(cur_of(self.cursors@, objects(regs))));
                proof {
                    lemma_spent(self.cursors@, objects(regs));
                    lemma_spent(self.cursors@, self.cur().regs);
                }
                match self.end_row(true) {
                    Ok(_) => Some(Ok(value)),
                    Err(error) => Some(Err(error)),
                }
            },
            Err(error) => {
                let _ = self.end_row(false);
                Some(Err(error))
            },
        }
    }
}

/// Whether every cursor has been read to its end.
fn all_at_end(cursors: &Vec<ColumnCursor<'_>>) -> (result: bool)
    requires
        forall|c: int| 0 <= c < cursors@.len() ==> (#[trigger] cursors@[c]).well_formed(),
    ensures
        result == (forall|c: int|
            0 <= c < cursors@.len() ==> (#[trigger] cursors@[c]).at() == cursors@[c].data().len()),
{
    let mut i: usize = 0;
    while i < cursors.len()
        invariant
            i <= cursors@.len(),
            forall|c: int| 0 <= c < cursors@.len() ==> (#[trigger] cursors@[c]).well_formed(),
            forall|c: int|
                0 <= c < i ==> (#[trigger] cursors@[c]).at() == cursors@[c].data().len(),
        decreases cursors@.len() - i,
    {
        if !cursors[i].at_end() {
            return false;
        }
        i += 1;
    }
    true
}

/// Reads the next of `left` rows through the columnar fast path.
pub open spec fn next_columns<'de, T: DeserializeColumns<'de>>(cur: Cur, left: nat) -> std::result::Result<
    (Val, Cur),
    Fault,
> {
    match T::read(cur) {
        Ok((v, next)) => if left == 1 && !spent(next) {
            Err(Fault::TrailingBytes)
        } else {
            Ok((v, next))
        },
        Err(fault) => Err(fault),
    }
}

/// Why the columnar fast path reads no value of type `own` from a blob that
/// should hold a single one: it was written with another schema, does not open,
/// or has another number of rows.
pub open spec fn unread(input: Seq<u8>, own: Shape, s: Shape) -> Option<Fault> {
    if own != s {
        Some(foreign_schema())
    } else {
        match opened(input, width_of(s)) {
            Ok((rows, _)) => if rows != 1 {
                Some(Fault::Malformed("expected a single-value blob"@))
            } else {
                None
            },
            Err(fault) => Some(fault),
        }
    }
}

/// The value of a blob that holds a single one, through the columnar fast
/// path.
pub open spec fn single_columns<'de, T: DeserializeColumns<'de>>(
    input: Seq<u8>,
    s: Shape,
) -> std::result::Result<Val, Fault> {
    match unread(input, T::node(), s) {
        Some(fault) => Err(fault),
        None => match next_columns::<T>(at_start(opened(input, width_of(s))->Ok_0.1), 1) {
            Ok((v, _)) => Ok(v),
            Err(fault) => Err(fault),
        },
    }
}

/// Both paths give the same rows, wherever the fast path gives any.
pub proof fn lemma_paths_agree<'de, T: DeserializeColumns<'de>>(cur: Cur, left: nat)
    requires
        T::sound(),
        cur.sized(),
        cur.bufs.len() == width_of(T::node()),
        fresh(cur) == cur,
        next_columns::<T>(cur, left) is Ok,
    ensures
        next_row(T::node(), cur, left) == next_columns::<T>(cur, left),
{
    let width = width_of(T::node());
    assert(window(cur, 0, width) == cur) by {
        assert(window(cur, 0, width).bufs =~= cur.bufs);
        assert(window(cur, 0, width).pos =~= cur.pos);
        assert(window(cur, 0, width).regs =~= cur.regs);
    }
    T::lemma_read(0, cur);
    let next = T::read(cur)->Ok_0.1;
    assert(rejoin(cur, 0, next) == next) by {
        assert(rejoin(cur, 0, next).pos =~= next.pos);
    }
    assert(fresh(next) == next) by {
        assert(fresh(next).regs =~= next.regs);
    }
}

/// Iterator over the rows of one blob, decoded through the monomorphized
/// columnar fast path. See [`Deserializer::rows_columns`].
///
/// After an error, iteration fuses (yields `None`).
#[derive(Debug)]
pub struct RowsColumns<'de, T: ?Sized> {
    cursors: Vec<ColumnCursor<'de>>,
    remaining: u64,
    marker: PhantomData<T>,
}

impl<'de, T: ?Sized> RowsColumns<'de, T> {
    /// The columns, and how far they have been read.
    pub closed spec fn cur(&self) -> Cur {
        slice_cur(self.cursors@)
    }

    /// The number of rows that are left.
    pub closed spec fn left(&self) -> nat {
        self.remaining as nat
    }

    /// The cursors can be read.
    pub closed spec fn well_formed(&self) -> bool {
        readable_state(self.cursors@, nothing(self.cursors@.len()))
    }

    /// No column is read past its end, and no object of an earlier row is known.
    pub proof fn lemma_columns(&self)
        requires
            self.well_formed(),
        ensures
            self.cur().well_formed(),
            fresh(self.cur()) == self.cur(),
    {
        assert(fresh(self.cur()).regs =~= self.cur().regs);
    }

    /// Rows not yet read.
    #[must_use]
    pub fn remaining(&self) -> (result: u64)
        ensures
            result == self.left(),
    {
        self.remaining
    }

    /// As with [`Rows`], the lower bound is `0` until a row actually decodes.
    pub fn size_hint(&self) -> (result: (usize, Option<usize>))
        ensures
            result == (0usize, crate::reader::size_hint(self.left())),
    {
        if self.remaining <= usize::MAX as u64 {
            (0, Some(self.remaining as usize))
        } else {
            (0, None)
        }
    }

    /// The next row.
    pub fn next(&mut self) -> (result: Option<Result<T>>) where T: DeserializeColumns<'de>
        requires
            old(self).well_formed(),
            old(self).cur().bufs.len() == width_of(T::node()),
        ensures
            final(self).well_formed(),
            final(self).cur().bufs == old(self).cur().bufs,
            match result {
                None => old(self).left() == 0 && final(self).left() == 0,
                Some(Ok(x)) => {
                    &&& old(self).left() > 0
                    &&& T::sound() ==> (next_columns::<T>(old(self).cur(), old(self).left()) matches Ok(
                        (v, next),
                    ) && x.stands_for(v) && next == final(self).cur())
                    &&& old(self).left() == 1 ==> spent(final(self).cur())
                    &&& final(self).left() == old(self).left() - 1
                },
                Some(Err(error)) => {
                    &&& old(self).left() > 0
                    &&& T::sound() ==> next_columns::<T>(old(self).cur(), old(self).left()) == Err::<
                        (Val, Cur),
                        Fault,
                    >(error@)
                    &&& final(self).left() == 0
                },
            },
    {
        if self.remaining == 0 {
            return None;
        }
        self.remaining = self.remaining - 1;
        let ghost before = self.cursors@;
        let result = T::deserialize_columns(self.cursors.as_mut_slice());
        proof {
            lemma_spent(self.cursors@, nothing(self.cursors@.len()));
            assert(slice_cur(self.cursors@).bufs =~= slice_cur(before).bufs);
        }
        match result {
            Ok(x) => {
                // The last row must consume every column exactly.
                if self.remaining == 0 && !all_at_end(&self.cursors) {
                    return Some(Err(Error::TrailingBytes));
                }
                Some(Ok(x))
            },
            Err(error) => {
                self.remaining = 0;
                Some(Err(error))
            },
        }
    }
}

} // verus!
