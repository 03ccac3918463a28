//! The monomorphized columnar fast path: writing.
//!
//! [`SerializeColumns`] writes the *exact* byte layout of the schema-driven
//! path, but as straight-line code for each type, with no schema
//! interpretation per value. The column slice passed to each call is exactly
//! `Self::columns()` long.

use std::marker::PhantomData;
use std::rc::Rc;

use vstd::prelude::*;
use vstd::utf8::encode_utf8;

use crate::columnar::write_varint;
use crate::error::{Fault, Result};
use crate::put::{prefix, put, put_fields, put_items, Row};
use crate::shape::{
    columns_before, kid_base, lemma_one_kid_columns, lemma_two_kids_columns, own_columns, width_of,
    Shape,
};
use crate::static_schema::{copies, lemma_copies_columns, StaticSchema};
use crate::value::{atom, scalar_bytes, Head, Scalar, Val};
use crate::varint;

verus! {

/// What a value appends to each of its columns.
pub type Image = Seq<Seq<u8>>;

/// A position among the columns of a row.
pub type Base = nat;

/// What a value leaves open when it presents itself: the order in which each
/// hash map and hash set in it is walked, and the items of a map or a set of
/// which nothing is known.
///
/// A value of several parts takes one walk for each of them.
#[verifier::ext_equal]
pub struct Walk {
    /// The places of the items of a set in the order in which it is walked.
    pub order: Seq<nat>,
    /// The trees of the items of a map or a set, where nothing is known of how
    /// its keys are told apart.
    pub kids: Seq<Val>,
    /// The walks of the parts.
    pub parts: Seq<Walk>,
}

impl Walk {
    /// The walk of one part.
    pub open spec fn part(self, i: int) -> Walk {
        self.parts[i]
    }
}

/// The walk of a value with these walks of its parts.
pub open spec fn through(parts: Seq<Walk>) -> Walk {
    Walk { order: seq![], kids: seq![], parts }
}

/// The walk of a value that leaves nothing open.
pub open spec fn straight() -> Walk {
    through(seq![])
}

/// Types whose values have a model: the tree that such a value presents itself
/// as.
///
/// The ghost items of this trait and of those built on it are never called. An
/// implementation that is not itself verified may fill them with anything; it
/// owes what their contracts say all the same.
pub trait Modeled {
    /// The value as a tree, walked as `w` says.
    spec fn val(&self, w: Walk) -> Val;

    /// Whether the value is what is read from a tree: the tree is the value's
    /// own, but for the items of a map or a set, which may stand in any order
    /// and more than once.
    open spec fn stands_for(&self, v: Val) -> bool {
        v == self.val(straight())
    }
}

/// Nothing for any of `n` columns.
pub open spec fn blank(n: nat) -> Seq<Seq<u8>> {
    Seq::new(n, |c: int| Seq::<u8>::empty())
}

/// One set of columns after another, column by column.
pub open spec fn layered(a: Seq<Seq<u8>>, b: Seq<Seq<u8>>) -> Seq<Seq<u8>> {
    Seq::new(a.len(), |c: int| a[c] + b[c])
}

/// A row with `image` appended to its columns from `base` on.
pub open spec fn stamped(row: Row, base: nat, image: Seq<Seq<u8>>) -> Row {
    Row {
        cols: Seq::new(
            row.cols.len(),
            |c: int|
                if base <= c < base + image.len() {
                    row.cols[c] + image[c - base]
                } else {
                    row.cols[c]
                },
        ),
        book: row.book,
    }
}

pub proof fn lemma_stamp_append(row: Row, base: nat, bytes: Seq<u8>)
    requires
        base < row.cols.len(),
    ensures
        row.append(base, bytes) == stamped(row, base, seq![bytes]),
{
    assert(row.append(base, bytes).cols =~= stamped(row, base, seq![bytes]).cols);
}

pub proof fn lemma_stamp_twice(row: Row, base: nat, a: Seq<Seq<u8>>, b: Seq<Seq<u8>>)
    ensures
        stamped(stamped(row, base, a), base + a.len(), b) == stamped(row, base, a + b),
{
    assert(stamped(stamped(row, base, a), base + a.len(), b).cols =~= stamped(
        row,
        base,
        a + b,
    ).cols);
}

pub proof fn lemma_stamp_layer(row: Row, base: nat, a: Seq<Seq<u8>>, b: Seq<Seq<u8>>)
    requires
        a.len() == b.len(),
    ensures
        stamped(stamped(row, base, a), base, b) == stamped(row, base, layered(a, b)),
{
    let left = stamped(stamped(row, base, a), base, b).cols;
    let right = stamped(row, base, layered(a, b)).cols;
    assert forall|c: int| 0 <= c < left.len() implies left[c] == right[c] by {
        assert(left[c] =~= right[c]);
    }
    assert(left =~= right);
}

pub proof fn lemma_stamp_before(row: Row, base: nat, head: Seq<u8>, a: Seq<Seq<u8>>)
    requires
        base + 1 + a.len() <= row.cols.len(),
    ensures
        stamped(row, base + 1, a).append(base, head) == stamped(row, base, seq![head] + a),
{
    assert(stamped(row, base + 1, a).append(base, head).cols =~= stamped(
        row,
        base,
        seq![head] + a,
    ).cols);
}

pub proof fn lemma_stamp_blank(row: Row, base: nat, n: nat)
    ensures
        stamped(row, base, blank(n)) == row,
{
    let left = stamped(row, base, blank(n)).cols;
    assert forall|c: int| 0 <= c < left.len() implies left[c] == row.cols[c] by {
        assert(left[c] =~= row.cols[c]);
    }
    assert(left =~= row.cols);
}

/// What appending does to a slice of columns.
pub open spec fn appended(before: Seq<Vec<u8>>, after: Seq<Vec<u8>>, image: Seq<Seq<u8>>) -> bool {
    &&& after.len() == before.len()
    &&& image.len() == before.len()
    &&& forall|c: int| 0 <= c < before.len() ==> (#[trigger] after[c])@ == before[c]@ + image[c]
}

/// Nothing that was written before is lost.
pub open spec fn kept(before: Seq<Vec<u8>>, after: Seq<Vec<u8>>) -> bool {
    &&& after.len() == before.len()
    &&& forall|c: int| 0 <= c < before.len() ==> prefix(before[c]@, (#[trigger] after[c])@)
}

/// What is refused is refused with this.
pub open spec fn refused(refusal: Option<Fault>, result: Result<()>) -> bool {
    refusal matches Some(fault) ==> result matches Err(error) && error@ == fault
}

/// Types that write their own columns.
///
/// An implementation must reproduce, byte for byte, what the schema-driven
/// path writes for the same value, over the column layout of the type's
/// schema.
pub trait SerializeColumns: StaticSchema + Modeled {
    /// Whether the value can be written. An implementation that also looks at
    /// what else the row holds, such as one that shares objects, promises
    /// nothing.
    spec fn writes(&self) -> bool;

    /// What the value is refused with, where that is known.
    open spec fn refusal(&self) -> Option<Fault> {
        None
    }

    /// What the value appends to each of its columns, walked as `w` says.
    spec fn image(&self, w: Walk) -> Image;

    /// The fast path writes what the schema-driven path writes, whatever the
    /// walk.
    proof fn lemma_image(&self, w: Walk, base: Base, row: Row)
        requires
            self.writes(),
            row.well_formed(),
            base + width_of(Self::node()) <= row.cols.len(),
        ensures
            self.image(w).len() == width_of(Self::node()),
            put(self.val(w), Self::node(), base, row) == Ok::<Row, Fault>(
                stamped(row, base, self.image(w)),
            ),
    ;

    /// Appends the value to its columns.
    fn serialize_columns(&self, columns: &mut [Vec<u8>]) -> (result: Result<()>)
        requires
            old(columns)@.len() == width_of(Self::node()),
        ensures
            kept(old(columns)@, final(columns)@),
            self.writes() ==> result is Ok && exists|w: Walk|
                appended(old(columns)@, final(columns)@, #[trigger] self.image(w)),
            refused(self.refusal(), result),
    ;
}

/// Appends one scalar to its column.
pub(crate) fn write_scalar(x: Scalar, columns: &mut [Vec<u8>])
    requires
        old(columns)@.len() == 1,
    ensures
        kept(old(columns)@, final(columns)@),
        appended(old(columns)@, final(columns)@, seq![scalar_bytes(x)]),
{
    x.write(&mut columns[0]);
}

impl Modeled for bool {
    open spec fn val(&self, w: Walk) -> Val {
        atom(Head::Scalar(Scalar::Bool(*self)))
    }
}

impl SerializeColumns for bool {
    open spec fn writes(&self) -> bool {
        true
    }

    open spec fn image(&self, w: Walk) -> Seq<Seq<u8>> {
        seq![scalar_bytes(Scalar::Bool(*self))]
    }

    proof fn lemma_image(&self, w: Walk, base: nat, row: Row) {
        lemma_stamp_append(row, base, scalar_bytes(Scalar::Bool(*self)));
    }

    fn serialize_columns(&self, columns: &mut [Vec<u8>]) -> (result: Result<()>) {
        write_scalar(Scalar::Bool(*self), columns);
        assert(self.image(straight()) == seq![scalar_bytes(Scalar::Bool(*self))]);
        Ok(())
    }
}

impl Modeled for i8 {
    open spec fn val(&self, w: Walk) -> Val {
        atom(Head::Scalar(Scalar::I8(*self)))
    }
}

impl SerializeColumns for i8 {
    open spec fn writes(&self) -> bool {
        true
    }

    open spec fn image(&self, w: Walk) -> Seq<Seq<u8>> {
        seq![scalar_bytes(Scalar::I8(*self))]
    }

    proof fn lemma_image(&self, w: Walk, base: nat, row: Row) {
        lemma_stamp_append(row, base, scalar_bytes(Scalar::I8(*self)));
    }

    fn serialize_columns(&self, columns: &mut [Vec<u8>]) -> (result: Result<()>) {
        write_scalar(Scalar::I8(*self), columns);
        assert(self.image(straight()) == seq![scalar_bytes(Scalar::I8(*self))]);
        Ok(())
    }
}

impl Modeled for i16 {
    open spec fn val(&self, w: Walk) -> Val {
        atom(Head::Scalar(Scalar::I16(*self)))
    }
}

impl SerializeColumns for i16 {
    open spec fn writes(&self) -> bool {
        true
    }

    open spec fn image(&self, w: Walk) -> Seq<Seq<u8>> {
        seq![scalar_bytes(Scalar::I16(*self))]
    }

    proof fn lemma_image(&self, w: Walk, base: nat, row: Row) {
        lemma_stamp_append(row, base, scalar_bytes(Scalar::I16(*self)));
    }

    fn serialize_columns(&self, columns: &mut [Vec<u8>]) -> (result: Result<()>) {
        write_scalar(Scalar::I16(*self), columns);
        assert(self.image(straight()) == seq![scalar_bytes(Scalar::I16(*self))]);
        Ok(())
    }
}

impl Modeled for i32 {
    open spec fn val(&self, w: Walk) -> Val {
        atom(Head::Scalar(Scalar::I32(*self)))
    }
}

impl SerializeColumns for i32 {
    open spec fn writes(&self) -> bool {
        true
    }

    open spec fn image(&self, w: Walk) -> Seq<Seq<u8>> {
        seq![scalar_bytes(Scalar::I32(*self))]
    }

    proof fn lemma_image(&self, w: Walk, base: nat, row: Row) {
        lemma_stamp_append(row, base, scalar_bytes(Scalar::I32(*self)));
    }

    fn serialize_columns(&self, columns: &mut [Vec<u8>]) -> (result: Result<()>) {
        write_scalar(Scalar::I32(*self), columns);
        assert(self.image(straight()) == seq![scalar_bytes(Scalar::I32(*self))]);
        Ok(())
    }
}

impl Modeled for i64 {
    open spec fn val(&self, w: Walk) -> Val {
        atom(Head::Scalar(Scalar::I64(*self)))
    }
}

impl SerializeColumns for i64 {
    open spec fn writes(&self) -> bool {
        true
    }

    open spec fn image(&self, w: Walk) -> Seq<Seq<u8>> {
        seq![scalar_bytes(Scalar::I64(*self))]
    }

    proof fn lemma_image(&self, w: Walk, base: nat, row: Row) {
        lemma_stamp_append(row, base, scalar_bytes(Scalar::I64(*self)));
    }

    fn serialize_columns(&self, columns: &mut [Vec<u8>]) -> (result: Result<()>) {
        write_scalar(Scalar::I64(*self), columns);
        assert(self.image(straight()) == seq![scalar_bytes(Scalar::I64(*self))]);
        Ok(())
    }
}

impl Modeled for i128 {
    open spec fn val(&self, w: Walk) -> Val {
        atom(Head::Scalar(Scalar::I128(*self)))
    }
}

impl SerializeColumns for i128 {
    open spec fn writes(&self) -> bool {
        true
    }

    open spec fn image(&self, w: Walk) -> Seq<Seq<u8>> {
        seq![scalar_bytes(Scalar::I128(*self))]
    }

    proof fn lemma_image(&self, w: Walk, base: nat, row: Row) {
        lemma_stamp_append(row, base, scalar_bytes(Scalar::I128(*self)));
    }

    fn serialize_columns(&self, columns: &mut [Vec<u8>]) -> (result: Result<()>) {
        write_scalar(Scalar::I128(*self), columns);
        assert(self.image(straight()) == seq![scalar_bytes(Scalar::I128(*self))]);
        Ok(())
    }
}

impl Modeled for isize {
    open spec fn val(&self, w: Walk) -> Val {
        atom(Head::Scalar(Scalar::I64(*self as i64)))
    }
}

impl SerializeColumns for isize {
    open spec fn writes(&self) -> bool {
        true
    }

    open spec fn image(&self, w: Walk) -> Seq<Seq<u8>> {
        seq![scalar_bytes(Scalar::I64(*self as i64))]
    }

    proof fn lemma_image(&self, w: Walk, base: nat, row: Row) {
        lemma_stamp_append(row, base, scalar_bytes(Scalar::I64(*self as i64)));
    }

    fn serialize_columns(&self, columns: &mut [Vec<u8>]) -> (result: Result<()>) {
        write_scalar(Scalar::I64(*self as i64), columns);
        assert(self.image(straight()) == seq![scalar_bytes(Scalar::I64(*self as i64))]);
        Ok(())
    }
}

impl Modeled for u8 {
    open spec fn val(&self, w: Walk) -> Val {
        atom(Head::Scalar(Scalar::U8(*self)))
    }
}

impl SerializeColumns for u8 {
    open spec fn writes(&self) -> bool {
        true
    }

    open spec fn image(&self, w: Walk) -> Seq<Seq<u8>> {
        seq![scalar_bytes(Scalar::U8(*self))]
    }

    proof fn lemma_image(&self, w: Walk, base: nat, row: Row) {
        lemma_stamp_append(row, base, scalar_bytes(Scalar::U8(*self)));
    }

    fn serialize_columns(&self, columns: &mut [Vec<u8>]) -> (result: Result<()>) {
        write_scalar(Scalar::U8(*self), columns);
        assert(self.image(straight()) == seq![scalar_bytes(Scalar::U8(*self))]);
        Ok(())
    }
}

impl Modeled for u16 {
    open spec fn val(&self, w: Walk) -> Val {
        atom(Head::Scalar(Scalar::U16(*self)))
    }
}

impl SerializeColumns for u16 {
    open spec fn writes(&self) -> bool {
        true
    }

    open spec fn image(&self, w: Walk) -> Seq<Seq<u8>> {
        seq![scalar_bytes(Scalar::U16(*self))]
    }

    proof fn lemma_image(&self, w: Walk, base: nat, row: Row) {
        lemma_stamp_append(row, base, scalar_bytes(Scalar::U16(*self)));
    }

    fn serialize_columns(&self, columns: &mut [Vec<u8>]) -> (result: Result<()>) {
        write_scalar(Scalar::U16(*self), columns);
        assert(self.image(straight()) == seq![scalar_bytes(Scalar::U16(*self))]);
        Ok(())
    }
}

impl Modeled for u32 {
    open spec fn val(&self, w: Walk) -> Val {
        atom(Head::Scalar(Scalar::U32(*self)))
    }
}

impl SerializeColumns for u32 {
    open spec fn writes(&self) -> bool {
        true
    }

    open spec fn image(&self, w: Walk) -> Seq<Seq<u8>> {
        seq![scalar_bytes(Scalar::U32(*self))]
    }

    proof fn lemma_image(&self, w: Walk, base: nat, row: Row) {
        lemma_stamp_append(row, base, scalar_bytes(Scalar::U32(*self)));
    }

    fn serialize_columns(&self, columns: &mut [Vec<u8>]) -> (result: Result<()>) {
        write_scalar(Scalar::U32(*self), columns);
        assert(self.image(straight()) == seq![scalar_bytes(Scalar::U32(*self))]);
        Ok(())
    }
}

impl Modeled for u64 {
    open spec fn val(&self, w: Walk) -> Val {
        atom(Head::Scalar(Scalar::U64(*self)))
    }
}

impl SerializeColumns for u64 {
    open spec fn writes(&self) -> bool {
        true
    }

    open spec fn image(&self, w: Walk) -> Seq<Seq<u8>> {
        seq![scalar_bytes(Scalar::U64(*self))]
    }

    proof fn lemma_image(&self, w: Walk, base: nat, row: Row) {
        lemma_stamp_append(row, base, scalar_bytes(Scalar::U64(*self)));
    }

    fn serialize_columns(&self, columns: &mut [Vec<u8>]) -> (result: Result<()>) {
        write_scalar(Scalar::U64(*self), columns);
        assert(self.image(straight()) == seq![scalar_bytes(Scalar::U64(*self))]);
        Ok(())
    }
}

impl Modeled for u128 {
    open spec fn val(&self, w: Walk) -> Val {
        atom(Head::Scalar(Scalar::U128(*self)))
    }
}

impl SerializeColumns for u128 {
    open spec fn writes(&self) -> bool {
        true
    }

    open spec fn image(&self, w: Walk) -> Seq<Seq<u8>> {
        seq![scalar_bytes(Scalar::U128(*self))]
    }

    proof fn lemma_image(&self, w: Walk, base: nat, row: Row) {
        lemma_stamp_append(row, base, scalar_bytes(Scalar::U128(*self)));
    }

    fn serialize_columns(&self, columns: &mut [Vec<u8>]) -> (result: Result<()>) {
        write_scalar(Scalar::U128(*self), columns);
        assert(self.image(straight()) == seq![scalar_bytes(Scalar::U128(*self))]);
        Ok(())
    }
}

impl Modeled for usize {
    open spec fn val(&self, w: Walk) -> Val {
        atom(Head::Scalar(Scalar::U64(*self as u64)))
    }
}

impl SerializeColumns for usize {
    open spec fn writes(&self) -> bool {
        true
    }

    open spec fn image(&self, w: Walk) -> Seq<Seq<u8>> {
        seq![scalar_bytes(Scalar::U64(*self as u64))]
    }

    proof fn lemma_image(&self, w: Walk, base: nat, row: Row) {
        lemma_stamp_append(row, base, scalar_bytes(Scalar::U64(*self as u64)));
    }

    fn serialize_columns(&self, columns: &mut [Vec<u8>]) -> (result: Result<()>) {
        write_scalar(Scalar::U64(*self as u64), columns);
        assert(self.image(straight()) == seq![scalar_bytes(Scalar::U64(*self as u64))]);
        Ok(())
    }
}

impl Modeled for char {
    open spec fn val(&self, w: Walk) -> Val {
        atom(Head::Scalar(Scalar::Char(*self)))
    }
}

impl SerializeColumns for char {
    open spec fn writes(&self) -> bool {
        true
    }

    open spec fn image(&self, w: Walk) -> Seq<Seq<u8>> {
        seq![scalar_bytes(Scalar::Char(*self))]
    }

    proof fn lemma_image(&self, w: Walk, base: nat, row: Row) {
        lemma_stamp_append(row, base, scalar_bytes(Scalar::Char(*self)));
    }

    fn serialize_columns(&self, columns: &mut [Vec<u8>]) -> (result: Result<()>) {
        write_scalar(Scalar::Char(*self), columns);
        assert(self.image(straight()) == seq![scalar_bytes(Scalar::Char(*self))]);
        Ok(())
    }
}

impl Modeled for () {
    open spec fn val(&self, w: Walk) -> Val {
        atom(Head::Unit)
    }
}

impl SerializeColumns for () {
    open spec fn writes(&self) -> bool {
        true
    }

    open spec fn image(&self, w: Walk) -> Seq<Seq<u8>> {
        seq![]
    }

    proof fn lemma_image(&self, w: Walk, base: nat, row: Row) {
        assert(stamped(row, base, seq![]).cols =~= row.cols);
    }

    fn serialize_columns(&self, columns: &mut [Vec<u8>]) -> (result: Result<()>) {
        assert(self.image(straight()).len() == 0);
        Ok(())
    }
}

impl<T: ?Sized> Modeled for PhantomData<T> {
    open spec fn val(&self, w: Walk) -> Val {
        atom(Head::UnitStruct("PhantomData"@))
    }
}

impl<T: ?Sized> SerializeColumns for PhantomData<T> {
    open spec fn writes(&self) -> bool {
        true
    }

    open spec fn image(&self, w: Walk) -> Seq<Seq<u8>> {
        seq![]
    }

    proof fn lemma_image(&self, w: Walk, base: nat, row: Row) {
        assert(stamped(row, base, seq![]).cols =~= row.cols);
    }

    fn serialize_columns(&self, columns: &mut [Vec<u8>]) -> (result: Result<()>) {
        assert(self.image(straight()).len() == 0);
        Ok(())
    }
}

impl Modeled for str {
    open spec fn val(&self, w: Walk) -> Val {
        atom(Head::Str(self@))
    }
}

impl SerializeColumns for str {
    open spec fn writes(&self) -> bool {
        true
    }

    open spec fn image(&self, w: Walk) -> Seq<Seq<u8>> {
        seq![varint::encoded(encode_utf8(self@).len()), encode_utf8(self@)]
    }

    proof fn lemma_image(&self, w: Walk, base: nat, row: Row) {
        let raw = encode_utf8(self@);
        let code = varint::encoded(raw.len());
        lemma_stamp_append(row, base, code);
        lemma_stamp_append(stamped(row, base, seq![code]), base + 1, raw);
        lemma_stamp_twice(row, base, seq![code], seq![raw]);
        assert(seq![code] + seq![raw] =~= self.image(w));
    }

    fn serialize_columns(&self, columns: &mut [Vec<u8>]) -> (result: Result<()>) {
        let raw = self.as_bytes();
        write_varint(&mut columns[0], raw.len() as u64);
        columns[1].extend_from_slice(raw);
        assert(columns@[1]@ =~= old(columns)@[1]@ + raw@);
        assert(self.image(straight()).len() == 2);
        Ok(())
    }
}

impl Modeled for String {
    open spec fn val(&self, w: Walk) -> Val {
        atom(Head::Str(self@))
    }
}

impl SerializeColumns for String {
    open spec fn writes(&self) -> bool {
        true
    }

    open spec fn image(&self, w: Walk) -> Seq<Seq<u8>> {
        seq![varint::encoded(encode_utf8(self@).len()), encode_utf8(self@)]
    }

    proof fn lemma_image(&self, w: Walk, base: nat, row: Row) {
        let raw = encode_utf8(self@);
        let code = varint::encoded(raw.len());
        lemma_stamp_append(row, base, code);
        lemma_stamp_append(stamped(row, base, seq![code]), base + 1, raw);
        lemma_stamp_twice(row, base, seq![code], seq![raw]);
        assert(seq![code] + seq![raw] =~= self.image(w));
    }

    fn serialize_columns(&self, columns: &mut [Vec<u8>]) -> (result: Result<()>) {
        assert(self.image(straight()).len() == 2);
        self.as_str().serialize_columns(columns)
    }
}

impl<T: Modeled> Modeled for Option<T> {
    open spec fn val(&self, w: Walk) -> Val {
        match *self {
            None => atom(Head::Absent),
            Some(x) => Val { head: Head::Present, kids: seq![x.val(w)] },
        }
    }

    open spec fn stands_for(&self, v: Val) -> bool {
        match *self {
            None => v == atom(Head::Absent),
            Some(x) => v.head is Present && v.kids.len() == 1 && x.stands_for(v.kids[0]),
        }
    }
}

impl<T: SerializeColumns> SerializeColumns for Option<T> {
    open spec fn writes(&self) -> bool {
        match *self {
            None => true,
            Some(x) => x.writes(),
        }
    }

    open spec fn refusal(&self) -> Option<Fault> {
        match *self {
            None => None,
            Some(x) => x.refusal(),
        }
    }

    open spec fn image(&self, w: Walk) -> Seq<Seq<u8>> {
        match *self {
            None => seq![seq![0u8]] + blank(width_of(T::node())),
            Some(x) => seq![seq![1u8]] + x.image(w),
        }
    }

    proof fn lemma_image(&self, w: Walk, base: nat, row: Row) {
        lemma_one_kid_columns(Self::node());
        match *self {
            None => {
                let width = width_of(T::node());
                lemma_stamp_append(row, base, seq![0u8]);
                lemma_stamp_twice(row, base, seq![seq![0u8]], blank(width));
                lemma_stamp_blank(stamped(row, base, seq![seq![0u8]]), base + 1, width);
            },
            Some(x) => {
                lemma_stamp_append(row, base, seq![1u8]);
                let tagged = row.append(base, seq![1u8]);
                x.lemma_image(w, base + 1, tagged);
                lemma_stamp_twice(row, base, seq![seq![1u8]], x.image(w));
            },
        }
    }

    fn serialize_columns(&self, columns: &mut [Vec<u8>]) -> (result: Result<()>) {
        proof {
            lemma_one_kid_columns(Self::node());
        }
        let ghost before = columns@;
        match self {
            None => {
                columns[0].push(0);
                assert(columns@[0]@ =~= before[0]@ + seq![0u8]);
                let ghost image = self.image(straight());
                assert forall|c: int| 0 <= c < before.len() implies (#[trigger] columns@[c])@
                    == before[c]@ + image[c] by {
                    assert(columns@[c]@ =~= before[c]@ + image[c]);
                }
                Ok(())
            },
            Some(x) => {
                columns[0].push(1);
                assert(columns@[0]@ =~= before[0]@ + seq![1u8]);
                let (head, rest) = columns.split_at_mut(1);
                let ghost rest_before = rest@;
                let result = x.serialize_columns(rest);
                proof {
                    if x.writes() {
                        let w = choose|w: Walk| appended(rest_before, rest@, #[trigger] x.image(w));
                        lemma_image_len(x, w);
                        assert(self.image(w) == seq![seq![1u8]] + x.image(w));
                    }
                }
                result
            },
        }
    }
}

/// The trees of a list of typed values.
pub open spec fn item_vals<T: Modeled>(items: Seq<T>, w: Walk) -> Seq<Val> {
    Seq::new(items.len(), |i: int| items[i].val(w.part(i)))
}

/// Each item is what is read from the tree in its place.
pub open spec fn all_stand<T: Modeled>(items: Seq<T>, kids: Seq<Val>) -> bool {
    &&& items.len() == kids.len()
    &&& forall|i: int| 0 <= i < items.len() ==> (#[trigger] items[i]).stands_for(kids[i])
}

/// Every item can be written.
pub open spec fn all_write<T: SerializeColumns>(items: Seq<T>) -> bool {
    forall|i: int| 0 <= i < items.len() ==> (#[trigger] items[i]).writes()
}

/// What the items from number `i` on are refused with, where that is known: the
/// first that cannot be written decides.
pub open spec fn first_refusal<T: SerializeColumns>(items: Seq<T>, i: nat) -> Option<Fault>
    decreases items.len() - i,
{
    if i >= items.len() {
        None
    } else if items[i as int].writes() {
        first_refusal(items, i + 1)
    } else {
        items[i as int].refusal()
    }
}

/// What the first `n` items append to the columns of an element.
pub open spec fn item_images<T: SerializeColumns>(items: Seq<T>, w: Walk, n: nat) -> Seq<Seq<u8>>
    decreases n,
{
    if n == 0 {
        blank(width_of(T::node()))
    } else {
        layered(item_images(items, w, (n - 1) as nat), items[n - 1].image(w.part(n - 1)))
    }
}

pub(crate) proof fn lemma_item_images_len<T: SerializeColumns>(items: Seq<T>, w: Walk, n: nat)
    ensures
        item_images(items, w, n).len() == width_of(T::node()),
    decreases n,
{
    if n > 0 {
        lemma_item_images_len(items, w, (n - 1) as nat);
    }
}

pub(crate) proof fn lemma_item_images<T: SerializeColumns>(
    items: Seq<T>,
    w: Walk,
    v: Val,
    s: Shape,
    base: nat,
    row: Row,
    n: nat,
)
    requires
        all_write(items),
        v.kids == item_vals(items, w),
        s.kids == seq![T::node()],
        n <= items.len(),
        row.well_formed(),
        base + 1 + width_of(T::node()) <= row.cols.len(),
    ensures
        item_images(items, w, n).len() == width_of(T::node()),
        put_items(v, s, base, row, n) == Ok::<Row, Fault>(
            stamped(row, base + 1, item_images(items, w, n)),
        ),
    decreases n,
{
    if n == 0 {
        lemma_stamp_blank(row, base + 1, width_of(T::node()));
    } else {
        let m = (n - 1) as nat;
        lemma_item_images(items, w, v, s, base, row, m);
        let mid = stamped(row, base + 1, item_images(items, w, m));
        assert(items[m as int].writes());
        items[m as int].lemma_image(w.part(m as int), base + 1, mid);
        lemma_stamp_layer(row, base + 1, item_images(items, w, m), items[m as int].image(w.part(m as int)));
    }
}

/// The width of an image, whatever the row.
pub proof fn lemma_image_len<T: SerializeColumns + ?Sized>(x: &T, w: Walk)
    requires
        x.writes(),
    ensures
        x.image(w).len() == width_of(T::node()),
{
    x.lemma_image(w, 
        0,
        Row {
            cols: blank(width_of(T::node())),
            book: Seq::new(width_of(T::node()), |c: int| Seq::<u64>::empty()),
        },
    );
}

/// The images of the first `n` items rest on the walks of these alone.
pub(crate) proof fn lemma_same_images<T: SerializeColumns>(items: Seq<T>, a: Walk, b: Walk, n: nat)
    requires
        forall|i: int| 0 <= i < n ==> #[trigger] a.part(i) == b.part(i),
    ensures
        item_images(items, a, n) == item_images(items, b, n),
    decreases n,
{
    if n > 0 {
        lemma_same_images(items, a, b, (n - 1) as nat);
        assert(a.part(n - 1) == b.part(n - 1));
    }
}

/// Appends a list of items to the columns of an element.
pub(crate) fn write_items<T: SerializeColumns>(items: &[T], elems: &mut [Vec<u8>]) -> (result: Result<()>)
    requires
        old(elems)@.len() == width_of(T::node()),
    ensures
        kept(old(elems)@, final(elems)@),
        all_write(items@) ==> result is Ok && exists|w: Walk|
            appended(old(elems)@, final(elems)@, #[trigger] item_images(items@, w, items@.len())),
        refused(first_refusal(items@, 0), result),
{
    let ghost before = elems@;
    let ghost mut walks: Seq<Walk> = seq![];
    let mut i: usize = 0;
    proof {
        let none = item_images(items@, through(walks), 0);
        lemma_item_images_len(items@, through(walks), 0);
        assert forall|c: int| 0 <= c < before.len() implies (#[trigger] elems@[c])@ == before[c]@
            + none[c] by {
            assert(elems@[c]@ =~= before[c]@ + none[c]);
        }
    }
    while i < items.len()
        invariant
            i <= items@.len(),
            before == old(elems)@,
            before.len() == width_of(T::node()),
            kept(before, elems@),
            all_write(items@) ==> walks.len() == i,
            all_write(items@) ==> appended(
                before,
                elems@,
                item_images(items@, through(walks), i as nat),
            ),
            first_refusal(items@, 0) is Some ==> first_refusal(items@, 0) == first_refusal(
                items@,
                i as nat,
            ),
        decreases items@.len() - i,
    {
        let ghost mid = elems@;
        let result = items[i].serialize_columns(elems);
        proof {
            assert forall|c: int| 0 <= c < before.len() implies prefix(
                before[c]@,
                (#[trigger] elems@[c])@,
            ) by {
                assert(prefix(before[c]@, mid[c]@));
            }
        }
        match result {
            Ok(_) => {
                proof {
                    if all_write(items@) {
                        let x = items@[i as int];
                        assert(x.writes());
                        let w = choose|w: Walk| appended(mid, elems@, #[trigger] x.image(w));
                        let past = through(walks);
                        walks = walks.push(w);
                        let all = through(walks);
                        assert forall|j: int| 0 <= j < i implies #[trigger] past.part(j)
                            == all.part(j) by {}
                        lemma_same_images(items@, past, all, i as nat);
                        assert(all.part(i as int) == w);
                        lemma_item_images_len(items@, all, (i + 1) as nat);
                        assert forall|c: int| 0 <= c < before.len() implies (#[trigger] elems@[c])@
                            == before[c]@ + item_images(items@, all, (i + 1) as nat)[c] by {
                            assert(mid[c]@ == before[c]@ + item_images(items@, past, i as nat)[c]);
                            assert(elems@[c]@ =~= before[c]@ + item_images(
                                items@,
                                all,
                                (i + 1) as nat,
                            )[c]);
                        }
                    }
                }
            },
            Err(error) => {
                assert(items@[i as int].writes() ==> false);
                return Err(error);
            },
        }
        i += 1;
    }
    Ok(())
}

impl<T: Modeled> Modeled for Vec<T> {
    open spec fn val(&self, w: Walk) -> Val {
        Val { head: Head::Sequence, kids: item_vals(self@, w) }
    }

    open spec fn stands_for(&self, v: Val) -> bool {
        v.head is Sequence && all_stand(self@, v.kids)
    }
}

impl<T: SerializeColumns> SerializeColumns for Vec<T> {
    open spec fn writes(&self) -> bool {
        all_write(self@)
    }

    open spec fn refusal(&self) -> Option<Fault> {
        first_refusal(self@, 0)
    }

    open spec fn image(&self, w: Walk) -> Seq<Seq<u8>> {
        seq![varint::encoded(self@.len())] + item_images(self@, w, self@.len())
    }

    proof fn lemma_image(&self, w: Walk, base: nat, row: Row) {
        let s = Self::node();
        lemma_one_kid_columns(s);
        lemma_item_images(self@, w, self.val(w), s, base, row, self@.len());
        lemma_stamp_before(
            row,
            base,
            varint::encoded(self@.len()),
            item_images(self@, w, self@.len()),
        );
    }

    fn serialize_columns(&self, columns: &mut [Vec<u8>]) -> (result: Result<()>) {
        proof {
            lemma_one_kid_columns(Self::node());
            assert forall|w: Walk| #[trigger] item_images(self@, w, self@.len()).len() == width_of(
                T::node(),
            ) by {
                lemma_item_images_len(self@, w, self@.len());
            }
        }
        write_varint(&mut columns[0], self.len() as u64);
        let (head, rest) = columns.split_at_mut(1);
        let result = write_items(self.as_slice(), rest);
        assert forall|w: Walk| #[trigger] item_images(self@, w, self@.len()) == self.image(
            w,
        ).skip(1) by {
            assert(self.image(w).skip(1) =~= item_images(self@, w, self@.len()));
        }
        result
    }
}

impl<T: Modeled + ?Sized> Modeled for &T {
    open spec fn val(&self, w: Walk) -> Val {
        (**self).val(w)
    }

    open spec fn stands_for(&self, v: Val) -> bool {
        (**self).stands_for(v)
    }
}

impl<T: SerializeColumns + ?Sized> SerializeColumns for &T {
    open spec fn writes(&self) -> bool {
        (**self).writes()
    }

    open spec fn refusal(&self) -> Option<Fault> {
        (**self).refusal()
    }

    open spec fn image(&self, w: Walk) -> Seq<Seq<u8>> {
        (**self).image(w)
    }

    proof fn lemma_image(&self, w: Walk, base: nat, row: Row) {
        (**self).lemma_image(w, base, row);
    }

    fn serialize_columns(&self, columns: &mut [Vec<u8>]) -> (result: Result<()>) {
        assert forall|w: Walk| #[trigger] (**self).image(w) == self.image(w) by {}
        (**self).serialize_columns(columns)
    }
}

impl<T: Modeled + ?Sized> Modeled for &mut T {
    open spec fn val(&self, w: Walk) -> Val {
        (**self).val(w)
    }

    open spec fn stands_for(&self, v: Val) -> bool {
        (**self).stands_for(v)
    }
}

impl<T: SerializeColumns + ?Sized> SerializeColumns for &mut T {
    open spec fn writes(&self) -> bool {
        (**self).writes()
    }

    open spec fn refusal(&self) -> Option<Fault> {
        (**self).refusal()
    }

    open spec fn image(&self, w: Walk) -> Seq<Seq<u8>> {
        (**self).image(w)
    }

    proof fn lemma_image(&self, w: Walk, base: nat, row: Row) {
        (**self).lemma_image(w, base, row);
    }

    fn serialize_columns(&self, columns: &mut [Vec<u8>]) -> (result: Result<()>) {
        assert forall|w: Walk| #[trigger] (**self).image(w) == self.image(w) by {}
        (**self).serialize_columns(columns)
    }
}

impl<T: Modeled + ?Sized> Modeled for Box<T> {
    open spec fn val(&self, w: Walk) -> Val {
        (**self).val(w)
    }

    open spec fn stands_for(&self, v: Val) -> bool {
        (**self).stands_for(v)
    }
}

impl<T: SerializeColumns + ?Sized> SerializeColumns for Box<T> {
    open spec fn writes(&self) -> bool {
        (**self).writes()
    }

    open spec fn refusal(&self) -> Option<Fault> {
        (**self).refusal()
    }

    open spec fn image(&self, w: Walk) -> Seq<Seq<u8>> {
        (**self).image(w)
    }

    proof fn lemma_image(&self, w: Walk, base: nat, row: Row) {
        (**self).lemma_image(w, base, row);
    }

    fn serialize_columns(&self, columns: &mut [Vec<u8>]) -> (result: Result<()>) {
        assert forall|w: Walk| #[trigger] (**self).image(w) == self.image(w) by {}
        (**self).serialize_columns(columns)
    }
}

impl<T: Modeled + ?Sized> Modeled for Rc<T> {
    open spec fn val(&self, w: Walk) -> Val {
        (**self).val(w)
    }

    open spec fn stands_for(&self, v: Val) -> bool {
        (**self).stands_for(v)
    }
}

impl<T: SerializeColumns + ?Sized> SerializeColumns for Rc<T> {
    open spec fn writes(&self) -> bool {
        (**self).writes()
    }

    open spec fn refusal(&self) -> Option<Fault> {
        (**self).refusal()
    }

    open spec fn image(&self, w: Walk) -> Seq<Seq<u8>> {
        (**self).image(w)
    }

    proof fn lemma_image(&self, w: Walk, base: nat, row: Row) {
        (**self).lemma_image(w, base, row);
    }

    fn serialize_columns(&self, columns: &mut [Vec<u8>]) -> (result: Result<()>) {
        assert forall|w: Walk| #[trigger] (**self).image(w) == self.image(w) by {}
        (**self).serialize_columns(columns)
    }
}

impl<T0: Modeled> Modeled for (T0,) {
    open spec fn val(&self, w: Walk) -> Val {
        Val { head: Head::Tuple, kids: seq![self.0.val(w.part(0))] }
    }

    open spec fn stands_for(&self, v: Val) -> bool {
        &&& v.head is Tuple
        &&& v.kids.len() == 1
        &&& self.0.stands_for(v.kids[0])
    }
}

impl<T0: SerializeColumns> SerializeColumns for (T0,) {
    open spec fn writes(&self) -> bool {
        self.0.writes()
    }

    open spec fn refusal(&self) -> Option<Fault> {
        self.0.refusal()
    }

    open spec fn image(&self, w: Walk) -> Seq<Seq<u8>> {
        self.0.image(w.part(0))
    }

    proof fn lemma_image(&self, w: Walk, base: nat, row: Row) {
        let s = Self::node();
        let v = self.val(w);
        assert(put_fields(v, s, base, row, 0) == Ok::<Row, Fault>(row));
        let r0 = row;
        let b0 = base;
        assert(columns_before(s, 1) == columns_before(s, 0) + width_of(T0::node()));
        assert(kid_base(s, base, 0) == b0);
        self.0.lemma_image(w.part(0), b0, r0);
        let r1 = stamped(r0, b0, self.0.image(w.part(0)));
        let b1 = b0 + self.0.image(w.part(0)).len();
        assert(put_fields(v, s, base, row, 1) == Ok::<Row, Fault>(r1));
    }

    fn serialize_columns(&self, columns: &mut [Vec<u8>]) -> (result: Result<()>) {
        assert(columns@.len() == columns.len());
        proof {
            let s = Self::node();
            assert(columns_before(s, 1) == columns_before(s, 0) + width_of(T0::node()));
        }
        let rest = columns;
        let ghost before0 = rest@;
        let result = self.0.serialize_columns(rest);
        proof {
            if self.writes() {
                let w0 = choose|w: Walk| appended(before0, rest@, #[trigger] self.0.image(w));
                lemma_image_len(&self.0, w0);
                let w = through(seq![w0]);
                assert(w.part(0) == w0);
                assert(self.image(w) == self.0.image(w0));
            }
        }
        result
    }
}

impl<T0: Modeled, T1: Modeled> Modeled for (T0, T1) {
    open spec fn val(&self, w: Walk) -> Val {
        Val { head: Head::Tuple, kids: seq![self.0.val(w.part(0)), self.1.val(w.part(1))] }
    }

    open spec fn stands_for(&self, v: Val) -> bool {
        &&& v.head is Tuple
        &&& v.kids.len() == 2
        &&& self.0.stands_for(v.kids[0])
        &&& self.1.stands_for(v.kids[1])
    }
}

impl<T0: SerializeColumns, T1: SerializeColumns> SerializeColumns for (T0, T1) {
    open spec fn writes(&self) -> bool {
        self.0.writes() && self.1.writes()
    }

    open spec fn refusal(&self) -> Option<Fault> {
        if !self.0.writes() {
            self.0.refusal()
        } else {
            self.1.refusal()
        }
    }

    open spec fn image(&self, w: Walk) -> Seq<Seq<u8>> {
        self.0.image(w.part(0)) + self.1.image(w.part(1))
    }

    proof fn lemma_image(&self, w: Walk, base: nat, row: Row) {
        let s = Self::node();
        let v = self.val(w);
        assert(put_fields(v, s, base, row, 0) == Ok::<Row, Fault>(row));
        let r0 = row;
        let b0 = base;
        assert(columns_before(s, 1) == columns_before(s, 0) + width_of(T0::node()));
        assert(kid_base(s, base, 0) == b0);
        self.0.lemma_image(w.part(0), b0, r0);
        let r1 = stamped(r0, b0, self.0.image(w.part(0)));
        let b1 = b0 + self.0.image(w.part(0)).len();
        assert(put_fields(v, s, base, row, 1) == Ok::<Row, Fault>(r1));
        assert(columns_before(s, 2) == columns_before(s, 1) + width_of(T1::node()));
        assert(kid_base(s, base, 1) == b1);
        self.1.lemma_image(w.part(1), b1, r1);
        let r2 = stamped(r1, b1, self.1.image(w.part(1)));
        let b2 = b1 + self.1.image(w.part(1)).len();
        assert(put_fields(v, s, base, row, 2) == Ok::<Row, Fault>(r2));
        lemma_stamp_twice(row, base, self.0.image(w.part(0)), self.1.image(w.part(1)));
    }

    fn serialize_columns(&self, columns: &mut [Vec<u8>]) -> (result: Result<()>) {
        assert(columns@.len() == columns.len());
        proof {
            let s = Self::node();
            assert(columns_before(s, 1) == columns_before(s, 0) + width_of(T0::node()));
            assert(columns_before(s, 2) == columns_before(s, 1) + width_of(T1::node()));
        }
        let rest = columns;
        let (part, rest) = rest.split_at_mut(T0::columns());
        let ghost before0 = part@;
        match self.0.serialize_columns(part) {
            Ok(_) => {},
            Err(error) => return Err(error),
        }
        let ghost after0 = part@;
        let ghost before1 = rest@;
        let result = self.1.serialize_columns(rest);
        proof {
            if self.writes() {
                let w0 = choose|w: Walk| appended(before0, after0, #[trigger] self.0.image(w));
                lemma_image_len(&self.0, w0);
                let w1 = choose|w: Walk| appended(before1, rest@, #[trigger] self.1.image(w));
                lemma_image_len(&self.1, w1);
                let w = through(seq![w0, w1]);
                assert(w.part(0) == w0 && w.part(1) == w1);
                assert(self.image(w) == self.0.image(w0) + self.1.image(w1));
            }
        }
        result
    }
}

impl<T0: Modeled, T1: Modeled, T2: Modeled> Modeled for (T0, T1, T2) {
    open spec fn val(&self, w: Walk) -> Val {
        Val { head: Head::Tuple, kids: seq![self.0.val(w.part(0)), self.1.val(w.part(1)), self.2.val(w.part(2))] }
    }

    open spec fn stands_for(&self, v: Val) -> bool {
        &&& v.head is Tuple
        &&& v.kids.len() == 3
        &&& self.0.stands_for(v.kids[0])
        &&& self.1.stands_for(v.kids[1])
        &&& self.2.stands_for(v.kids[2])
    }
}

impl<T0: SerializeColumns, T1: SerializeColumns, T2: SerializeColumns> SerializeColumns for (T0, T1, T2) {
    open spec fn writes(&self) -> bool {
        self.0.writes() && self.1.writes() && self.2.writes()
    }

    open spec fn refusal(&self) -> Option<Fault> {
        if !self.0.writes() {
            self.0.refusal()
        } else if !self.1.writes() {
            self.1.refusal()
        } else {
            self.2.refusal()
        }
    }

    open spec fn image(&self, w: Walk) -> Seq<Seq<u8>> {
        self.0.image(w.part(0)) + self.1.image(w.part(1)) + self.2.image(w.part(2))
    }

    proof fn lemma_image(&self, w: Walk, base: nat, row: Row) {
        let s = Self::node();
        let v = self.val(w);
        assert(put_fields(v, s, base, row, 0) == Ok::<Row, Fault>(row));
        let r0 = row;
        let b0 = base;
        assert(columns_before(s, 1) == columns_before(s, 0) + width_of(T0::node()));
        assert(kid_base(s, base, 0) == b0);
        self.0.lemma_image(w.part(0), b0, r0);
        let r1 = stamped(r0, b0, self.0.image(w.part(0)));
        let b1 = b0 + self.0.image(w.part(0)).len();
        assert(put_fields(v, s, base, row, 1) == Ok::<Row, Fault>(r1));
        assert(columns_before(s, 2) == columns_before(s, 1) + width_of(T1::node()));
        assert(kid_base(s, base, 1) == b1);
        self.1.lemma_image(w.part(1), b1, r1);
        let r2 = stamped(r1, b1, self.1.image(w.part(1)));
        let b2 = b1 + self.1.image(w.part(1)).len();
        assert(put_fields(v, s, base, row, 2) == Ok::<Row, Fault>(r2));
        lemma_stamp_twice(row, base, self.0.image(w.part(0)), self.1.image(w.part(1)));
        assert(columns_before(s, 3) == columns_before(s, 2) + width_of(T2::node()));
        assert(kid_base(s, base, 2) == b2);
        self.2.lemma_image(w.part(2), b2, r2);
        let r3 = stamped(r2, b2, self.2.image(w.part(2)));
        let b3 = b2 + self.2.image(w.part(2)).len();
        assert(put_fields(v, s, base, row, 3) == Ok::<Row, Fault>(r3));
        lemma_stamp_twice(row, base, self.0.image(w.part(0)) + self.1.image(w.part(1)), self.2.image(w.part(2)));
    }

    fn serialize_columns(&self, columns: &mut [Vec<u8>]) -> (result: Result<()>) {
        assert(columns@.len() == columns.len());
        proof {
            let s = Self::node();
            assert(columns_before(s, 1) == columns_before(s, 0) + width_of(T0::node()));
            assert(columns_before(s, 2) == columns_before(s, 1) + width_of(T1::node()));
            assert(columns_before(s, 3) == columns_before(s, 2) + width_of(T2::node()));
        }
        let rest = columns;
        let (part, rest) = rest.split_at_mut(T0::columns());
        let ghost before0 = part@;
        match self.0.serialize_columns(part) {
            Ok(_) => {},
            Err(error) => return Err(error),
        }
        let ghost after0 = part@;
        let (part, rest) = rest.split_at_mut(T1::columns());
        let ghost before1 = part@;
        match self.1.serialize_columns(part) {
            Ok(_) => {},
            Err(error) => return Err(error),
        }
        let ghost after1 = part@;
        let ghost before2 = rest@;
        let result = self.2.serialize_columns(rest);
        proof {
            if self.writes() {
                let w0 = choose|w: Walk| appended(before0, after0, #[trigger] self.0.image(w));
                lemma_image_len(&self.0, w0);
                let w1 = choose|w: Walk| appended(before1, after1, #[trigger] self.1.image(w));
                lemma_image_len(&self.1, w1);
                let w2 = choose|w: Walk| appended(before2, rest@, #[trigger] self.2.image(w));
                lemma_image_len(&self.2, w2);
                let w = through(seq![w0, w1, w2]);
                assert(w.part(0) == w0 && w.part(1) == w1 && w.part(2) == w2);
                assert(self.image(w) == self.0.image(w0) + self.1.image(w1) + self.2.image(w2));
            }
        }
        result
    }
}

impl<T0: Modeled, T1: Modeled, T2: Modeled, T3: Modeled> Modeled for (T0, T1, T2, T3) {
    open spec fn val(&self, w: Walk) -> Val {
        Val { head: Head::Tuple, kids: seq![self.0.val(w.part(0)), self.1.val(w.part(1)), self.2.val(w.part(2)), self.3.val(w.part(3))] }
    }

    open spec fn stands_for(&self, v: Val) -> bool {
        &&& v.head is Tuple
        &&& v.kids.len() == 4
        &&& self.0.stands_for(v.kids[0])
        &&& self.1.stands_for(v.kids[1])
        &&& self.2.stands_for(v.kids[2])
        &&& self.3.stands_for(v.kids[3])
    }
}

impl<T0: SerializeColumns, T1: SerializeColumns, T2: SerializeColumns, T3: SerializeColumns> SerializeColumns for (T0, T1, T2, T3) {
    open spec fn writes(&self) -> bool {
        self.0.writes() && self.1.writes() && self.2.writes() && self.3.writes()
    }

    open spec fn refusal(&self) -> Option<Fault> {
        if !self.0.writes() {
            self.0.refusal()
        } else if !self.1.writes() {
            self.1.refusal()
        } else if !self.2.writes() {
            self.2.refusal()
        } else {
            self.3.refusal()
        }
    }

    open spec fn image(&self, w: Walk) -> Seq<Seq<u8>> {
        self.0.image(w.part(0)) + self.1.image(w.part(1)) + self.2.image(w.part(2)) + self.3.image(w.part(3))
    }

    proof fn lemma_image(&self, w: Walk, base: nat, row: Row) {
        let s = Self::node();
        let v = self.val(w);
        assert(put_fields(v, s, base, row, 0) == Ok::<Row, Fault>(row));
        let r0 = row;
        let b0 = base;
        assert(columns_before(s, 1) == columns_before(s, 0) + width_of(T0::node()));
        assert(kid_base(s, base, 0) == b0);
        self.0.lemma_image(w.part(0), b0, r0);
        let r1 = stamped(r0, b0, self.0.image(w.part(0)));
        let b1 = b0 + self.0.image(w.part(0)).len();
        assert(put_fields(v, s, base, row, 1) == Ok::<Row, Fault>(r1));
        assert(columns_before(s, 2) == columns_before(s, 1) + width_of(T1::node()));
        assert(kid_base(s, base, 1) == b1);
        self.1.lemma_image(w.part(1), b1, r1);
        let r2 = stamped(r1, b1, self.1.image(w.part(1)));
        let b2 = b1 + self.1.image(w.part(1)).len();
        assert(put_fields(v, s, base, row, 2) == Ok::<Row, Fault>(r2));
        lemma_stamp_twice(row, base, self.0.image(w.part(0)), self.1.image(w.part(1)));
        assert(columns_before(s, 3) == columns_before(s, 2) + width_of(T2::node()));
        assert(kid_base(s, base, 2) == b2);
        self.2.lemma_image(w.part(2), b2, r2);
        let r3 = stamped(r2, b2, self.2.image(w.part(2)));
        let b3 = b2 + self.2.image(w.part(2)).len();
        assert(put_fields(v, s, base, row, 3) == Ok::<Row, Fault>(r3));
        lemma_stamp_twice(row, base, self.0.image(w.part(0)) + self.1.image(w.part(1)), self.2.image(w.part(2)));
        assert(columns_before(s, 4) == columns_before(s, 3) + width_of(T3::node()));
        assert(kid_base(s, base, 3) == b3);
        self.3.lemma_image(w.part(3), b3, r3);
        let r4 = stamped(r3, b3, self.3.image(w.part(3)));
        let b4 = b3 + self.3.image(w.part(3)).len();
        assert(put_fields(v, s, base, row, 4) == Ok::<Row, Fault>(r4));
        lemma_stamp_twice(row, base, self.0.image(w.part(0)) + self.1.image(w.part(1)) + self.2.image(w.part(2)), self.3.image(w.part(3)));
    }

    fn serialize_columns(&self, columns: &mut [Vec<u8>]) -> (result: Result<()>) {
        assert(columns@.len() == columns.len());
        proof {
            let s = Self::node();
            assert(columns_before(s, 1) == columns_before(s, 0) + width_of(T0::node()));
            assert(columns_before(s, 2) == columns_before(s, 1) + width_of(T1::node()));
            assert(columns_before(s, 3) == columns_before(s, 2) + width_of(T2::node()));
            assert(columns_before(s, 4) == columns_before(s, 3) + width_of(T3::node()));
        }
        let rest = columns;
        let (part, rest) = rest.split_at_mut(T0::columns());
        let ghost before0 = part@;
        match self.0.serialize_columns(part) {
            Ok(_) => {},
            Err(error) => return Err(error),
        }
        let ghost after0 = part@;
        let (part, rest) = rest.split_at_mut(T1::columns());
        let ghost before1 = part@;
        match self.1.serialize_columns(part) {
            Ok(_) => {},
            Err(error) => return Err(error),
        }
        let ghost after1 = part@;
        let (part, rest) = rest.split_at_mut(T2::columns());
        let ghost before2 = part@;
        match self.2.serialize_columns(part) {
            Ok(_) => {},
            Err(error) => return Err(error),
        }
        let ghost after2 = part@;
        let ghost before3 = rest@;
        let result = self.3.serialize_columns(rest);
        proof {
            if self.writes() {
                let w0 = choose|w: Walk| appended(before0, after0, #[trigger] self.0.image(w));
                lemma_image_len(&self.0, w0);
                let w1 = choose|w: Walk| appended(before1, after1, #[trigger] self.1.image(w));
                lemma_image_len(&self.1, w1);
                let w2 = choose|w: Walk| appended(before2, after2, #[trigger] self.2.image(w));
                lemma_image_len(&self.2, w2);
                let w3 = choose|w: Walk| appended(before3, rest@, #[trigger] self.3.image(w));
                lemma_image_len(&self.3, w3);
                let w = through(seq![w0, w1, w2, w3]);
                assert(w.part(0) == w0 && w.part(1) == w1 && w.part(2) == w2 && w.part(3) == w3);
                assert(self.image(w) == self.0.image(w0) + self.1.image(w1) + self.2.image(w2) + self.3.image(w3));
            }
        }
        result
    }
}

pub proof fn lemma_width_2<T0: StaticSchema, T1: StaticSchema>()
    ensures
        width_of(<(T0, T1)>::node()) == width_of(T0::node()) + width_of(T1::node()),
{
    let s = <(T0, T1)>::node();
    assert(columns_before(s, 1) == columns_before(s, 0) + width_of(T0::node()));
    assert(columns_before(s, 2) == columns_before(s, 1) + width_of(T1::node()));
}

proof fn lemma_width_4<T0: StaticSchema, T1: StaticSchema, T2: StaticSchema, T3: StaticSchema>()
    ensures
        width_of(<(T0, T1, T2, T3)>::node()) == width_of(T0::node()) + width_of(T1::node()) + width_of(T2::node()) + width_of(T3::node()),
{
    let s = <(T0, T1, T2, T3)>::node();
    assert(columns_before(s, 1) == columns_before(s, 0) + width_of(T0::node()));
    assert(columns_before(s, 2) == columns_before(s, 1) + width_of(T1::node()));
    assert(columns_before(s, 3) == columns_before(s, 2) + width_of(T2::node()));
    assert(columns_before(s, 4) == columns_before(s, 3) + width_of(T3::node()));
}

impl<T0: Modeled, T1: Modeled, T2: Modeled, T3: Modeled, T4: Modeled> Modeled for (T0, T1, T2, T3, T4) {
    open spec fn val(&self, w: Walk) -> Val {
        Val {
            head: Head::Tuple,
            kids: seq![
                self.0.val(w.part(0).part(0)),
                self.1.val(w.part(0).part(1)),
                self.2.val(w.part(0).part(2)),
                self.3.val(w.part(0).part(3)),
                self.4.val(w.part(1)),
            ],
        }
    }

    open spec fn stands_for(&self, v: Val) -> bool {
        &&& v.head is Tuple
        &&& v.kids.len() == 5
        &&& self.0.stands_for(v.kids[0])
        &&& self.1.stands_for(v.kids[1])
        &&& self.2.stands_for(v.kids[2])
        &&& self.3.stands_for(v.kids[3])
        &&& self.4.stands_for(v.kids[4])
    }
}

impl<T0: SerializeColumns, T1: SerializeColumns, T2: SerializeColumns, T3: SerializeColumns, T4: SerializeColumns> SerializeColumns for (T0, T1, T2, T3, T4) {
    open spec fn writes(&self) -> bool {
        &&& self.0.writes()
        &&& self.1.writes()
        &&& self.2.writes()
        &&& self.3.writes()
        &&& self.4.writes()
    }

    open spec fn refusal(&self) -> Option<Fault> {
        ((self.0, self.1, self.2, self.3), self.4).refusal()
    }

    open spec fn image(&self, w: Walk) -> Seq<Seq<u8>> {
        self.0.image(w.part(0).part(0)) + self.1.image(w.part(0).part(1)) + self.2.image(w.part(0).part(2)) + self.3.image(w.part(0).part(3)) + self.4.image(w.part(1))
    }

    proof fn lemma_image(&self, w: Walk, base: nat, row: Row) {
        let s = Self::node();
        let v = self.val(w);
        assert(put_fields(v, s, base, row, 0) == Ok::<Row, Fault>(row));
        let r0 = row;
        let b0 = base;
        let i0 = self.0.image(w.part(0).part(0));
        assert(columns_before(s, 1) == columns_before(s, 0) + width_of(T0::node()));
        assert(kid_base(s, base, 0) == b0);
        self.0.lemma_image(w.part(0).part(0), b0, r0);
        let r1 = stamped(r0, b0, self.0.image(w.part(0).part(0)));
        let b1 = b0 + self.0.image(w.part(0).part(0)).len();
        assert(put_fields(v, s, base, row, 1) == Ok::<Row, Fault>(r1));
        assert(columns_before(s, 2) == columns_before(s, 1) + width_of(T1::node()));
        assert(kid_base(s, base, 1) == b1);
        self.1.lemma_image(w.part(0).part(1), b1, r1);
        let r2 = stamped(r1, b1, self.1.image(w.part(0).part(1)));
        let b2 = b1 + self.1.image(w.part(0).part(1)).len();
        assert(put_fields(v, s, base, row, 2) == Ok::<Row, Fault>(r2));
        let i1 = i0 + self.1.image(w.part(0).part(1));
        lemma_stamp_twice(row, base, i0, self.1.image(w.part(0).part(1)));
        assert(columns_before(s, 3) == columns_before(s, 2) + width_of(T2::node()));
        assert(kid_base(s, base, 2) == b2);
        self.2.lemma_image(w.part(0).part(2), b2, r2);
        let r3 = stamped(r2, b2, self.2.image(w.part(0).part(2)));
        let b3 = b2 + self.2.image(w.part(0).part(2)).len();
        assert(put_fields(v, s, base, row, 3) == Ok::<Row, Fault>(r3));
        let i2 = i1 + self.2.image(w.part(0).part(2));
        lemma_stamp_twice(row, base, i1, self.2.image(w.part(0).part(2)));
        assert(columns_before(s, 4) == columns_before(s, 3) + width_of(T3::node()));
        assert(kid_base(s, base, 3) == b3);
        self.3.lemma_image(w.part(0).part(3), b3, r3);
        let r4 = stamped(r3, b3, self.3.image(w.part(0).part(3)));
        let b4 = b3 + self.3.image(w.part(0).part(3)).len();
        assert(put_fields(v, s, base, row, 4) == Ok::<Row, Fault>(r4));
        let i3 = i2 + self.3.image(w.part(0).part(3));
        lemma_stamp_twice(row, base, i2, self.3.image(w.part(0).part(3)));
        assert(columns_before(s, 5) == columns_before(s, 4) + width_of(T4::node()));
        assert(kid_base(s, base, 4) == b4);
        self.4.lemma_image(w.part(1), b4, r4);
        let r5 = stamped(r4, b4, self.4.image(w.part(1)));
        let b5 = b4 + self.4.image(w.part(1)).len();
        assert(put_fields(v, s, base, row, 5) == Ok::<Row, Fault>(r5));
        let i4 = i3 + self.4.image(w.part(1));
        lemma_stamp_twice(row, base, i3, self.4.image(w.part(1)));
    }

    fn serialize_columns(&self, columns: &mut [Vec<u8>]) -> (result: Result<()>) {
        let parts = ((&self.0, &self.1, &self.2, &self.3), &self.4);
        proof {
            let s = Self::node();
            assert(columns_before(s, 1) == columns_before(s, 0) + width_of(T0::node()));
            assert(columns_before(s, 2) == columns_before(s, 1) + width_of(T1::node()));
            assert(columns_before(s, 3) == columns_before(s, 2) + width_of(T2::node()));
            assert(columns_before(s, 4) == columns_before(s, 3) + width_of(T3::node()));
            assert(columns_before(s, 5) == columns_before(s, 4) + width_of(T4::node()));
            lemma_width_4::<&T0, &T1, &T2, &T3>();
            lemma_width_2::<(&T0, &T1, &T2, &T3), &T4>();
            assert forall|w: Walk| #[trigger] parts.image(w) == self.image(w) by {
                assert(parts.image(w) =~= self.image(w));
            }
        }
        parts.serialize_columns(columns)
    }
}

impl<T0: Modeled, T1: Modeled, T2: Modeled, T3: Modeled, T4: Modeled, T5: Modeled> Modeled for (T0, T1, T2, T3, T4, T5) {
    open spec fn val(&self, w: Walk) -> Val {
        Val {
            head: Head::Tuple,
            kids: seq![
                self.0.val(w.part(0).part(0)),
                self.1.val(w.part(0).part(1)),
                self.2.val(w.part(0).part(2)),
                self.3.val(w.part(0).part(3)),
                self.4.val(w.part(1).part(0)),
                self.5.val(w.part(1).part(1)),
            ],
        }
    }

    open spec fn stands_for(&self, v: Val) -> bool {
        &&& v.head is Tuple
        &&& v.kids.len() == 6
        &&& self.0.stands_for(v.kids[0])
        &&& self.1.stands_for(v.kids[1])
        &&& self.2.stands_for(v.kids[2])
        &&& self.3.stands_for(v.kids[3])
        &&& self.4.stands_for(v.kids[4])
        &&& self.5.stands_for(v.kids[5])
    }
}

impl<T0: SerializeColumns, T1: SerializeColumns, T2: SerializeColumns, T3: SerializeColumns, T4: SerializeColumns, T5: SerializeColumns> SerializeColumns for (T0, T1, T2, T3, T4, T5) {
    open spec fn writes(&self) -> bool {
        &&& self.0.writes()
        &&& self.1.writes()
        &&& self.2.writes()
        &&& self.3.writes()
        &&& self.4.writes()
        &&& self.5.writes()
    }

    open spec fn refusal(&self) -> Option<Fault> {
        ((self.0, self.1, self.2, self.3), (self.4, self.5)).refusal()
    }

    open spec fn image(&self, w: Walk) -> Seq<Seq<u8>> {
        self.0.image(w.part(0).part(0)) + self.1.image(w.part(0).part(1)) + self.2.image(w.part(0).part(2)) + self.3.image(w.part(0).part(3)) + self.4.image(w.part(1).part(0)) + self.5.image(w.part(1).part(1))
    }

    proof fn lemma_image(&self, w: Walk, base: nat, row: Row) {
        let s = Self::node();
        let v = self.val(w);
        assert(put_fields(v, s, base, row, 0) == Ok::<Row, Fault>(row));
        let r0 = row;
        let b0 = base;
        let i0 = self.0.image(w.part(0).part(0));
        assert(columns_before(s, 1) == columns_before(s, 0) + width_of(T0::node()));
        assert(kid_base(s, base, 0) == b0);
        self.0.lemma_image(w.part(0).part(0), b0, r0);
        let r1 = stamped(r0, b0, self.0.image(w.part(0).part(0)));
        let b1 = b0 + self.0.image(w.part(0).part(0)).len();
        assert(put_fields(v, s, base, row, 1) == Ok::<Row, Fault>(r1));
        assert(columns_before(s, 2) == columns_before(s, 1) + width_of(T1::node()));
        assert(kid_base(s, base, 1) == b1);
        self.1.lemma_image(w.part(0).part(1), b1, r1);
        let r2 = stamped(r1, b1, self.1.image(w.part(0).part(1)));
        let b2 = b1 + self.1.image(w.part(0).part(1)).len();
        assert(put_fields(v, s, base, row, 2) == Ok::<Row, Fault>(r2));
        let i1 = i0 + self.1.image(w.part(0).part(1));
        lemma_stamp_twice(row, base, i0, self.1.image(w.part(0).part(1)));
        assert(columns_before(s, 3) == columns_before(s, 2) + width_of(T2::node()));
        assert(kid_base(s, base, 2) == b2);
        self.2.lemma_image(w.part(0).part(2), b2, r2);
        let r3 = stamped(r2, b2, self.2.image(w.part(0).part(2)));
        let b3 = b2 + self.2.image(w.part(0).part(2)).len();
        assert(put_fields(v, s, base, row, 3) == Ok::<Row, Fault>(r3));
        let i2 = i1 + self.2.image(w.part(0).part(2));
        lemma_stamp_twice(row, base, i1, self.2.image(w.part(0).part(2)));
        assert(columns_before(s, 4) == columns_before(s, 3) + width_of(T3::node()));
        assert(kid_base(s, base, 3) == b3);
        self.3.lemma_image(w.part(0).part(3), b3, r3);
        let r4 = stamped(r3, b3, self.3.image(w.part(0).part(3)));
        let b4 = b3 + self.3.image(w.part(0).part(3)).len();
        assert(put_fields(v, s, base, row, 4) == Ok::<Row, Fault>(r4));
        let i3 = i2 + self.3.image(w.part(0).part(3));
        lemma_stamp_twice(row, base, i2, self.3.image(w.part(0).part(3)));
        assert(columns_before(s, 5) == columns_before(s, 4) + width_of(T4::node()));
        assert(kid_base(s, base, 4) == b4);
        self.4.lemma_image(w.part(1).part(0), b4, r4);
        let r5 = stamped(r4, b4, self.4.image(w.part(1).part(0)));
        let b5 = b4 + self.4.image(w.part(1).part(0)).len();
        assert(put_fields(v, s, base, row, 5) == Ok::<Row, Fault>(r5));
        let i4 = i3 + self.4.image(w.part(1).part(0));
        lemma_stamp_twice(row, base, i3, self.4.image(w.part(1).part(0)));
        assert(columns_before(s, 6) == columns_before(s, 5) + width_of(T5::node()));
        assert(kid_base(s, base, 5) == b5);
        self.5.lemma_image(w.part(1).part(1), b5, r5);
        let r6 = stamped(r5, b5, self.5.image(w.part(1).part(1)));
        let b6 = b5 + self.5.image(w.part(1).part(1)).len();
        assert(put_fields(v, s, base, row, 6) == Ok::<Row, Fault>(r6));
        let i5 = i4 + self.5.image(w.part(1).part(1));
        lemma_stamp_twice(row, base, i4, self.5.image(w.part(1).part(1)));
    }

    fn serialize_columns(&self, columns: &mut [Vec<u8>]) -> (result: Result<()>) {
        let parts = ((&self.0, &self.1, &self.2, &self.3), (&self.4, &self.5));
        proof {
            let s = Self::node();
            assert(columns_before(s, 1) == columns_before(s, 0) + width_of(T0::node()));
            assert(columns_before(s, 2) == columns_before(s, 1) + width_of(T1::node()));
            assert(columns_before(s, 3) == columns_before(s, 2) + width_of(T2::node()));
            assert(columns_before(s, 4) == columns_before(s, 3) + width_of(T3::node()));
            assert(columns_before(s, 5) == columns_before(s, 4) + width_of(T4::node()));
            assert(columns_before(s, 6) == columns_before(s, 5) + width_of(T5::node()));
            lemma_width_4::<&T0, &T1, &T2, &T3>();
            lemma_width_2::<&T4, &T5>();
            lemma_width_2::<(&T0, &T1, &T2, &T3), (&T4, &T5)>();
            assert forall|w: Walk| #[trigger] parts.image(w) == self.image(w) by {
                assert(parts.image(w) =~= self.image(w));
            }
        }
        parts.serialize_columns(columns)
    }
}

/// The head of a value of `Result`.
pub open spec fn result_head(ok: bool) -> Head {
    if ok {
        Head::NewtypeVariant(0, "Ok"@)
    } else {
        Head::NewtypeVariant(1, "Err"@)
    }
}

impl<T: Modeled, E: Modeled> Modeled for std::result::Result<T, E> {
    open spec fn val(&self, w: Walk) -> Val {
        match *self {
            Ok(x) => Val { head: result_head(true), kids: seq![x.val(w)] },
            Err(e) => Val { head: result_head(false), kids: seq![e.val(w)] },
        }
    }

    open spec fn stands_for(&self, v: Val) -> bool {
        &&& v.head == result_head(*self is Ok)
        &&& v.kids.len() == 1
        &&& match *self {
            Ok(x) => x.stands_for(v.kids[0]),
            Err(e) => e.stands_for(v.kids[0]),
        }
    }
}

impl<T: SerializeColumns, E: SerializeColumns> SerializeColumns for std::result::Result<T, E> {
    open spec fn writes(&self) -> bool {
        match *self {
            Ok(x) => x.writes(),
            Err(e) => e.writes(),
        }
    }

    open spec fn refusal(&self) -> Option<Fault> {
        match *self {
            Ok(x) => x.refusal(),
            Err(e) => e.refusal(),
        }
    }

    open spec fn image(&self, w: Walk) -> Seq<Seq<u8>> {
        match *self {
            Ok(x) => seq![varint::encoded(0)] + x.image(w) + blank(width_of(E::node())),
            Err(e) => seq![varint::encoded(1)] + blank(width_of(T::node())) + e.image(w),
        }
    }

    proof fn lemma_image(&self, w: Walk, base: nat, row: Row) {
        let s = Self::node();
        lemma_two_kids_columns(s);
        lemma_one_kid_columns(s.kids[0]);
        lemma_one_kid_columns(s.kids[1]);
        let t = width_of(T::node());
        let e = width_of(E::node());
        match *self {
            Ok(x) => {
                let head = seq![varint::encoded(0)];
                lemma_stamp_append(row, base, varint::encoded(0));
                let tagged = stamped(row, base, head);
                x.lemma_image(w, base + 1, tagged);
                lemma_stamp_twice(row, base, head, x.image(w));
                lemma_stamp_twice(row, base, head + x.image(w), blank(e));
                lemma_stamp_blank(stamped(row, base, head + x.image(w)), base + 1 + t, e);
            },
            Err(y) => {
                let head = seq![varint::encoded(1)];
                lemma_stamp_append(row, base, varint::encoded(1));
                let tagged = stamped(row, base, head);
                lemma_stamp_twice(row, base, head, blank(t));
                lemma_stamp_blank(tagged, base + 1, t);
                y.lemma_image(w, base + 1 + t, tagged);
                lemma_stamp_twice(row, base, head + blank(t), y.image(w));
            },
        }
    }

    fn serialize_columns(&self, columns: &mut [Vec<u8>]) -> (result: Result<()>) {
        let ghost before = columns@;
        let ghost t = width_of(T::node());
        assert(columns@.len() == columns.len());
        proof {
            let s = Self::node();
            lemma_two_kids_columns(s);
            lemma_one_kid_columns(s.kids[0]);
            lemma_one_kid_columns(s.kids[1]);
        }
        let (head, rest) = columns.split_at_mut(1);
        let (ok, err) = rest.split_at_mut(T::columns());
        match self {
            Ok(x) => {
                write_varint(&mut head[0], 0);
                let ghost part = ok@;
                let result = x.serialize_columns(ok);
                proof {
                    if x.writes() {
                        let w = choose|w: Walk| appended(part, ok@, #[trigger] x.image(w));
                        lemma_image_len(x, w);
                        let image = self.image(w);
                        assert(image == seq![varint::encoded(0)] + x.image(w) + blank(
                            width_of(E::node()),
                        ));
                        assert(image.len() == before.len());
                        assert(image[0] == varint::encoded(0));
                        assert forall|c: int| 1 <= c < 1 + t implies #[trigger] image[c] == x.image(
                            w,
                        )[c - 1] by {}
                        assert forall|c: int| 0 <= c < before.len() && c > t implies before[c]@
                            + self.image(w)[c] == #[trigger] before[c]@ by {
                            assert(before[c]@ + self.image(w)[c] =~= before[c]@);
                        }
                    }
                }
                result
            },
            Err(y) => {
                write_varint(&mut head[0], 1);
                let ghost part = err@;
                let result = y.serialize_columns(err);
                proof {
                    if y.writes() {
                        let w = choose|w: Walk| appended(part, err@, #[trigger] y.image(w));
                        lemma_image_len(y, w);
                        let image = self.image(w);
                        assert(image.len() == before.len());
                        assert(image[0] == varint::encoded(1));
                        assert forall|c: int| 1 <= c < 1 + t implies before[c]@ + self.image(w)[c]
                            == #[trigger] before[c]@ by {
                            assert(before[c]@ + self.image(w)[c] =~= before[c]@);
                        }
                    }
                }
                result
            },
        }
    }
}

/// What the items from number `i` on append, each to columns of its own.
pub open spec fn row_images<T: SerializeColumns>(items: Seq<T>, w: Walk, i: nat) -> Seq<Seq<u8>>
    decreases items.len() - i,
{
    if i >= items.len() {
        seq![]
    } else {
        items[i as int].image(w.part(i as int)) + row_images(items, w, i + 1)
    }
}

pub proof fn lemma_row_images<T: SerializeColumns>(
    items: Seq<T>,
    w: Walk,
    v: Val,
    s: Shape,
    base: nat,
    row: Row,
    n: nat,
)
    requires
        all_write(items),
        own_columns(s.kind) == 0,
        v.kids == item_vals(items, w),
        s.kids == copies(T::node(), items.len()),
        n <= items.len(),
        row.well_formed(),
        base + width_of(s) <= row.cols.len(),
    ensures
        put_fields(v, s, base, row, n) is Ok,
        put_fields(v, s, base, row, n)->Ok_0.book == row.book,
        put_fields(v, s, base, row, n)->Ok_0.cols.len() == row.cols.len(),
        stamped(
            put_fields(v, s, base, row, n)->Ok_0,
            base + columns_before(s, n),
            row_images(items, w, n),
        ) == stamped(row, base, row_images(items, w, 0)),
    decreases n,
{
    if n > 0 {
        let m = (n - 1) as nat;
        lemma_row_images(items, w, v, s, base, row, m);
        let mid = put_fields(v, s, base, row, m)->Ok_0;
        assert(items[m as int].writes());
        assert(s.kids[m as int] == T::node());
        crate::shape::lemma_kid_columns(s, m);
        let x = items[m as int];
        x.lemma_image(w.part(m as int), base + columns_before(s, m), mid);
        lemma_stamp_twice(mid, base + columns_before(s, m), x.image(w.part(m as int)), row_images(items, w, n));
    }
}

pub proof fn lemma_row_images_len<T: SerializeColumns>(items: Seq<T>, w: Walk, i: nat)
    requires
        all_write(items),
        i <= items.len(),
    ensures
        row_images(items, w, i).len() == (items.len() - i) * width_of(T::node()),
    decreases items.len() - i,
{
    let width = width_of(T::node());
    if i < items.len() {
        assert(items[i as int].writes());
        lemma_image_len(&items[i as int], w.part(i as int));
        lemma_row_images_len(items, w, i + 1);
        assert((items.len() - i) * width == (items.len() - (i + 1)) * width + width) by (nonlinear_arith);
    } else {
        assert((items.len() - i) * width == 0) by (nonlinear_arith)
            requires
                items.len() - i == 0,
        ;
    }
}

/// The images of the items from number `i` on rest on the walks of these alone.
proof fn lemma_same_row<T: SerializeColumns>(items: Seq<T>, a: Walk, b: Walk, i: nat)
    requires
        forall|j: int| i <= j < items.len() ==> #[trigger] a.part(j) == b.part(j),
    ensures
        row_images(items, a, i) == row_images(items, b, i),
    decreases items.len() - i,
{
    if i < items.len() {
        lemma_same_row(items, a, b, i + 1);
        assert(a.part(i as int) == b.part(i as int));
    }
}

/// Appends the items from number `i` on, each to columns of its own.
pub(crate) fn write_row<T: SerializeColumns>(items: &[T], i: usize, columns: &mut [Vec<u8>]) -> (result: Result<
    (),
>)
    requires
        i <= items@.len(),
        old(columns)@.len() == (items@.len() - i) * width_of(T::node()),
    ensures
        kept(old(columns)@, final(columns)@),
        all_write(items@) ==> result is Ok && exists|w: Walk|
            appended(old(columns)@, final(columns)@, #[trigger] row_images(items@, w, i as nat)),
        refused(first_refusal(items@, i as nat), result),
    decreases items@.len() - i,
{
    let ghost before = columns@;
    let ghost width = width_of(T::node());
    if i == items.len() {
        assert((items@.len() - i) * width == 0) by (nonlinear_arith)
            requires
                items@.len() - i == 0,
        ;
        assert(row_images(items@, straight(), i as nat).len() == 0);
        return Ok(());
    }
    proof {
        assert((items@.len() - i) * width == (items@.len() - (i + 1)) * width + width)
            by (nonlinear_arith);
        assert((items@.len() - (i + 1)) * width >= 0) by (nonlinear_arith)
            requires
                items@.len() - (i + 1) >= 0,
                width >= 0,
        ;
    }
    assert(columns@.len() == columns.len());
    let (part, rest) = columns.split_at_mut(T::columns());
    let ghost (part_before, rest_before) = (part@, rest@);
    match items[i].serialize_columns(part) {
        Ok(_) => {
            let result = write_row(items, i + 1, rest);
            proof {
                if all_write(items@) {
                    let x = items@[i as int];
                    assert(x.writes());
                    let first = choose|w: Walk| appended(part_before, part@, #[trigger] x.image(w));
                    let others = choose|w: Walk|
                        appended(
                            rest_before,
                            rest@,
                            #[trigger] row_images(items@, w, (i + 1) as nat),
                        );
                    let all = through(
                        Seq::new(
                            items@.len(),
                            |j: int|
                                if j == i {
                                    first
                                } else {
                                    others.part(j)
                                },
                        ),
                    );
                    lemma_same_row(items@, all, others, (i + 1) as nat);
                    assert(all.part(i as int) == first);
                    lemma_image_len(&x, first);
                    lemma_row_images_len(items@, all, (i + 1) as nat);
                    assert(row_images(items@, all, i as nat) == x.image(first) + row_images(
                        items@,
                        others,
                        (i + 1) as nat,
                    ));
                }
            }
            result
        },
        Err(error) => {
            assert(!items@[i as int].writes());
            Err(error)
        },
    }
}

impl<T: Modeled, const N: usize> Modeled for [T; N] {
    open spec fn val(&self, w: Walk) -> Val {
        Val { head: Head::Tuple, kids: item_vals(self@, w) }
    }

    open spec fn stands_for(&self, v: Val) -> bool {
        v.head is Tuple && all_stand(self@, v.kids)
    }
}

impl<T: SerializeColumns, const N: usize> SerializeColumns for [T; N] {
    open spec fn writes(&self) -> bool {
        all_write(self@)
    }

    open spec fn refusal(&self) -> Option<Fault> {
        first_refusal(self@, 0)
    }

    open spec fn image(&self, w: Walk) -> Seq<Seq<u8>> {
        row_images(self@, w, 0)
    }

    proof fn lemma_image(&self, w: Walk, base: nat, row: Row) {
        let s = Self::node();
        lemma_row_images(self@, w, self.val(w), s, base, row, N as nat);
        lemma_row_images_len(self@, w, 0);
        lemma_copies_columns(s, T::node(), N as nat);
        let end = put_fields(self.val(w), s, base, row, N as nat)->Ok_0;
        assert(stamped(end, base + columns_before(s, N as nat), seq![]).cols =~= end.cols);
    }

    fn serialize_columns(&self, columns: &mut [Vec<u8>]) -> (result: Result<()>) {
        proof {
            lemma_copies_columns(Self::node(), T::node(), N as nat);
            assert forall|w: Walk| #[trigger] row_images(self@, w, 0) == self.image(w) by {}
        }
        write_row(self.as_slice(), 0, columns)
    }
}

} // verus!
