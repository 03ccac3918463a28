//! The monomorphized columnar fast path: reading.
//!
//! [`DeserializeColumns`] reads the *exact* byte layout of the schema-driven
//! path. It applies only where the writer's schema is the type's own; any
//! other schema goes through the schema-driven path, which handles evolution.

use std::marker::PhantomData;
use std::rc::Rc;

use vstd::prelude::*;
use vstd::utf8::encode_utf8;

use crate::columnar::{checked_count, left, ColumnCursor, invalid_variant};
use crate::de::{cur_of, data_len, readable_state, same_data, still_readable};
use crate::error::{Error, Fault, Result};
use crate::get::{checked, count, get, get_fields, get_items, variant_tag, Cur};
use crate::put::{lemma_put, prefix, put, size, total, Row};
use crate::roundtrip::readable;
use crate::schema::Primitive;
use crate::shape::{
    columns_before, kid_base, lemma_one_kid_columns, lemma_two_kids_columns, primitive_width,
    width_of, Kind, Shape,
};
use crate::static_schema::{fixed, StaticSchema};
use crate::text;
use crate::typed_ser::{
    all_stand, all_write, blank, item_images, item_vals, layered, lemma_image_len, result_head,
    stamped, Base, Modeled, SerializeColumns, Walk,
};
use crate::value::{
    atom, from_little_endian, lemma_scalar_bytes, scalar_bytes, scalar_of, scalar_type, Head,
    Scalar, Val,
};
use crate::varint;

verus! {

/// No shared object in any of `n` columns.
pub open spec fn nothing(n: nat) -> Seq<Seq<Option<Val>>> {
    Seq::new(n, |c: int| Seq::<Option<Val>>::empty())
}

/// What cursors stand for, where no object is shared.
pub open spec fn slice_cur(cursors: Seq<ColumnCursor<'_>>) -> Cur {
    cur_of(cursors, nothing(cursors.len()))
}

/// The part of a reading state that `width` columns from `base` on make up.
pub open spec fn window(cur: Cur, base: nat, width: nat) -> Cur {
    Cur {
        bufs: cur.bufs.subrange(base as int, (base + width) as int),
        pos: cur.pos.subrange(base as int, (base + width) as int),
        regs: cur.regs.subrange(base as int, (base + width) as int),
    }
}

/// A reading state after the part from `base` on has moved.
pub open spec fn rejoin(cur: Cur, base: nat, part: Cur) -> Cur {
    Cur {
        bufs: cur.bufs,
        pos: Seq::new(
            cur.pos.len(),
            |c: int|
                if base <= c < base + part.pos.len() {
                    part.pos[c - base]
                } else {
                    cur.pos[c]
                },
        ),
        regs: cur.regs,
    }
}

/// Nothing but the positions has changed.
pub open spec fn moved_only(before: Cur, after: Cur) -> bool {
    &&& after.bufs == before.bufs
    &&& after.regs == before.regs
    &&& after.pos.len() == before.pos.len()
}

/// What a step of reading says of its outcome.
pub open spec fn read_as<T: Modeled>(
    result: Result<T>,
    expected: std::result::Result<(Val, Cur), Fault>,
    cursors: Seq<ColumnCursor<'_>>,
) -> bool {
    match result {
        Ok(x) => expected matches Ok((v, next)) && x.stands_for(v) && next == slice_cur(cursors),
        Err(error) => expected == Err::<(Val, Cur), Fault>(error@),
    }
}

/// Types that read their own columns.
///
/// Any length or count read from the input must be passed through
/// [`checked_count`] before it is used to size an allocation or drive a loop.
pub trait DeserializeColumns<'de>: StaticSchema + Modeled + Sized {
    /// Whether a value rests on its own columns alone. An implementation that
    /// also looks at what else the row holds, such as one that shares objects,
    /// promises nothing; nor does one of a type with such a part.
    spec fn sound() -> bool;

    /// What is read from the columns of one value.
    spec fn read(cur: Cur) -> std::result::Result<(Val, Cur), Fault>;

    /// What the fast path reads is what the schema-driven path reads.
    proof fn lemma_read(base: Base, cur: Cur)
        requires
            Self::sound(),
            cur.sized(),
            base + width_of(Self::node()) <= cur.bufs.len(),
            Self::read(window(cur, base, width_of(Self::node()))) is Ok,
        ensures
            ({
                let part = window(cur, base, width_of(Self::node()));
                let (v, next) = Self::read(part)->Ok_0;
                &&& moved_only(part, next)
                &&& get(Self::node(), base, cur) == Ok::<(Val, Cur), Fault>(
                    (v, rejoin(cur, base, next)),
                )
            }),
    ;

    /// Reads one value from its columns.
    fn deserialize_columns(cursors: &mut [ColumnCursor<'de>]) -> (result: Result<Self>)
        requires
            old(cursors)@.len() == width_of(Self::node()),
            readable_state(old(cursors)@, nothing(old(cursors)@.len())),
        ensures
            still_readable(old(cursors)@, final(cursors)@, nothing(old(cursors)@.len())),
            Self::sound() ==> read_as(
                result,
                Self::read(slice_cur(old(cursors)@)),
                final(cursors)@,
            ),
    ;
}

/// The bytes that `image` says stand where the reader is.
pub open spec fn stands(cur: Cur, image: Seq<Seq<u8>>) -> bool {
    &&& cur.well_formed()
    &&& cur.bufs.len() == image.len()
    &&& forall|c: int| 0 <= c < image.len() ==> prefix(#[trigger] image[c], cur.rest(c as nat))
}

/// The reader past the bytes that `image` says.
pub open spec fn passed(cur: Cur, image: Seq<Seq<u8>>) -> Cur {
    Cur { pos: Seq::new(cur.pos.len(), |c: int| cur.pos[c] + image[c].len()), ..cur }
}

/// Types that read back what they write.
pub trait RoundTrip<'de>: SerializeColumns + DeserializeColumns<'de> {
    /// Reading a value where it was written, whatever the walk, gives back the
    /// tree that it presented itself as and moves on past it.
    proof fn lemma_read_back(&self, w: Walk, cur: Cur)
        requires
            Self::sound(),
            self.writes(),
            readable(self.val(w), Self::node()),
            stands(cur, self.image(w)),
        ensures
            Self::read(cur) == Ok::<(Val, Cur), Fault>((self.val(w), passed(cur, self.image(w)))),
    ;
}

proof fn lemma_data_len_part(cursors: Seq<ColumnCursor<'_>>, base: nat, width: nat, n: nat)
    requires
        base + width <= cursors.len(),
        n <= width,
    ensures
        data_len(cursors.subrange(base as int, (base + width) as int), n) == data_len(
            cursors,
            base + n,
        ) - data_len(cursors, base),
    decreases n,
{
    if n > 0 {
        lemma_data_len_part(cursors, base, width, (n - 1) as nat);
    }
}

proof fn lemma_data_len_mono(cursors: Seq<ColumnCursor<'_>>, i: nat, n: nat)
    requires
        i <= n,
    ensures
        data_len(cursors, i) <= data_len(cursors, n),
    decreases n,
{
    if i < n {
        lemma_data_len_mono(cursors, i, (n - 1) as nat);
    }
}

/// A part of the cursors is readable, and stands for that part of the state.
pub(crate) proof fn lemma_part(cursors: Seq<ColumnCursor<'_>>, base: nat, width: nat)
    requires
        readable_state(cursors, nothing(cursors.len())),
        base + width <= cursors.len(),
    ensures
        ({
            let part = cursors.subrange(base as int, (base + width) as int);
            &&& readable_state(part, nothing(width))
            &&& slice_cur(part) == window(slice_cur(cursors), base, width)
        }),
{
    let part = cursors.subrange(base as int, (base + width) as int);
    lemma_data_len_part(cursors, base, width, width);
    lemma_data_len_mono(cursors, base + width, cursors.len());
    let w = window(slice_cur(cursors), base, width);
    assert(slice_cur(part).bufs =~= w.bufs);
    assert(slice_cur(part).pos =~= w.pos);
    assert(slice_cur(part).regs =~= w.regs);
}

/// Putting a part back.
pub(crate) proof fn lemma_whole(
    before: Seq<ColumnCursor<'_>>,
    after: Seq<ColumnCursor<'_>>,
    base: nat,
    part: Seq<ColumnCursor<'_>>,
)
    requires
        readable_state(before, nothing(before.len())),
        base + part.len() <= before.len(),
        still_readable(
            before.subrange(base as int, (base + part.len()) as int),
            part,
            nothing(part.len()),
        ),
        after == before.subrange(0, base as int) + part + before.subrange(
            (base + part.len()) as int,
            before.len() as int,
        ),
    ensures
        still_readable(before, after, nothing(before.len())),
        slice_cur(after) == rejoin(slice_cur(before), base, slice_cur(part)),
{
    let old_part = before.subrange(base as int, (base + part.len()) as int);
    assert(same_data(before, after)) by {
        assert forall|c: int| 0 <= c < before.len() implies (#[trigger] after[c]).data()
            == before[c].data() by {
            if base <= c < base + part.len() {
                assert(part[c - base].data() == old_part[c - base].data());
            }
        }
    }
    crate::de::lemma_same_data(before, after, before.len());
    assert forall|c: int| 0 <= c < after.len() implies (#[trigger] after[c]).well_formed() by {
        if base <= c < base + part.len() {
            assert(part[c - base].well_formed());
        } else {
            assert(after[c] == before[c]);
        }
    }
    let whole = rejoin(slice_cur(before), base, slice_cur(part));
    assert(slice_cur(after).bufs =~= whole.bufs);
    assert(slice_cur(after).pos =~= whole.pos);
}

/// Reads the scalar of one column.
pub open spec fn read_scalar(p: Primitive, cur: Cur) -> std::result::Result<(Scalar, Cur), Fault> {
    match cur.take(0, primitive_width(p)) {
        Ok((bytes, next)) => match scalar_of(p, from_little_endian(bytes)) {
            Ok(x) => Ok((x, next)),
            Err(fault) => Err(fault),
        },
        Err(fault) => Err(fault),
    }
}

/// A scalar of one column, as a tree.
pub open spec fn read_atom(p: Primitive, cur: Cur) -> std::result::Result<(Val, Cur), Fault> {
    match read_scalar(p, cur) {
        Ok((x, next)) => Ok((atom(Head::Scalar(x)), next)),
        Err(fault) => Err(fault),
    }
}

pub proof fn lemma_read_atom(p: Primitive, base: nat, cur: Cur)
    requires
        cur.sized(),
        base < cur.bufs.len(),
        read_atom(p, window(cur, base, 1)) is Ok,
    ensures
        ({
            let part = window(cur, base, 1);
            let (v, next) = read_atom(p, part)->Ok_0;
            &&& moved_only(part, next)
            &&& get(crate::shape::leaf(Kind::Primitive(p), seq![]), base, cur) == Ok::<
                (Val, Cur),
                Fault,
            >((v, rejoin(cur, base, next)))
        }),
{
    let part = window(cur, base, 1);
    let next = read_atom(p, part)->Ok_0.1;
    assert(part.rest(0) =~= cur.rest(base));
    assert(cur.advance(base, primitive_width(p)).pos =~= rejoin(cur, base, next).pos);
}

/// Reads the scalar of one column.
pub(crate) fn take_scalar(p: Primitive, cursors: &mut [ColumnCursor<'_>]) -> (result: Result<Scalar>)
    requires
        old(cursors)@.len() == 1,
        readable_state(old(cursors)@, nothing(1)),
    ensures
        still_readable(old(cursors)@, final(cursors)@, nothing(1)),
        match result {
            Ok(x) => {
                &&& read_scalar(p, slice_cur(old(cursors)@)) == Ok::<(Scalar, Cur), Fault>(
                    (x, slice_cur(final(cursors)@)),
                )
                &&& scalar_type(x) == p
            },
            Err(error) => read_scalar(p, slice_cur(old(cursors)@)) == Err::<(Scalar, Cur), Fault>(
                error@,
            ),
        },
{
    match crate::de::take(cursors, 0, p.width(), Ghost(nothing(1))) {
        Ok(bytes) => Scalar::read(p, bytes),
        Err(error) => Err(error),
    }
}

/// The part of the reader that the part of an image stands at.
pub proof fn lemma_stands_part(cur: Cur, next: Cur, image: Seq<Seq<u8>>, base: nat, width: nat)
    requires
        stands(cur, image),
        base + width <= image.len(),
        next.bufs == cur.bufs,
        next.sized(),
        forall|c: int| base <= c < base + width ==> #[trigger] next.pos[c] == cur.pos[c],
    ensures
        stands(window(next, base, width), image.subrange(base as int, (base + width) as int)),
{
    let part = window(next, base, width);
    let sub = image.subrange(base as int, (base + width) as int);
    assert forall|c: int| 0 <= c < width implies (#[trigger] part.pos[c]) <= part.bufs[c].len() by {
        assert(next.pos[c + base] == cur.pos[c + base]);
    }
    assert forall|c: int| 0 <= c < sub.len() implies prefix(
        #[trigger] sub[c],
        part.rest(c as nat),
    ) by {
        assert(next.pos[c + base] == cur.pos[c + base]);
        assert(part.rest(c as nat) =~= cur.rest((c + base) as nat));
        assert(prefix(image[c + base], cur.rest((c + base) as nat)));
    }
}

pub proof fn lemma_back_scalar(x: Scalar, cur: Cur)
    requires
        stands(cur, seq![scalar_bytes(x)]),
    ensures
        read_scalar(scalar_type(x), cur) == Ok::<(Scalar, Cur), Fault>(
            (x, passed(cur, seq![scalar_bytes(x)])),
        ),
{
    lemma_scalar_bytes(x);
    let bytes = scalar_bytes(x);
    assert(prefix(seq![bytes][0], cur.rest(0)));
    assert(cur.rest(0).subrange(0, bytes.len() as int) =~= bytes);
    assert(cur.advance(0, bytes.len()).pos =~= passed(cur, seq![bytes]).pos);
}

impl<'de> DeserializeColumns<'de> for bool {
    open spec fn sound() -> bool {
        true
    }

    open spec fn read(cur: Cur) -> std::result::Result<(Val, Cur), Fault> {
        read_atom(Primitive::Bool, cur)
    }

    proof fn lemma_read(base: nat, cur: Cur) {
        lemma_read_atom(Primitive::Bool, base, cur);
    }

    fn deserialize_columns(cursors: &mut [ColumnCursor<'de>]) -> (result: Result<Self>) {
        match take_scalar(Primitive::Bool, cursors) {
            Ok(Scalar::Bool(x)) => Ok(x),
            Ok(_) => Err(Error::UnexpectedEof),
            Err(error) => Err(error),
        }
    }
}

impl<'de> RoundTrip<'de> for bool {
    proof fn lemma_read_back(&self, w: Walk, cur: Cur) {
        lemma_back_scalar(Scalar::Bool(*self), cur);
    }
}

impl<'de> DeserializeColumns<'de> for i8 {
    open spec fn sound() -> bool {
        true
    }

    open spec fn read(cur: Cur) -> std::result::Result<(Val, Cur), Fault> {
        read_atom(Primitive::I8, cur)
    }

    proof fn lemma_read(base: nat, cur: Cur) {
        lemma_read_atom(Primitive::I8, base, cur);
    }

    fn deserialize_columns(cursors: &mut [ColumnCursor<'de>]) -> (result: Result<Self>) {
        match take_scalar(Primitive::I8, cursors) {
            Ok(Scalar::I8(x)) => Ok(x),
            Ok(_) => Err(Error::UnexpectedEof),
            Err(error) => Err(error),
        }
    }
}

impl<'de> RoundTrip<'de> for i8 {
    proof fn lemma_read_back(&self, w: Walk, cur: Cur) {
        lemma_back_scalar(Scalar::I8(*self), cur);
    }
}

impl<'de> DeserializeColumns<'de> for i16 {
    open spec fn sound() -> bool {
        true
    }

    open spec fn read(cur: Cur) -> std::result::Result<(Val, Cur), Fault> {
        read_atom(Primitive::I16, cur)
    }

    proof fn lemma_read(base: nat, cur: Cur) {
        lemma_read_atom(Primitive::I16, base, cur);
    }

    fn deserialize_columns(cursors: &mut [ColumnCursor<'de>]) -> (result: Result<Self>) {
        match take_scalar(Primitive::I16, cursors) {
            Ok(Scalar::I16(x)) => Ok(x),
            Ok(_) => Err(Error::UnexpectedEof),
            Err(error) => Err(error),
        }
    }
}

impl<'de> RoundTrip<'de> for i16 {
    proof fn lemma_read_back(&self, w: Walk, cur: Cur) {
        lemma_back_scalar(Scalar::I16(*self), cur);
    }
}

impl<'de> DeserializeColumns<'de> for i32 {
    open spec fn sound() -> bool {
        true
    }

    open spec fn read(cur: Cur) -> std::result::Result<(Val, Cur), Fault> {
        read_atom(Primitive::I32, cur)
    }

    proof fn lemma_read(base: nat, cur: Cur) {
        lemma_read_atom(Primitive::I32, base, cur);
    }

    fn deserialize_columns(cursors: &mut [ColumnCursor<'de>]) -> (result: Result<Self>) {
        match take_scalar(Primitive::I32, cursors) {
            Ok(Scalar::I32(x)) => Ok(x),
            Ok(_) => Err(Error::UnexpectedEof),
            Err(error) => Err(error),
        }
    }
}

impl<'de> RoundTrip<'de> for i32 {
    proof fn lemma_read_back(&self, w: Walk, cur: Cur) {
        lemma_back_scalar(Scalar::I32(*self), cur);
    }
}

impl<'de> DeserializeColumns<'de> for i64 {
    open spec fn sound() -> bool {
        true
    }

    open spec fn read(cur: Cur) -> std::result::Result<(Val, Cur), Fault> {
        read_atom(Primitive::I64, cur)
    }

    proof fn lemma_read(base: nat, cur: Cur) {
        lemma_read_atom(Primitive::I64, base, cur);
    }

    fn deserialize_columns(cursors: &mut [ColumnCursor<'de>]) -> (result: Result<Self>) {
        match take_scalar(Primitive::I64, cursors) {
            Ok(Scalar::I64(x)) => Ok(x),
            Ok(_) => Err(Error::UnexpectedEof),
            Err(error) => Err(error),
        }
    }
}

impl<'de> RoundTrip<'de> for i64 {
    proof fn lemma_read_back(&self, w: Walk, cur: Cur) {
        lemma_back_scalar(Scalar::I64(*self), cur);
    }
}

impl<'de> DeserializeColumns<'de> for i128 {
    open spec fn sound() -> bool {
        true
    }

    open spec fn read(cur: Cur) -> std::result::Result<(Val, Cur), Fault> {
        read_atom(Primitive::I128, cur)
    }

    proof fn lemma_read(base: nat, cur: Cur) {
        lemma_read_atom(Primitive::I128, base, cur);
    }

    fn deserialize_columns(cursors: &mut [ColumnCursor<'de>]) -> (result: Result<Self>) {
        match take_scalar(Primitive::I128, cursors) {
            Ok(Scalar::I128(x)) => Ok(x),
            Ok(_) => Err(Error::UnexpectedEof),
            Err(error) => Err(error),
        }
    }
}

impl<'de> RoundTrip<'de> for i128 {
    proof fn lemma_read_back(&self, w: Walk, cur: Cur) {
        lemma_back_scalar(Scalar::I128(*self), cur);
    }
}

impl<'de> DeserializeColumns<'de> for u8 {
    open spec fn sound() -> bool {
        true
    }

    open spec fn read(cur: Cur) -> std::result::Result<(Val, Cur), Fault> {
        read_atom(Primitive::U8, cur)
    }

    proof fn lemma_read(base: nat, cur: Cur) {
        lemma_read_atom(Primitive::U8, base, cur);
    }

    fn deserialize_columns(cursors: &mut [ColumnCursor<'de>]) -> (result: Result<Self>) {
        match take_scalar(Primitive::U8, cursors) {
            Ok(Scalar::U8(x)) => Ok(x),
            Ok(_) => Err(Error::UnexpectedEof),
            Err(error) => Err(error),
        }
    }
}

impl<'de> RoundTrip<'de> for u8 {
    proof fn lemma_read_back(&self, w: Walk, cur: Cur) {
        lemma_back_scalar(Scalar::U8(*self), cur);
    }
}

impl<'de> DeserializeColumns<'de> for u16 {
    open spec fn sound() -> bool {
        true
    }

    open spec fn read(cur: Cur) -> std::result::Result<(Val, Cur), Fault> {
        read_atom(Primitive::U16, cur)
    }

    proof fn lemma_read(base: nat, cur: Cur) {
        lemma_read_atom(Primitive::U16, base, cur);
    }

    fn deserialize_columns(cursors: &mut [ColumnCursor<'de>]) -> (result: Result<Self>) {
        match take_scalar(Primitive::U16, cursors) {
            Ok(Scalar::U16(x)) => Ok(x),
            Ok(_) => Err(Error::UnexpectedEof),
            Err(error) => Err(error),
        }
    }
}

impl<'de> RoundTrip<'de> for u16 {
    proof fn lemma_read_back(&self, w: Walk, cur: Cur) {
        lemma_back_scalar(Scalar::U16(*self), cur);
    }
}

impl<'de> DeserializeColumns<'de> for u32 {
    open spec fn sound() -> bool {
        true
    }

    open spec fn read(cur: Cur) -> std::result::Result<(Val, Cur), Fault> {
        read_atom(Primitive::U32, cur)
    }

    proof fn lemma_read(base: nat, cur: Cur) {
        lemma_read_atom(Primitive::U32, base, cur);
    }

    fn deserialize_columns(cursors: &mut [ColumnCursor<'de>]) -> (result: Result<Self>) {
        match take_scalar(Primitive::U32, cursors) {
            Ok(Scalar::U32(x)) => Ok(x),
            Ok(_) => Err(Error::UnexpectedEof),
            Err(error) => Err(error),
        }
    }
}

impl<'de> RoundTrip<'de> for u32 {
    proof fn lemma_read_back(&self, w: Walk, cur: Cur) {
        lemma_back_scalar(Scalar::U32(*self), cur);
    }
}

impl<'de> DeserializeColumns<'de> for u64 {
    open spec fn sound() -> bool {
        true
    }

    open spec fn read(cur: Cur) -> std::result::Result<(Val, Cur), Fault> {
        read_atom(Primitive::U64, cur)
    }

    proof fn lemma_read(base: nat, cur: Cur) {
        lemma_read_atom(Primitive::U64, base, cur);
    }

    fn deserialize_columns(cursors: &mut [ColumnCursor<'de>]) -> (result: Result<Self>) {
        match take_scalar(Primitive::U64, cursors) {
            Ok(Scalar::U64(x)) => Ok(x),
            Ok(_) => Err(Error::UnexpectedEof),
            Err(error) => Err(error),
        }
    }
}

impl<'de> RoundTrip<'de> for u64 {
    proof fn lemma_read_back(&self, w: Walk, cur: Cur) {
        lemma_back_scalar(Scalar::U64(*self), cur);
    }
}

impl<'de> DeserializeColumns<'de> for u128 {
    open spec fn sound() -> bool {
        true
    }

    open spec fn read(cur: Cur) -> std::result::Result<(Val, Cur), Fault> {
        read_atom(Primitive::U128, cur)
    }

    proof fn lemma_read(base: nat, cur: Cur) {
        lemma_read_atom(Primitive::U128, base, cur);
    }

    fn deserialize_columns(cursors: &mut [ColumnCursor<'de>]) -> (result: Result<Self>) {
        match take_scalar(Primitive::U128, cursors) {
            Ok(Scalar::U128(x)) => Ok(x),
            Ok(_) => Err(Error::UnexpectedEof),
            Err(error) => Err(error),
        }
    }
}

impl<'de> RoundTrip<'de> for u128 {
    proof fn lemma_read_back(&self, w: Walk, cur: Cur) {
        lemma_back_scalar(Scalar::U128(*self), cur);
    }
}

impl<'de> DeserializeColumns<'de> for char {
    open spec fn sound() -> bool {
        true
    }

    open spec fn read(cur: Cur) -> std::result::Result<(Val, Cur), Fault> {
        read_atom(Primitive::Char, cur)
    }

    proof fn lemma_read(base: nat, cur: Cur) {
        lemma_read_atom(Primitive::Char, base, cur);
    }

    fn deserialize_columns(cursors: &mut [ColumnCursor<'de>]) -> (result: Result<Self>) {
        match take_scalar(Primitive::Char, cursors) {
            Ok(Scalar::Char(x)) => Ok(x),
            Ok(_) => Err(Error::UnexpectedEof),
            Err(error) => Err(error),
        }
    }
}

impl<'de> RoundTrip<'de> for char {
    proof fn lemma_read_back(&self, w: Walk, cur: Cur) {
        lemma_back_scalar(Scalar::Char(*self), cur);
    }
}

impl<'de> DeserializeColumns<'de> for usize {
    open spec fn sound() -> bool {
        true
    }

    open spec fn read(cur: Cur) -> std::result::Result<(Val, Cur), Fault> {
        match read_scalar(Primitive::U64, cur) {
            Ok((Scalar::U64(x), next)) => if x <= usize::MAX {
                Ok((atom(Head::Scalar(Scalar::U64(x))), next))
            } else {
                Err(Fault::Malformed("value overflows usize"@))
            },
            Ok(_) => Err(Fault::UnexpectedEof),
            Err(fault) => Err(fault),
        }
    }

    proof fn lemma_read(base: nat, cur: Cur) {
        lemma_read_atom(Primitive::U64, base, cur);
    }

    fn deserialize_columns(cursors: &mut [ColumnCursor<'de>]) -> (result: Result<Self>) {
        match take_scalar(Primitive::U64, cursors) {
            Ok(Scalar::U64(x)) => {
                if x <= usize::MAX as u64 {
                    Ok(x as usize)
                } else {
                    Err(Error::Malformed("value overflows usize"))
                }
            },
            Ok(_) => Err(Error::UnexpectedEof),
            Err(error) => Err(error),
        }
    }
}

impl<'de> RoundTrip<'de> for usize {
    proof fn lemma_read_back(&self, w: Walk, cur: Cur) {
        lemma_back_scalar(Scalar::U64(*self as u64), cur);
    }
}

impl<'de> DeserializeColumns<'de> for isize {
    open spec fn sound() -> bool {
        true
    }

    open spec fn read(cur: Cur) -> std::result::Result<(Val, Cur), Fault> {
        match read_scalar(Primitive::I64, cur) {
            Ok((Scalar::I64(x), next)) => if isize::MIN <= x && x <= isize::MAX {
                Ok((atom(Head::Scalar(Scalar::I64(x))), next))
            } else {
                Err(Fault::Malformed("value overflows isize"@))
            },
            Ok(_) => Err(Fault::UnexpectedEof),
            Err(fault) => Err(fault),
        }
    }

    proof fn lemma_read(base: nat, cur: Cur) {
        lemma_read_atom(Primitive::I64, base, cur);
    }

    fn deserialize_columns(cursors: &mut [ColumnCursor<'de>]) -> (result: Result<Self>) {
        match take_scalar(Primitive::I64, cursors) {
            Ok(Scalar::I64(x)) => {
                if x >= isize::MIN as i64 && x <= isize::MAX as i64 {
                    Ok(x as isize)
                } else {
                    Err(Error::Malformed("value overflows isize"))
                }
            },
            Ok(_) => Err(Error::UnexpectedEof),
            Err(error) => Err(error),
        }
    }
}

impl<'de> RoundTrip<'de> for isize {
    proof fn lemma_read_back(&self, w: Walk, cur: Cur) {
        lemma_back_scalar(Scalar::I64(*self as i64), cur);
    }
}

impl<'de> DeserializeColumns<'de> for () {
    open spec fn sound() -> bool {
        true
    }

    open spec fn read(cur: Cur) -> std::result::Result<(Val, Cur), Fault> {
        Ok((atom(Head::Unit), cur))
    }

    proof fn lemma_read(base: nat, cur: Cur) {
        assert(rejoin(cur, base, window(cur, base, 0)).pos =~= cur.pos);
    }

    fn deserialize_columns(cursors: &mut [ColumnCursor<'de>]) -> (result: Result<Self>) {
        Ok(())
    }
}

impl<'de> RoundTrip<'de> for () {
    proof fn lemma_read_back(&self, w: Walk, cur: Cur) {
        assert(passed(cur, self.image(w)).pos =~= cur.pos);
    }
}

impl<'de, T: ?Sized> DeserializeColumns<'de> for PhantomData<T> {
    open spec fn sound() -> bool {
        true
    }

    open spec fn read(cur: Cur) -> std::result::Result<(Val, Cur), Fault> {
        Ok((atom(Head::UnitStruct("PhantomData"@)), cur))
    }

    proof fn lemma_read(base: nat, cur: Cur) {
        assert(rejoin(cur, base, window(cur, base, 0)).pos =~= cur.pos);
    }

    fn deserialize_columns(cursors: &mut [ColumnCursor<'de>]) -> (result: Result<Self>) {
        Ok(PhantomData)
    }
}

impl<'de, T: ?Sized> RoundTrip<'de> for PhantomData<T> {
    proof fn lemma_read_back(&self, w: Walk, cur: Cur) {
        assert(passed(cur, self.image(w)).pos =~= cur.pos);
    }
}

/// Reads the string of two columns.
pub open spec fn read_str(cur: Cur) -> std::result::Result<(Val, Cur), Fault> {
    get(crate::shape::leaf(Kind::String, seq![]), 0, cur)
}

proof fn lemma_read_str(base: nat, cur: Cur)
    requires
        cur.sized(),
        base + 2 <= cur.bufs.len(),
        read_str(window(cur, base, 2)) is Ok,
    ensures
        ({
            let part = window(cur, base, 2);
            let (v, next) = read_str(part)->Ok_0;
            &&& moved_only(part, next)
            &&& get(crate::shape::leaf(Kind::String, seq![]), base, cur) == Ok::<(Val, Cur), Fault>(
                (v, rejoin(cur, base, next)),
            )
        }),
{
    let part = window(cur, base, 2);
    assert(part.rest(0) =~= cur.rest(base));
    let (n, used) = varint::decoded(part.rest(0))->Ok_0;
    let mid = part.advance(0, used);
    let other = cur.advance(base, used);
    assert(mid.rest(1) =~= other.rest(base + 1));
    let next = read_str(part)->Ok_0.1;
    assert(other.advance(base + 1, n).pos =~= rejoin(cur, base, next).pos);
}

pub(crate) proof fn lemma_back_str(text: Seq<char>, cur: Cur)
    requires
        encode_utf8(text).len() <= usize::MAX,
        stands(cur, seq![varint::encoded(encode_utf8(text).len()), encode_utf8(text)]),
    ensures
        read_str(cur) == Ok::<(Val, Cur), Fault>(
            (
                atom(Head::Str(text)),
                passed(cur, seq![varint::encoded(encode_utf8(text).len()), encode_utf8(text)]),
            ),
        ),
{
    let raw = encode_utf8(text);
    let code = varint::encoded(raw.len());
    let image = seq![code, raw];
    assert(prefix(image[0], cur.rest(0)));
    assert(prefix(image[1], cur.rest(1)));
    let tail = cur.rest(0).subrange(code.len() as int, cur.rest(0).len() as int);
    assert(cur.rest(0) =~= code + tail);
    varint::lemma_decode_encode(raw.len() as u64, tail);
    let mid = cur.advance(0, code.len());
    assert(mid.rest(1) =~= cur.rest(1));
    assert(mid.rest(1).subrange(0, raw.len() as int) =~= raw);
    vstd::utf8::encode_utf8_valid_utf8(text);
    vstd::utf8::encode_utf8_decode_utf8(text);
    assert(mid.advance(1, raw.len()).pos =~= passed(cur, image).pos);
}

impl<'de: 'a, 'a> DeserializeColumns<'de> for &'a str {
    open spec fn sound() -> bool {
        true
    }

    open spec fn read(cur: Cur) -> std::result::Result<(Val, Cur), Fault> {
        read_str(cur)
    }

    proof fn lemma_read(base: nat, cur: Cur) {
        lemma_read_str(base, cur);
    }

    fn deserialize_columns(cursors: &mut [ColumnCursor<'de>]) -> (result: Result<Self>) {
        match crate::de::read_bytes(cursors, 0, 1, Ghost(nothing(2))) {
            Ok(raw) => match text::str_from_utf8(raw) {
                Some(text) => {
                    proof {
                        vstd::utf8::encode_utf8_decode_utf8(text@);
                    }
                    Ok(text)
                },
                None => Err(Error::InvalidUtf8),
            },
            Err(error) => Err(error),
        }
    }
}

impl<'de> DeserializeColumns<'de> for String {
    open spec fn sound() -> bool {
        true
    }

    open spec fn read(cur: Cur) -> std::result::Result<(Val, Cur), Fault> {
        read_str(cur)
    }

    proof fn lemma_read(base: nat, cur: Cur) {
        lemma_read_str(base, cur);
    }

    fn deserialize_columns(cursors: &mut [ColumnCursor<'de>]) -> (result: Result<Self>) {
        match <&str>::deserialize_columns(cursors) {
            Ok(text) => Ok(text.to_owned()),
            Err(error) => Err(error),
        }
    }
}

impl<'de> RoundTrip<'de> for String {
    proof fn lemma_read_back(&self, w: Walk, cur: Cur) {
        lemma_back_str(self@, cur);
    }
}

impl<'de, T: DeserializeColumns<'de>> DeserializeColumns<'de> for Box<T> {
    open spec fn sound() -> bool {
        T::sound()
    }

    open spec fn read(cur: Cur) -> std::result::Result<(Val, Cur), Fault> {
        T::read(cur)
    }

    proof fn lemma_read(base: nat, cur: Cur) {
        T::lemma_read(base, cur);
    }

    fn deserialize_columns(cursors: &mut [ColumnCursor<'de>]) -> (result: Result<Self>) {
        match T::deserialize_columns(cursors) {
            Ok(x) => Ok(Box::new(x)),
            Err(error) => Err(error),
        }
    }
}

impl<'de, T: RoundTrip<'de>> RoundTrip<'de> for Box<T> {
    proof fn lemma_read_back(&self, w: Walk, cur: Cur) {
        (**self).lemma_read_back(w, cur);
    }
}

impl<'de, T: DeserializeColumns<'de>> DeserializeColumns<'de> for Rc<T> {
    open spec fn sound() -> bool {
        T::sound()
    }

    open spec fn read(cur: Cur) -> std::result::Result<(Val, Cur), Fault> {
        T::read(cur)
    }

    proof fn lemma_read(base: nat, cur: Cur) {
        T::lemma_read(base, cur);
    }

    fn deserialize_columns(cursors: &mut [ColumnCursor<'de>]) -> (result: Result<Self>) {
        match T::deserialize_columns(cursors) {
            Ok(x) => Ok(Rc::new(x)),
            Err(error) => Err(error),
        }
    }
}

impl<'de, T: RoundTrip<'de>> RoundTrip<'de> for Rc<T> {
    proof fn lemma_read_back(&self, w: Walk, cur: Cur) {
        (**self).lemma_read_back(w, cur);
    }
}

impl<'de, T: DeserializeColumns<'de>> DeserializeColumns<'de> for Option<T> {
    open spec fn sound() -> bool {
        T::sound()
    }

    open spec fn read(cur: Cur) -> std::result::Result<(Val, Cur), Fault> {
        match cur.take(0, 1) {
            Ok((tag, next)) => if tag[0] == 0 {
                Ok((atom(Head::Absent), next))
            } else if tag[0] == 1 {
                match T::read(window(next, 1, width_of(T::node()))) {
                    Ok((v, end)) => Ok(
                        (Val { head: Head::Present, kids: seq![v] }, rejoin(next, 1, end)),
                    ),
                    Err(fault) => Err(fault),
                }
            } else {
                Err(Fault::InvalidTag("presence"@, tag[0] as u64))
            },
            Err(fault) => Err(fault),
        }
    }

    proof fn lemma_read(base: nat, cur: Cur) {
        lemma_one_kid_columns(Self::node());
        let width = width_of(T::node());
        let part = window(cur, base, 1 + width);
        assert(part.rest(0) =~= cur.rest(base));
        let next = part.advance(0, 1);
        let other = cur.advance(base, 1);
        if cur.rest(base).subrange(0, 1)[0] == 0 {
            assert(other.pos =~= rejoin(cur, base, next).pos);
        } else {
            assert(window(next, 1, width) == window(other, base + 1, width)) by {
                assert(window(next, 1, width).bufs =~= window(other, base + 1, width).bufs);
                assert(window(next, 1, width).pos =~= window(other, base + 1, width).pos);
                assert(window(next, 1, width).regs =~= window(other, base + 1, width).regs);
            }
            T::lemma_read(base + 1, other);
            let end = T::read(window(next, 1, width))->Ok_0.1;
            assert(rejoin(other, base + 1, end).pos =~= rejoin(cur, base, rejoin(next, 1, end)).pos);
        }
    }

    fn deserialize_columns(cursors: &mut [ColumnCursor<'de>]) -> (result: Result<Self>) {
        proof {
            lemma_one_kid_columns(Self::node());
        }
        let ghost columns = cursors@.len();
        let ghost start = cursors@;
        match crate::de::take(cursors, 0, 1, Ghost(nothing(columns))) {
            Ok(present) => {
                if present[0] == 0 {
                    Ok(None)
                } else if present[0] == 1 {
                    let ghost mid = cursors@;
                    proof {
                        lemma_part(mid, 1, width_of(T::node()));
                    }
                    let (head, rest) = cursors.split_at_mut(1);
                    let result = T::deserialize_columns(rest);
                    let ghost part = rest@;
                    let ghost after = head@ + rest@;
                    proof {
                        assert(after =~= mid.subrange(0, 1) + part + mid.subrange(
                            mid.len() as int,
                            mid.len() as int,
                        ));
                        lemma_whole(mid, after, 1, part);
                    }
                    match result {
                        Ok(x) => Ok(Some(x)),
                        Err(error) => Err(error),
                    }
                } else {
                    Err(Error::InvalidTag { what: "presence", value: present[0] as u64 })
                }
            },
            Err(error) => Err(error),
        }
    }
}

impl<'de, T: RoundTrip<'de>> RoundTrip<'de> for Option<T> {
    proof fn lemma_read_back(&self, w: Walk, cur: Cur) {
        lemma_one_kid_columns(Self::node());
        let width = width_of(T::node());
        let image = self.image(w);
        assert(prefix(image[0], cur.rest(0)));
        let next = cur.advance(0, 1);
        match *self {
            None => {
                assert(cur.rest(0).subrange(0, 1)[0] == image[0][0]);
                assert(next.pos =~= passed(cur, image).pos);
            },
            Some(x) => {
                assert(cur.rest(0).subrange(0, 1)[0] == image[0][0]);
                let part = window(next, 1, width);
                lemma_image_len(&x, w);
                assert(image.subrange(1, (1 + width) as int) =~= x.image(w));
                lemma_stands_part(cur, next, image, 1, width);
                assert(readable(x.val(w), T::node())) by {
                    assert(self.val(w).kids[0] == x.val(w));
                }
                x.lemma_read_back(w, part);
                assert(rejoin(next, 1, passed(part, x.image(w))).pos =~= passed(cur, image).pos);
            },
        }
    }
}

/// Validates a claimed number of elements of `s`, read from the length column
/// of a sequence, against the columns of the elements. A fixed-width element
/// consumes exactly its width, so the bound is exact.
pub open spec fn counted(s: Shape, claimed: nat, elems: Cur) -> std::result::Result<nat, Fault> {
    match fixed(s) {
        Some(width) => {
            let limit = elems.rest(0).len() / width as nat;
            if claimed > limit {
                Err(Fault::LimitExceeded("sequence length"@, claimed as u64, limit as u64))
            } else if claimed > usize::MAX {
                Err(Fault::Malformed("length overflows usize"@))
            } else {
                Ok(claimed)
            }
        },
        None => checked("sequence length"@, width_of(s), claimed, elems.left(width_of(s))),
    }
}

/// Reads `n` values, one after another, from the same columns.
pub open spec fn read_list<'de, T: DeserializeColumns<'de>>(cur: Cur, n: nat) -> std::result::Result<
    (Seq<Val>, Cur),
    Fault,
>
    decreases n,
{
    if n == 0 {
        Ok((seq![], cur))
    } else {
        match read_list::<T>(cur, (n - 1) as nat) {
            Ok((items, next)) => match T::read(next) {
                Ok((v, end)) => Ok((items.push(v), end)),
                Err(fault) => Err(fault),
            },
            Err(fault) => Err(fault),
        }
    }
}

proof fn lemma_list_fault<'de, T: DeserializeColumns<'de>>(cur: Cur, i: nat, n: nat)
    requires
        i <= n,
        read_list::<T>(cur, i) is Err,
    ensures
        read_list::<T>(cur, n) == read_list::<T>(cur, i),
    decreases n,
{
    if i < n {
        lemma_list_fault::<T>(cur, i, (n - 1) as nat);
    }
}

/// The bytes that a part of the columns has left.
pub(crate) proof fn lemma_left_part(cur: Cur, base: nat, width: nat, n: nat)
    requires
        base + width <= cur.bufs.len(),
        cur.sized(),
        n <= width,
    ensures
        window(cur, base, width).left(n) + cur.left(base) == cur.left(base + n),
    decreases n,
{
    if n > 0 {
        lemma_left_part(cur, base, width, (n - 1) as nat);
        assert(window(cur, base, width).rest((n - 1) as nat) =~= cur.rest(
            (base + n - 1) as nat,
        ));
    }
}

pub(crate) proof fn lemma_left_grows(cur: Cur, i: nat, n: nat)
    requires
        i <= n,
    ensures
        cur.left(i) <= cur.left(n),
    decreases n,
{
    if i < n {
        lemma_left_grows(cur, i, (n - 1) as nat);
    }
}

/// A count that the elements' own columns allow, all the columns allow.
proof fn lemma_counted(s: Shape, claimed: nat, cur: Cur, base: nat)
    requires
        base + width_of(s) <= cur.bufs.len(),
        cur.sized(),
        counted(s, claimed, window(cur, base, width_of(s))) is Ok,
    ensures
        counted(s, claimed, window(cur, base, width_of(s))) == Ok::<nat, Fault>(claimed),
        checked("sequence length"@, width_of(s), claimed, cur.left(cur.bufs.len())) == Ok::<
            nat,
            Fault,
        >(claimed),
{
    let span = width_of(s);
    let elems = window(cur, base, span);
    lemma_left_part(cur, base, span, span);
    lemma_left_grows(cur, base + span, cur.bufs.len());
    match fixed(s) {
        Some(width) => {
            assert(span >= 1);
            lemma_left_grows(elems, 1, span);
            assert(elems.left(0) == 0);
            assert(elems.left(1) == elems.rest(0).len());
            let len = elems.rest(0).len();
            assert(width >= 1);
            assert(len / width as nat <= len) by (nonlinear_arith)
                requires
                    width >= 1,
                    len >= 0,
            ;
        },
        None => {},
    }
}

proof fn lemma_list<'de, T: DeserializeColumns<'de>>(s: Shape, base: nat, cur: Cur, n: nat)
    requires
        T::sound(),
        s.kids == seq![T::node()],
        cur.sized(),
        base + 1 + width_of(T::node()) <= cur.bufs.len(),
        read_list::<T>(window(cur, base + 1, width_of(T::node())), n) is Ok,
    ensures
        ({
            let part = window(cur, base + 1, width_of(T::node()));
            let (items, next) = read_list::<T>(part, n)->Ok_0;
            &&& moved_only(part, next)
            &&& get_items(s, base, cur, n) == Ok::<(Seq<Val>, Cur), Fault>(
                (items, rejoin(cur, base + 1, next)),
            )
        }),
    decreases n,
{
    let width = width_of(T::node());
    let part = window(cur, base + 1, width);
    if n == 0 {
        assert(rejoin(cur, base + 1, part).pos =~= cur.pos);
    } else {
        let m = (n - 1) as nat;
        lemma_list::<T>(s, base, cur, m);
        let mid = read_list::<T>(part, m)->Ok_0.1;
        let whole = rejoin(cur, base + 1, mid);
        assert(window(whole, base + 1, width) == mid) by {
            assert(window(whole, base + 1, width).bufs =~= mid.bufs);
            assert(window(whole, base + 1, width).pos =~= mid.pos);
            assert(window(whole, base + 1, width).regs =~= mid.regs);
        }
        T::lemma_read(base + 1, whole);
        let end = T::read(mid)->Ok_0.1;
        assert(rejoin(whole, base + 1, end).pos =~= rejoin(cur, base + 1, end).pos);
    }
}

/// Reads a validated count from a length column.
fn read_count<T: StaticSchema>(
    len_column: &mut ColumnCursor<'_>,
    elems: &[ColumnCursor<'_>],
) -> (result: Result<usize>)
    requires
        old(len_column).well_formed(),
        elems@.len() == width_of(T::node()),
        readable_state(elems@, nothing(elems@.len())),
    ensures
        final(len_column).well_formed(),
        final(len_column).data() == old(len_column).data(),
        match varint::decoded(old(len_column).rest()) {
            Ok((claimed, used)) => {
                &&& final(len_column).at() == old(len_column).at() + used
                &&& match result {
                    Ok(n) => counted(T::node(), claimed, slice_cur(elems@)) == Ok::<nat, Fault>(
                        n as nat,
                    ),
                    Err(error) => counted(T::node(), claimed, slice_cur(elems@)) == Err::<
                        nat,
                        Fault,
                    >(error@),
                }
            },
            Err(fault) => result matches Err(error) && error@ == fault,
        },
{
    let claimed = match len_column.varint() {
        Ok(claimed) => claimed,
        Err(error) => return Err(error),
    };
    assert(elems@.len() == elems.len());
    match T::fixed_width() {
        Some(width) => {
            proof {
                crate::de::lemma_rest(elems@, nothing(elems@.len()), 0);
                let len = elems@[0].rest().len();
                assert(width >= 1);
                assert(len / width as nat <= len) by (nonlinear_arith)
                    requires
                        width >= 1,
                        len >= 0,
                ;
            }
            let limit: u64 = (elems[0].remaining() / width) as u64;
            if claimed > limit {
                return Err(Error::LimitExceeded { what: "sequence length", claimed, limit });
            }
            if claimed > usize::MAX as u64 {
                return Err(Error::Malformed("length overflows usize"));
            }
            Ok(claimed as usize)
        },
        None => {
            proof {
                crate::de::lemma_left_is(elems@, nothing(elems@.len()), elems@.len());
            }
            checked_count("sequence length", T::columns(), claimed, elems)
        },
    }
}

/// Reads `n` values, one after another, from the same columns.
pub(crate) fn take_list<'de, T: DeserializeColumns<'de>>(n: usize, elems: &mut [ColumnCursor<'de>]) -> (result:
    Result<Vec<T>>)
    requires
        old(elems)@.len() == width_of(T::node()),
        readable_state(old(elems)@, nothing(old(elems)@.len())),
    ensures
        still_readable(old(elems)@, final(elems)@, nothing(old(elems)@.len())),
        T::sound() ==> match result {
            Ok(items) => read_list::<T>(slice_cur(old(elems)@), n as nat) matches Ok((kids, next))
                && all_stand(items@, kids) && next == slice_cur(final(elems)@),
            Err(error) => read_list::<T>(slice_cur(old(elems)@), n as nat) == Err::<
                (Seq<Val>, Cur),
                Fault,
            >(error@),
        },
{
    let ghost before = elems@;
    let ghost cur = slice_cur(elems@);
    let mut items: Vec<T> = Vec::new();
    let mut i: usize = 0;
    while i < n
        invariant
            i <= n,
            before == old(elems)@,
            cur == slice_cur(before),
            before.len() == width_of(T::node()),
            still_readable(before, elems@, nothing(before.len())),
            T::sound() ==> (read_list::<T>(cur, i as nat) matches Ok((kids, next)) && all_stand(
                items@,
                kids,
            ) && next == slice_cur(elems@)),
        decreases n - i,
    {
        match T::deserialize_columns(elems) {
            Ok(item) => {
                items.push(item);
            },
            Err(error) => {
                proof {
                    if T::sound() {
                        assert(read_list::<T>(cur, (i + 1) as nat) is Err);
                        lemma_list_fault::<T>(cur, (i + 1) as nat, n as nat);
                    }
                }
                return Err(error);
            },
        }
        i += 1;
    }
    Ok(items)
}

impl<'de, T: DeserializeColumns<'de>> DeserializeColumns<'de> for Vec<T> {
    open spec fn sound() -> bool {
        T::sound()
    }

    open spec fn read(cur: Cur) -> std::result::Result<(Val, Cur), Fault> {
        match cur.varint(0) {
            Ok((claimed, next)) => {
                let elems = window(next, 1, width_of(T::node()));
                match counted(T::node(), claimed, elems) {
                    Ok(n) => match read_list::<T>(elems, n) {
                        Ok((kids, end)) => Ok(
                            (Val { head: Head::Sequence, kids }, rejoin(next, 1, end)),
                        ),
                        Err(fault) => Err(fault),
                    },
                    Err(fault) => Err(fault),
                }
            },
            Err(fault) => Err(fault),
        }
    }

    proof fn lemma_read(base: nat, cur: Cur) {
        let s = Self::node();
        lemma_one_kid_columns(s);
        let width = width_of(T::node());
        let part = window(cur, base, 1 + width);
        assert(part.rest(0) =~= cur.rest(base));
        let (claimed, used) = varint::decoded(part.rest(0))->Ok_0;
        let next = part.advance(0, used);
        let other = cur.advance(base, used);
        let elems = window(next, 1, width);
        assert(elems == window(other, base + 1, width)) by {
            assert(elems.bufs =~= window(other, base + 1, width).bufs);
            assert(elems.pos =~= window(other, base + 1, width).pos);
            assert(elems.regs =~= window(other, base + 1, width).regs);
        }
        lemma_counted(T::node(), claimed, other, base + 1);
        lemma_list::<T>(s, base, other, claimed);
        let end = read_list::<T>(elems, claimed)->Ok_0.1;
        assert(rejoin(other, base + 1, end).pos =~= rejoin(cur, base, rejoin(next, 1, end)).pos);
    }

    fn deserialize_columns(cursors: &mut [ColumnCursor<'de>]) -> (result: Result<Self>) {
        proof {
            lemma_one_kid_columns(Self::node());
        }
        let ghost start = cursors@;
        let ghost width = width_of(T::node());
        proof {
            lemma_part(start, 1, width);
            lemma_part(start, 0, 1);
            crate::de::lemma_rest(start, nothing(start.len()), 0);
        }
        let (head, rest) = cursors.split_at_mut(1);
        let count = read_count::<T>(&mut head[0], &*rest);
        let ghost mid = head@ + rest@;
        proof {
            assert(mid =~= start.subrange(0, 0) + head@ + start.subrange(1, start.len() as int));
            assert(readable_state(head@, nothing(1))) by {
                assert(head@[0].data() == start.subrange(0, 1)[0].data());
                crate::de::lemma_same_data(start.subrange(0, 1), head@, 1);
            }
            lemma_whole(start, mid, 0, head@);
            if let Ok((claimed, used)) = varint::decoded(start[0].rest()) {
                assert(slice_cur(mid).pos =~= slice_cur(start).advance(0, used).pos);
                assert(slice_cur(mid) == slice_cur(start).advance(0, used));
            }
            lemma_part(mid, 1, width);
            assert(mid.subrange(1, (1 + width) as int) =~= rest@);
        }
        match count {
            Ok(n) => {
                let result = take_list::<T>(n, rest);
                let ghost after = head@ + rest@;
                proof {
                    assert(after =~= mid.subrange(0, 1) + rest@ + mid.subrange(
                        mid.len() as int,
                        mid.len() as int,
                    ));
                    lemma_whole(mid, after, 1, rest@);
                }
                result
            },
            Err(error) => Err(error),
        }
    }
}

/// What a value of at least one column writes is at least one byte, and a
/// fixed-width value writes its width.
proof fn lemma_image_size<T: SerializeColumns>(x: &T, w: Walk)
    requires
        x.writes(),
    ensures
        x.image(w).len() == width_of(T::node()),
        width_of(T::node()) > 0 ==> total(x.image(w), width_of(T::node())) >= 1,
        fixed(T::node()) matches Some(width) ==> x.image(w)[0].len() == width,
{
    let span = width_of(T::node());
    let row = Row { cols: blank(span), book: Seq::new(span, |c: int| Seq::<u64>::empty()) };
    x.lemma_image(w, 0, row);
    T::lemma_node();
    lemma_put(x.val(w), T::node(), 0, row);
    let cols = stamped(row, 0, x.image(w)).cols;
    assert(cols =~= x.image(w)) by {
        assert forall|c: int| 0 <= c < span implies #[trigger] cols[c] == x.image(w)[c] by {
            assert(cols[c] =~= x.image(w)[c]);
        }
    }
    if let Some(width) = fixed(T::node()) {
        if let Head::Scalar(y) = x.val(w).head {
            lemma_scalar_bytes(y);
            assert(cols[0] =~= scalar_bytes(y));
        }
    }
}

/// What a list of items appends to each column starts with what fewer of them
/// append.
pub(crate) proof fn lemma_images_grow<T: SerializeColumns>(
    items: Seq<T>,
    w: Walk,
    i: nat,
    n: nat,
)
    requires
        all_write(items),
        i <= n <= items.len(),
    ensures
        item_images(items, w, i).len() == width_of(T::node()),
        item_images(items, w, n).len() == width_of(T::node()),
        forall|c: int|
            0 <= c < width_of(T::node()) ==> prefix(
                item_images(items, w, i)[c],
                #[trigger] item_images(items, w, n)[c],
            ),
        width_of(T::node()) > 0 ==> total(item_images(items, w, n), width_of(T::node())) >= n,
        fixed(T::node()) matches Some(width) ==> item_images(items, w, n)[0].len() == n * width,
    decreases n,
{
    let span = width_of(T::node());
    if n > 0 {
        let m = (n - 1) as nat;
        let before = if i < n {
            i
        } else {
            m
        };
        lemma_images_grow(items, w, before, m);
        assert(items[m as int].writes());
        lemma_image_size(&items[m as int], w.part(m as int));
        lemma_total_layered(
            item_images(items, w, m),
            items[m as int].image(w.part(m as int)),
            span,
        );
        if i < n {
            assert forall|c: int| 0 <= c < span implies prefix(
                item_images(items, w, i)[c],
                #[trigger] item_images(items, w, n)[c],
            ) by {
                assert(prefix(item_images(items, w, i)[c], item_images(items, w, m)[c]));
            }
        }
        if let Some(width) = fixed(T::node()) {
            assert(n * width == m * width + width) by (nonlinear_arith)
                requires
                    n == m + 1,
            ;
        }
    } else {
        if let Some(width) = fixed(T::node()) {
            assert(0 * width == 0) by (nonlinear_arith);
        }
    }
}

proof fn lemma_total_layered(a: Seq<Seq<u8>>, b: Seq<Seq<u8>>, n: nat)
    requires
        n <= a.len(),
        n <= b.len(),
    ensures
        total(layered(a, b), n) == total(a, n) + total(b, n),
    decreases n,
{
    if n > 0 {
        lemma_total_layered(a, b, (n - 1) as nat);
    }
}

/// What stands where the reader is, is among what is left.
pub(crate) proof fn lemma_stands_left(cur: Cur, image: Seq<Seq<u8>>, n: nat)
    requires
        stands(cur, image),
        n <= image.len(),
    ensures
        total(image, n) <= cur.left(n),
    decreases n,
{
    if n > 0 {
        lemma_stands_left(cur, image, (n - 1) as nat);
        assert(prefix(image[n - 1], cur.rest((n - 1) as nat)));
    }
}

pub(crate) proof fn lemma_list_back<'de, T: RoundTrip<'de>>(items: Seq<T>, w: Walk, cur: Cur, n: nat)
    requires
        T::sound(),
        all_write(items),
        forall|i: int| 0 <= i < items.len() ==> readable(
            (#[trigger] items[i]).val(w.part(i)),
            T::node(),
        ),
        n <= items.len(),
        stands(cur, item_images(items, w, items.len())),
    ensures
        read_list::<T>(cur, n) == Ok::<(Seq<Val>, Cur), Fault>(
            (item_vals(items, w).subrange(0, n as int), passed(cur, item_images(items, w, n))),
        ),
    decreases n,
{
    let width = width_of(T::node());
    lemma_images_grow(items, w, n, items.len());
    if n == 0 {
        assert(item_vals(items, w).subrange(0, 0) =~= seq![]);
        assert(passed(cur, item_images(items, w, 0)).pos =~= cur.pos);
    } else {
        let m = (n - 1) as nat;
        lemma_list_back(items, w, cur, m);
        lemma_images_grow(items, w, m, items.len());
        let x = items[m as int];
        let u = w.part(m as int);
        assert(x.writes());
        lemma_image_size(&x, u);
        let mid = passed(cur, item_images(items, w, m));
        assert(stands(mid, x.image(u))) by {
            assert forall|c: int| 0 <= c < width implies (#[trigger] mid.pos[c]) <= mid.bufs[c].len()
                && prefix(x.image(u)[c], mid.rest(c as nat)) by {
                let all = item_images(items, w, items.len())[c];
                assert(prefix(all, cur.rest(c as nat)));
                assert(prefix(item_images(items, w, n)[c], all));
                let had = item_images(items, w, m)[c];
                assert(item_images(items, w, n)[c] == had + x.image(u)[c]);
                assert(mid.rest(c as nat) =~= cur.rest(c as nat).subrange(
                    had.len() as int,
                    cur.rest(c as nat).len() as int,
                ));
                assert forall|k: int| 0 <= k < x.image(u)[c].len() implies x.image(u)[c][k]
                    == #[trigger] mid.rest(c as nat)[k] by {
                    assert((had + x.image(u)[c])[had.len() + k] == x.image(u)[c][k]);
                    assert(all[had.len() + k] == item_images(items, w, n)[c][had.len() + k]);
                    assert(cur.rest(c as nat)[had.len() + k] == all[had.len() + k]);
                }
            }
            assert forall|c: int| 0 <= c < x.image(u).len() implies prefix(
                #[trigger] x.image(u)[c],
                mid.rest(c as nat),
            ) by {
                assert(mid.pos[c] <= mid.bufs[c].len());
            }
        }
        x.lemma_read_back(u, mid);
        assert(passed(mid, x.image(u)).pos =~= passed(cur, item_images(items, w, n)).pos);
        assert(item_vals(items, w).subrange(0, m as int).push(x.val(u)) =~= item_vals(items, w).subrange(
            0,
            n as int,
        ));
    }
}

/// Reading a list where it was written gives its items back.
pub(crate) proof fn lemma_vec_back<'de, T: RoundTrip<'de>>(
    items: Seq<T>,
    w: Walk,
    v: Val,
    cur: Cur,
)
    requires
        T::sound(),
        all_write(items),
        v == (Val { head: Head::Sequence, kids: item_vals(items, w) }),
        readable(v, <Vec<T>>::node()),
        stands(cur, seq![varint::encoded(items.len())] + item_images(items, w, items.len())),
    ensures
        <Vec<T>>::read(cur) == Ok::<(Val, Cur), Fault>(
            (v, passed(cur, seq![varint::encoded(items.len())] + item_images(items, w, items.len()))),
        ),
{
    let s = <Vec<T>>::node();
    lemma_one_kid_columns(s);
    let span = width_of(T::node());
    let n = items.len();
    let image = seq![varint::encoded(items.len())] + item_images(items, w, items.len());
    let code = varint::encoded(n);
    lemma_images_grow(items, w, n, n);
    assert(prefix(image[0], cur.rest(0)));
    let tail = cur.rest(0).subrange(code.len() as int, cur.rest(0).len() as int);
    assert(cur.rest(0) =~= code + tail);
    varint::lemma_decode_encode(n as u64, tail);
    let next = cur.advance(0, code.len());
    let elems = window(next, 1, span);
    assert(image.subrange(1, (1 + span) as int) =~= item_images(items, w, n));
    lemma_stands_part(cur, next, image, 1, span);
    assert forall|i: int| 0 <= i < items.len() implies readable(
        (#[trigger] items[i]).val(w.part(i)),
        T::node(),
    ) by {
        assert(v.kids[i] == items[i].val(w.part(i)));
    }
    lemma_list_back(items, w, elems, n);
    assert(item_vals(items, w).subrange(0, n as int) =~= item_vals(items, w));
    assert(counted(T::node(), n, elems) == Ok::<nat, Fault>(n)) by {
        match fixed(T::node()) {
            Some(width) => {
                assert(prefix(item_images(items, w, n)[0], elems.rest(0)));
                let len = elems.rest(0).len();
                assert(len / width as nat >= n) by (nonlinear_arith)
                    requires
                        len >= n * width,
                        width >= 1,
                ;
            },
            None => {
                lemma_stands_left(elems, item_images(items, w, n), span);
            },
        }
    }
    assert(rejoin(next, 1, passed(elems, item_images(items, w, n))).pos =~= passed(cur, image).pos);
}

impl<'de, T: RoundTrip<'de>> RoundTrip<'de> for Vec<T> {
    proof fn lemma_read_back(&self, w: Walk, cur: Cur) {
        lemma_vec_back(self@, w, self.val(w), cur);
    }
}

/// One field of a product: where the part of the state that is the product
/// has come to `c`, reading the field at `off` moves it on.
pub proof fn lemma_field<'de, T: DeserializeColumns<'de>>(cur: Cur, base: nat, width: nat, c: Cur, off: nat)
    requires
        T::sound(),
        cur.sized(),
        base + width <= cur.bufs.len(),
        moved_only(window(cur, base, width), c),
        off + width_of(T::node()) <= width,
        T::read(window(c, off, width_of(T::node()))) is Ok,
    ensures
        ({
            let (v, next) = T::read(window(c, off, width_of(T::node())))->Ok_0;
            let moved = rejoin(c, off, next);
            &&& moved_only(window(cur, base, width), moved)
            &&& get(T::node(), base + off, rejoin(cur, base, c)) == Ok::<(Val, Cur), Fault>(
                (v, rejoin(cur, base, moved)),
            )
        }),
{
    let span = width_of(T::node());
    let g = rejoin(cur, base, c);
    let part = window(c, off, span);
    let other = window(g, base + off, span);
    assert(part == other) by {
        assert(part.bufs =~= other.bufs);
        assert(part.pos =~= other.pos);
        assert(part.regs =~= other.regs);
    }
    T::lemma_read(base + off, g);
    let next = T::read(part)->Ok_0.1;
    assert(rejoin(g, base + off, next).pos =~= rejoin(cur, base, rejoin(c, off, next)).pos);
}

/// Reads a value from the columns from `base` on.
pub(crate) fn read_part<'de, T: DeserializeColumns<'de>>(
    cursors: &mut [ColumnCursor<'de>],
    base: usize,
) -> (result: Result<T>)
    requires
        base + width_of(T::node()) <= old(cursors)@.len(),
        readable_state(old(cursors)@, nothing(old(cursors)@.len())),
    ensures
        still_readable(old(cursors)@, final(cursors)@, nothing(old(cursors)@.len())),
        T::sound() ==> ({
            let expected = T::read(
                window(slice_cur(old(cursors)@), base as nat, width_of(T::node())),
            );
            match result {
                Ok(x) => {
                    &&& expected is Ok
                    &&& x.stands_for(expected->Ok_0.0)
                    &&& slice_cur(final(cursors)@) == rejoin(
                        slice_cur(old(cursors)@),
                        base as nat,
                        expected->Ok_0.1,
                    )
                },
                Err(error) => expected == Err::<(Val, Cur), Fault>(error@),
            }
        }),
{
    let ghost start = cursors@;
    let ghost width = width_of(T::node());
    assert(cursors@.len() == cursors.len());
    proof {
        lemma_part(start, base as nat, width);
    }
    let (before, rest) = cursors.split_at_mut(base);
    let ghost rest0 = rest@;
    let (part, after) = rest.split_at_mut(T::columns());
    assert(part@ =~= start.subrange(base as int, (base + width) as int));
    let result = T::deserialize_columns(part);
    let ghost whole = before@ + (part@ + after@);
    proof {
        assert(whole =~= start.subrange(0, base as int) + part@ + start.subrange(
            (base + width) as int,
            start.len() as int,
        ));
        lemma_whole(start, whole, base as nat, part@);
    }
    result
}

impl<'de, T0: DeserializeColumns<'de>> DeserializeColumns<'de> for (T0,) {
    open spec fn sound() -> bool {
        T0::sound()
    }

    open spec fn read(cur: Cur) -> std::result::Result<(Val, Cur), Fault> {
        let c0 = cur;
        match T0::read(window(c0, 0, width_of(T0::node()))) {
            Ok((v0, n0)) => {
                let c1 = rejoin(c0, 0, n0);
                Ok((Val { head: Head::Tuple, kids: seq![v0] }, c1))
            },
            Err(fault) => Err(fault),
        }
    }

    proof fn lemma_read(base: nat, cur: Cur) {
        let s = Self::node();
        let part = window(cur, base, width_of(s));
        assert(columns_before(s, 1) == columns_before(s, 0) + width_of(T0::node()));
        let c0 = part;
        let g0 = cur;
        assert(rejoin(cur, base, c0).pos =~= cur.pos);
        assert(get_fields(s, base, cur, 0) == Ok::<(Seq<Val>, Cur), Fault>((seq![], cur)));
        let k0 = Seq::<Val>::empty();
        lemma_field::<T0>(cur, base, width_of(s), c0, 0);
        let (v0, n0) = T0::read(window(c0, 0, width_of(T0::node())))->Ok_0;
        let c1 = rejoin(c0, 0, n0);
        let g1 = rejoin(cur, base, c1);
        let k1 = k0.push(v0);
        assert(kid_base(s, base, 0) == base + (0));
        assert(get_fields(s, base, cur, 1) == Ok::<(Seq<Val>, Cur), Fault>((k1, g1)));
        assert(k1 =~= seq![v0]);
    }

    fn deserialize_columns(cursors: &mut [ColumnCursor<'de>]) -> (result: Result<Self>) {
        assert(cursors@.len() == cursors.len());
        proof {
            let s = Self::node();
            assert(columns_before(s, 1) == columns_before(s, 0) + width_of(T0::node()));
        }
        let ghost s0 = cursors@;
        let x0 = match read_part::<T0>(cursors, 0) {
            Ok(x) => x,
            Err(error) => return Err(error),
        };
        Ok((x0,))
    }
}

impl<'de, T0: RoundTrip<'de>> RoundTrip<'de> for (T0,) {
    proof fn lemma_read_back(&self, w: Walk, cur: Cur) {
        let s = Self::node();
        let image = self.image(w);
        let v = self.val(w);
        let c0 = cur;
        lemma_image_len(&self.0, w.part(0));
        assert(v.kids[0] == self.0.val(w.part(0)));
        assert(s.kids[0] == T0::node());
        assert(readable(self.0.val(w.part(0)), T0::node()));
        assert(image.subrange((0) as int, (width_of(T0::node())) as int) =~= self.0.image(w.part(0)));
        lemma_stands_part(cur, c0, image, 0, width_of(T0::node()));
        self.0.lemma_read_back(w.part(0), window(c0, 0, width_of(T0::node())));
        let n0 = passed(window(c0, 0, width_of(T0::node())), self.0.image(w.part(0)));
        let c1 = rejoin(c0, 0, n0);
        assert(c1.pos =~= passed(cur, image).pos);
    }
}

impl<'de, T0: DeserializeColumns<'de>, T1: DeserializeColumns<'de>> DeserializeColumns<'de> for (T0, T1) {
    open spec fn sound() -> bool {
        T0::sound() && T1::sound()
    }

    open spec fn read(cur: Cur) -> std::result::Result<(Val, Cur), Fault> {
        let c0 = cur;
        match T0::read(window(c0, 0, width_of(T0::node()))) {
            Ok((v0, n0)) => {
                let c1 = rejoin(c0, 0, n0);
                match T1::read(window(c1, width_of(T0::node()), width_of(T1::node()))) {
                    Ok((v1, n1)) => {
                        let c2 = rejoin(c1, width_of(T0::node()), n1);
                        Ok((Val { head: Head::Tuple, kids: seq![v0, v1] }, c2))
                    },
                    Err(fault) => Err(fault),
                }
            },
            Err(fault) => Err(fault),
        }
    }

    proof fn lemma_read(base: nat, cur: Cur) {
        let s = Self::node();
        let part = window(cur, base, width_of(s));
        assert(columns_before(s, 1) == columns_before(s, 0) + width_of(T0::node()));
        assert(columns_before(s, 2) == columns_before(s, 1) + width_of(T1::node()));
        let c0 = part;
        let g0 = cur;
        assert(rejoin(cur, base, c0).pos =~= cur.pos);
        assert(get_fields(s, base, cur, 0) == Ok::<(Seq<Val>, Cur), Fault>((seq![], cur)));
        let k0 = Seq::<Val>::empty();
        lemma_field::<T0>(cur, base, width_of(s), c0, 0);
        let (v0, n0) = T0::read(window(c0, 0, width_of(T0::node())))->Ok_0;
        let c1 = rejoin(c0, 0, n0);
        let g1 = rejoin(cur, base, c1);
        let k1 = k0.push(v0);
        assert(kid_base(s, base, 0) == base + (0));
        assert(get_fields(s, base, cur, 1) == Ok::<(Seq<Val>, Cur), Fault>((k1, g1)));
        lemma_field::<T1>(cur, base, width_of(s), c1, width_of(T0::node()));
        let (v1, n1) = T1::read(window(c1, width_of(T0::node()), width_of(T1::node())))->Ok_0;
        let c2 = rejoin(c1, width_of(T0::node()), n1);
        let g2 = rejoin(cur, base, c2);
        let k2 = k1.push(v1);
        assert(kid_base(s, base, 1) == base + (width_of(T0::node())));
        assert(get_fields(s, base, cur, 2) == Ok::<(Seq<Val>, Cur), Fault>((k2, g2)));
        assert(k2 =~= seq![v0, v1]);
    }

    fn deserialize_columns(cursors: &mut [ColumnCursor<'de>]) -> (result: Result<Self>) {
        assert(cursors@.len() == cursors.len());
        proof {
            let s = Self::node();
            assert(columns_before(s, 1) == columns_before(s, 0) + width_of(T0::node()));
            assert(columns_before(s, 2) == columns_before(s, 1) + width_of(T1::node()));
        }
        let ghost s0 = cursors@;
        let x0 = match read_part::<T0>(cursors, 0) {
            Ok(x) => x,
            Err(error) => return Err(error),
        };
        let x1 = match read_part::<T1>(cursors, T0::columns()) {
            Ok(x) => x,
            Err(error) => return Err(error),
        };
        Ok((x0, x1))
    }
}

impl<'de, T0: RoundTrip<'de>, T1: RoundTrip<'de>> RoundTrip<'de> for (T0, T1) {
    proof fn lemma_read_back(&self, w: Walk, cur: Cur) {
        let s = Self::node();
        let image = self.image(w);
        let v = self.val(w);
        let c0 = cur;
        lemma_image_len(&self.0, w.part(0));
        assert(v.kids[0] == self.0.val(w.part(0)));
        assert(s.kids[0] == T0::node());
        assert(readable(self.0.val(w.part(0)), T0::node()));
        assert(image.subrange((0) as int, (width_of(T0::node())) as int) =~= self.0.image(w.part(0)));
        lemma_stands_part(cur, c0, image, 0, width_of(T0::node()));
        self.0.lemma_read_back(w.part(0), window(c0, 0, width_of(T0::node())));
        let n0 = passed(window(c0, 0, width_of(T0::node())), self.0.image(w.part(0)));
        let c1 = rejoin(c0, 0, n0);
        lemma_image_len(&self.1, w.part(1));
        assert(v.kids[1] == self.1.val(w.part(1)));
        assert(s.kids[1] == T1::node());
        assert(readable(self.1.val(w.part(1)), T1::node()));
        assert(image.subrange((width_of(T0::node())) as int, (width_of(T0::node()) + width_of(T1::node())) as int) =~= self.1.image(w.part(1)));
        lemma_stands_part(cur, c1, image, width_of(T0::node()), width_of(T1::node()));
        self.1.lemma_read_back(w.part(1), window(c1, width_of(T0::node()), width_of(T1::node())));
        let n1 = passed(window(c1, width_of(T0::node()), width_of(T1::node())), self.1.image(w.part(1)));
        let c2 = rejoin(c1, width_of(T0::node()), n1);
        assert(c2.pos =~= passed(cur, image).pos);
    }
}

impl<'de, T0: DeserializeColumns<'de>, T1: DeserializeColumns<'de>, T2: DeserializeColumns<'de>> DeserializeColumns<'de> for (T0, T1, T2) {
    open spec fn sound() -> bool {
        T0::sound() && T1::sound() && T2::sound()
    }

    open spec fn read(cur: Cur) -> std::result::Result<(Val, Cur), Fault> {
        let c0 = cur;
        match T0::read(window(c0, 0, width_of(T0::node()))) {
            Ok((v0, n0)) => {
                let c1 = rejoin(c0, 0, n0);
                match T1::read(window(c1, width_of(T0::node()), width_of(T1::node()))) {
                    Ok((v1, n1)) => {
                        let c2 = rejoin(c1, width_of(T0::node()), n1);
                        match T2::read(window(c2, width_of(T0::node()) + width_of(T1::node()), width_of(T2::node()))) {
                            Ok((v2, n2)) => {
                                let c3 = rejoin(c2, width_of(T0::node()) + width_of(T1::node()), n2);
                                Ok((Val { head: Head::Tuple, kids: seq![v0, v1, v2] }, c3))
                            },
                            Err(fault) => Err(fault),
                        }
                    },
                    Err(fault) => Err(fault),
                }
            },
            Err(fault) => Err(fault),
        }
    }

    proof fn lemma_read(base: nat, cur: Cur) {
        let s = Self::node();
        let part = window(cur, base, width_of(s));
        assert(columns_before(s, 1) == columns_before(s, 0) + width_of(T0::node()));
        assert(columns_before(s, 2) == columns_before(s, 1) + width_of(T1::node()));
        assert(columns_before(s, 3) == columns_before(s, 2) + width_of(T2::node()));
        let c0 = part;
        let g0 = cur;
        assert(rejoin(cur, base, c0).pos =~= cur.pos);
        assert(get_fields(s, base, cur, 0) == Ok::<(Seq<Val>, Cur), Fault>((seq![], cur)));
        let k0 = Seq::<Val>::empty();
        lemma_field::<T0>(cur, base, width_of(s), c0, 0);
        let (v0, n0) = T0::read(window(c0, 0, width_of(T0::node())))->Ok_0;
        let c1 = rejoin(c0, 0, n0);
        let g1 = rejoin(cur, base, c1);
        let k1 = k0.push(v0);
        assert(kid_base(s, base, 0) == base + (0));
        assert(get_fields(s, base, cur, 1) == Ok::<(Seq<Val>, Cur), Fault>((k1, g1)));
        lemma_field::<T1>(cur, base, width_of(s), c1, width_of(T0::node()));
        let (v1, n1) = T1::read(window(c1, width_of(T0::node()), width_of(T1::node())))->Ok_0;
        let c2 = rejoin(c1, width_of(T0::node()), n1);
        let g2 = rejoin(cur, base, c2);
        let k2 = k1.push(v1);
        assert(kid_base(s, base, 1) == base + (width_of(T0::node())));
        assert(get_fields(s, base, cur, 2) == Ok::<(Seq<Val>, Cur), Fault>((k2, g2)));
        lemma_field::<T2>(cur, base, width_of(s), c2, width_of(T0::node()) + width_of(T1::node()));
        let (v2, n2) = T2::read(window(c2, width_of(T0::node()) + width_of(T1::node()), width_of(T2::node())))->Ok_0;
        let c3 = rejoin(c2, width_of(T0::node()) + width_of(T1::node()), n2);
        let g3 = rejoin(cur, base, c3);
        let k3 = k2.push(v2);
        assert(kid_base(s, base, 2) == base + (width_of(T0::node()) + width_of(T1::node())));
        assert(get_fields(s, base, cur, 3) == Ok::<(Seq<Val>, Cur), Fault>((k3, g3)));
        assert(k3 =~= seq![v0, v1, v2]);
    }

    fn deserialize_columns(cursors: &mut [ColumnCursor<'de>]) -> (result: Result<Self>) {
        assert(cursors@.len() == cursors.len());
        proof {
            let s = Self::node();
            assert(columns_before(s, 1) == columns_before(s, 0) + width_of(T0::node()));
            assert(columns_before(s, 2) == columns_before(s, 1) + width_of(T1::node()));
            assert(columns_before(s, 3) == columns_before(s, 2) + width_of(T2::node()));
        }
        let ghost s0 = cursors@;
        let x0 = match read_part::<T0>(cursors, 0) {
            Ok(x) => x,
            Err(error) => return Err(error),
        };
        let x1 = match read_part::<T1>(cursors, T0::columns()) {
            Ok(x) => x,
            Err(error) => return Err(error),
        };
        let x2 = match read_part::<T2>(cursors, T0::columns() + T1::columns()) {
            Ok(x) => x,
            Err(error) => return Err(error),
        };
        Ok((x0, x1, x2))
    }
}

impl<'de, T0: RoundTrip<'de>, T1: RoundTrip<'de>, T2: RoundTrip<'de>> RoundTrip<'de> for (T0, T1, T2) {
    proof fn lemma_read_back(&self, w: Walk, cur: Cur) {
        let s = Self::node();
        let image = self.image(w);
        let v = self.val(w);
        let c0 = cur;
        lemma_image_len(&self.0, w.part(0));
        assert(v.kids[0] == self.0.val(w.part(0)));
        assert(s.kids[0] == T0::node());
        assert(readable(self.0.val(w.part(0)), T0::node()));
        assert(image.subrange((0) as int, (width_of(T0::node())) as int) =~= self.0.image(w.part(0)));
        lemma_stands_part(cur, c0, image, 0, width_of(T0::node()));
        self.0.lemma_read_back(w.part(0), window(c0, 0, width_of(T0::node())));
        let n0 = passed(window(c0, 0, width_of(T0::node())), self.0.image(w.part(0)));
        let c1 = rejoin(c0, 0, n0);
        lemma_image_len(&self.1, w.part(1));
        assert(v.kids[1] == self.1.val(w.part(1)));
        assert(s.kids[1] == T1::node());
        assert(readable(self.1.val(w.part(1)), T1::node()));
        assert(image.subrange((width_of(T0::node())) as int, (width_of(T0::node()) + width_of(T1::node())) as int) =~= self.1.image(w.part(1)));
        lemma_stands_part(cur, c1, image, width_of(T0::node()), width_of(T1::node()));
        self.1.lemma_read_back(w.part(1), window(c1, width_of(T0::node()), width_of(T1::node())));
        let n1 = passed(window(c1, width_of(T0::node()), width_of(T1::node())), self.1.image(w.part(1)));
        let c2 = rejoin(c1, width_of(T0::node()), n1);
        lemma_image_len(&self.2, w.part(2));
        assert(v.kids[2] == self.2.val(w.part(2)));
        assert(s.kids[2] == T2::node());
        assert(readable(self.2.val(w.part(2)), T2::node()));
        assert(image.subrange((width_of(T0::node()) + width_of(T1::node())) as int, (width_of(T0::node()) + width_of(T1::node()) + width_of(T2::node())) as int) =~= self.2.image(w.part(2)));
        lemma_stands_part(cur, c2, image, width_of(T0::node()) + width_of(T1::node()), width_of(T2::node()));
        self.2.lemma_read_back(w.part(2), window(c2, width_of(T0::node()) + width_of(T1::node()), width_of(T2::node())));
        let n2 = passed(window(c2, width_of(T0::node()) + width_of(T1::node()), width_of(T2::node())), self.2.image(w.part(2)));
        let c3 = rejoin(c2, width_of(T0::node()) + width_of(T1::node()), n2);
        assert(c3.pos =~= passed(cur, image).pos);
    }
}

impl<'de, T0: DeserializeColumns<'de>, T1: DeserializeColumns<'de>, T2: DeserializeColumns<'de>, T3: DeserializeColumns<'de>> DeserializeColumns<'de> for (T0, T1, T2, T3) {
    open spec fn sound() -> bool {
        T0::sound() && T1::sound() && T2::sound() && T3::sound()
    }

    open spec fn read(cur: Cur) -> std::result::Result<(Val, Cur), Fault> {
        let c0 = cur;
        match T0::read(window(c0, 0, width_of(T0::node()))) {
            Ok((v0, n0)) => {
                let c1 = rejoin(c0, 0, n0);
                match T1::read(window(c1, width_of(T0::node()), width_of(T1::node()))) {
                    Ok((v1, n1)) => {
                        let c2 = rejoin(c1, width_of(T0::node()), n1);
                        match T2::read(window(c2, width_of(T0::node()) + width_of(T1::node()), width_of(T2::node()))) {
                            Ok((v2, n2)) => {
                                let c3 = rejoin(c2, width_of(T0::node()) + width_of(T1::node()), n2);
                                match T3::read(window(c3, width_of(T0::node()) + width_of(T1::node()) + width_of(T2::node()), width_of(T3::node()))) {
                                    Ok((v3, n3)) => {
                                        let c4 = rejoin(c3, width_of(T0::node()) + width_of(T1::node()) + width_of(T2::node()), n3);
                                        Ok((Val { head: Head::Tuple, kids: seq![v0, v1, v2, v3] }, c4))
                                    },
                                    Err(fault) => Err(fault),
                                }
                            },
                            Err(fault) => Err(fault),
                        }
                    },
                    Err(fault) => Err(fault),
                }
            },
            Err(fault) => Err(fault),
        }
    }

    #[verifier::rlimit(40)]
    proof fn lemma_read(base: nat, cur: Cur) {
        let s = Self::node();
        let part = window(cur, base, width_of(s));
        assert(columns_before(s, 1) == columns_before(s, 0) + width_of(T0::node()));
        assert(columns_before(s, 2) == columns_before(s, 1) + width_of(T1::node()));
        assert(columns_before(s, 3) == columns_before(s, 2) + width_of(T2::node()));
        assert(columns_before(s, 4) == columns_before(s, 3) + width_of(T3::node()));
        let c0 = part;
        let g0 = cur;
        assert(rejoin(cur, base, c0).pos =~= cur.pos);
        assert(get_fields(s, base, cur, 0) == Ok::<(Seq<Val>, Cur), Fault>((seq![], cur)));
        let k0 = Seq::<Val>::empty();
        lemma_field::<T0>(cur, base, width_of(s), c0, 0);
        let (v0, n0) = T0::read(window(c0, 0, width_of(T0::node())))->Ok_0;
        let c1 = rejoin(c0, 0, n0);
        let g1 = rejoin(cur, base, c1);
        let k1 = k0.push(v0);
        assert(kid_base(s, base, 0) == base + (0));
        assert(get_fields(s, base, cur, 1) == Ok::<(Seq<Val>, Cur), Fault>((k1, g1)));
        lemma_field::<T1>(cur, base, width_of(s), c1, width_of(T0::node()));
        let (v1, n1) = T1::read(window(c1, width_of(T0::node()), width_of(T1::node())))->Ok_0;
        let c2 = rejoin(c1, width_of(T0::node()), n1);
        let g2 = rejoin(cur, base, c2);
        let k2 = k1.push(v1);
        assert(kid_base(s, base, 1) == base + (width_of(T0::node())));
        assert(get_fields(s, base, cur, 2) == Ok::<(Seq<Val>, Cur), Fault>((k2, g2)));
        lemma_field::<T2>(cur, base, width_of(s), c2, width_of(T0::node()) + width_of(T1::node()));
        let (v2, n2) = T2::read(window(c2, width_of(T0::node()) + width_of(T1::node()), width_of(T2::node())))->Ok_0;
        let c3 = rejoin(c2, width_of(T0::node()) + width_of(T1::node()), n2);
        let g3 = rejoin(cur, base, c3);
        let k3 = k2.push(v2);
        assert(kid_base(s, base, 2) == base + (width_of(T0::node()) + width_of(T1::node())));
        assert(get_fields(s, base, cur, 3) == Ok::<(Seq<Val>, Cur), Fault>((k3, g3)));
        lemma_field::<T3>(cur, base, width_of(s), c3, width_of(T0::node()) + width_of(T1::node()) + width_of(T2::node()));
        let (v3, n3) = T3::read(window(c3, width_of(T0::node()) + width_of(T1::node()) + width_of(T2::node()), width_of(T3::node())))->Ok_0;
        let c4 = rejoin(c3, width_of(T0::node()) + width_of(T1::node()) + width_of(T2::node()), n3);
        let g4 = rejoin(cur, base, c4);
        let k4 = k3.push(v3);
        assert(kid_base(s, base, 3) == base + (width_of(T0::node()) + width_of(T1::node()) + width_of(T2::node())));
        assert(get_fields(s, base, cur, 4) == Ok::<(Seq<Val>, Cur), Fault>((k4, g4)));
        assert(k4 =~= seq![v0, v1, v2, v3]);
    }

    fn deserialize_columns(cursors: &mut [ColumnCursor<'de>]) -> (result: Result<Self>) {
        assert(cursors@.len() == cursors.len());
        proof {
            let s = Self::node();
            assert(columns_before(s, 1) == columns_before(s, 0) + width_of(T0::node()));
            assert(columns_before(s, 2) == columns_before(s, 1) + width_of(T1::node()));
            assert(columns_before(s, 3) == columns_before(s, 2) + width_of(T2::node()));
            assert(columns_before(s, 4) == columns_before(s, 3) + width_of(T3::node()));
        }
        let ghost s0 = cursors@;
        let x0 = match read_part::<T0>(cursors, 0) {
            Ok(x) => x,
            Err(error) => return Err(error),
        };
        let x1 = match read_part::<T1>(cursors, T0::columns()) {
            Ok(x) => x,
            Err(error) => return Err(error),
        };
        let x2 = match read_part::<T2>(cursors, T0::columns() + T1::columns()) {
            Ok(x) => x,
            Err(error) => return Err(error),
        };
        let x3 = match read_part::<T3>(cursors, T0::columns() + T1::columns() + T2::columns()) {
            Ok(x) => x,
            Err(error) => return Err(error),
        };
        Ok((x0, x1, x2, x3))
    }
}

impl<'de, T0: RoundTrip<'de>, T1: RoundTrip<'de>, T2: RoundTrip<'de>, T3: RoundTrip<'de>> RoundTrip<'de> for (T0, T1, T2, T3) {
    proof fn lemma_read_back(&self, w: Walk, cur: Cur) {
        let s = Self::node();
        let image = self.image(w);
        let v = self.val(w);
        let c0 = cur;
        lemma_image_len(&self.0, w.part(0));
        assert(v.kids[0] == self.0.val(w.part(0)));
        assert(s.kids[0] == T0::node());
        assert(readable(self.0.val(w.part(0)), T0::node()));
        assert(image.subrange((0) as int, (width_of(T0::node())) as int) =~= self.0.image(w.part(0)));
        lemma_stands_part(cur, c0, image, 0, width_of(T0::node()));
        self.0.lemma_read_back(w.part(0), window(c0, 0, width_of(T0::node())));
        let n0 = passed(window(c0, 0, width_of(T0::node())), self.0.image(w.part(0)));
        let c1 = rejoin(c0, 0, n0);
        lemma_image_len(&self.1, w.part(1));
        assert(v.kids[1] == self.1.val(w.part(1)));
        assert(s.kids[1] == T1::node());
        assert(readable(self.1.val(w.part(1)), T1::node()));
        assert(image.subrange((width_of(T0::node())) as int, (width_of(T0::node()) + width_of(T1::node())) as int) =~= self.1.image(w.part(1)));
        lemma_stands_part(cur, c1, image, width_of(T0::node()), width_of(T1::node()));
        self.1.lemma_read_back(w.part(1), window(c1, width_of(T0::node()), width_of(T1::node())));
        let n1 = passed(window(c1, width_of(T0::node()), width_of(T1::node())), self.1.image(w.part(1)));
        let c2 = rejoin(c1, width_of(T0::node()), n1);
        lemma_image_len(&self.2, w.part(2));
        assert(v.kids[2] == self.2.val(w.part(2)));
        assert(s.kids[2] == T2::node());
        assert(readable(self.2.val(w.part(2)), T2::node()));
        assert(image.subrange((width_of(T0::node()) + width_of(T1::node())) as int, (width_of(T0::node()) + width_of(T1::node()) + width_of(T2::node())) as int) =~= self.2.image(w.part(2)));
        lemma_stands_part(cur, c2, image, width_of(T0::node()) + width_of(T1::node()), width_of(T2::node()));
        self.2.lemma_read_back(w.part(2), window(c2, width_of(T0::node()) + width_of(T1::node()), width_of(T2::node())));
        let n2 = passed(window(c2, width_of(T0::node()) + width_of(T1::node()), width_of(T2::node())), self.2.image(w.part(2)));
        let c3 = rejoin(c2, width_of(T0::node()) + width_of(T1::node()), n2);
        lemma_image_len(&self.3, w.part(3));
        assert(v.kids[3] == self.3.val(w.part(3)));
        assert(s.kids[3] == T3::node());
        assert(readable(self.3.val(w.part(3)), T3::node()));
        assert(image.subrange((width_of(T0::node()) + width_of(T1::node()) + width_of(T2::node())) as int, (width_of(T0::node()) + width_of(T1::node()) + width_of(T2::node()) + width_of(T3::node())) as int) =~= self.3.image(w.part(3)));
        lemma_stands_part(cur, c3, image, width_of(T0::node()) + width_of(T1::node()) + width_of(T2::node()), width_of(T3::node()));
        self.3.lemma_read_back(w.part(3), window(c3, width_of(T0::node()) + width_of(T1::node()) + width_of(T2::node()), width_of(T3::node())));
        let n3 = passed(window(c3, width_of(T0::node()) + width_of(T1::node()) + width_of(T2::node()), width_of(T3::node())), self.3.image(w.part(3)));
        let c4 = rejoin(c3, width_of(T0::node()) + width_of(T1::node()) + width_of(T2::node()), n3);
        assert(c4.pos =~= passed(cur, image).pos);
    }
}

impl<'de, T0: DeserializeColumns<'de>, T1: DeserializeColumns<'de>, T2: DeserializeColumns<'de>, T3: DeserializeColumns<'de>, T4: DeserializeColumns<'de>> DeserializeColumns<'de> for (T0, T1, T2, T3, T4) {
    open spec fn sound() -> bool {
        T0::sound() && T1::sound() && T2::sound() && T3::sound() && T4::sound()
    }

    open spec fn read(cur: Cur) -> std::result::Result<(Val, Cur), Fault> {
        let c0 = cur;
        match T0::read(window(c0, 0, width_of(T0::node()))) {
            Ok((v0, n0)) => {
                let c1 = rejoin(c0, 0, n0);
                match T1::read(window(c1, width_of(T0::node()), width_of(T1::node()))) {
                    Ok((v1, n1)) => {
                        let c2 = rejoin(c1, width_of(T0::node()), n1);
                        match T2::read(window(c2, width_of(T0::node()) + width_of(T1::node()), width_of(T2::node()))) {
                            Ok((v2, n2)) => {
                                let c3 = rejoin(c2, width_of(T0::node()) + width_of(T1::node()), n2);
                                match T3::read(window(c3, width_of(T0::node()) + width_of(T1::node()) + width_of(T2::node()), width_of(T3::node()))) {
                                    Ok((v3, n3)) => {
                                        let c4 = rejoin(c3, width_of(T0::node()) + width_of(T1::node()) + width_of(T2::node()), n3);
                                        match T4::read(window(c4, width_of(T0::node()) + width_of(T1::node()) + width_of(T2::node()) + width_of(T3::node()), width_of(T4::node()))) {
                                            Ok((v4, n4)) => {
                                                let c5 = rejoin(c4, width_of(T0::node()) + width_of(T1::node()) + width_of(T2::node()) + width_of(T3::node()), n4);
                                                Ok((Val { head: Head::Tuple, kids: seq![v0, v1, v2, v3, v4] }, c5))
                                            },
                                            Err(fault) => Err(fault),
                                        }
                                    },
                                    Err(fault) => Err(fault),
                                }
                            },
                            Err(fault) => Err(fault),
                        }
                    },
                    Err(fault) => Err(fault),
                }
            },
            Err(fault) => Err(fault),
        }
    }

    #[verifier::rlimit(40)]
    proof fn lemma_read(base: nat, cur: Cur) {
        let s = Self::node();
        let part = window(cur, base, width_of(s));
        assert(columns_before(s, 1) == columns_before(s, 0) + width_of(T0::node()));
        assert(columns_before(s, 2) == columns_before(s, 1) + width_of(T1::node()));
        assert(columns_before(s, 3) == columns_before(s, 2) + width_of(T2::node()));
        assert(columns_before(s, 4) == columns_before(s, 3) + width_of(T3::node()));
        assert(columns_before(s, 5) == columns_before(s, 4) + width_of(T4::node()));
        let c0 = part;
        let g0 = cur;
        assert(rejoin(cur, base, c0).pos =~= cur.pos);
        assert(get_fields(s, base, cur, 0) == Ok::<(Seq<Val>, Cur), Fault>((seq![], cur)));
        let k0 = Seq::<Val>::empty();
        lemma_field::<T0>(cur, base, width_of(s), c0, 0);
        let (v0, n0) = T0::read(window(c0, 0, width_of(T0::node())))->Ok_0;
        let c1 = rejoin(c0, 0, n0);
        let g1 = rejoin(cur, base, c1);
        let k1 = k0.push(v0);
        assert(kid_base(s, base, 0) == base + (0));
        assert(get_fields(s, base, cur, 1) == Ok::<(Seq<Val>, Cur), Fault>((k1, g1)));
        lemma_field::<T1>(cur, base, width_of(s), c1, width_of(T0::node()));
        let (v1, n1) = T1::read(window(c1, width_of(T0::node()), width_of(T1::node())))->Ok_0;
        let c2 = rejoin(c1, width_of(T0::node()), n1);
        let g2 = rejoin(cur, base, c2);
        let k2 = k1.push(v1);
        assert(kid_base(s, base, 1) == base + (width_of(T0::node())));
        assert(get_fields(s, base, cur, 2) == Ok::<(Seq<Val>, Cur), Fault>((k2, g2)));
        lemma_field::<T2>(cur, base, width_of(s), c2, width_of(T0::node()) + width_of(T1::node()));
        let (v2, n2) = T2::read(window(c2, width_of(T0::node()) + width_of(T1::node()), width_of(T2::node())))->Ok_0;
        let c3 = rejoin(c2, width_of(T0::node()) + width_of(T1::node()), n2);
        let g3 = rejoin(cur, base, c3);
        let k3 = k2.push(v2);
        assert(kid_base(s, base, 2) == base + (width_of(T0::node()) + width_of(T1::node())));
        assert(get_fields(s, base, cur, 3) == Ok::<(Seq<Val>, Cur), Fault>((k3, g3)));
        lemma_field::<T3>(cur, base, width_of(s), c3, width_of(T0::node()) + width_of(T1::node()) + width_of(T2::node()));
        let (v3, n3) = T3::read(window(c3, width_of(T0::node()) + width_of(T1::node()) + width_of(T2::node()), width_of(T3::node())))->Ok_0;
        let c4 = rejoin(c3, width_of(T0::node()) + width_of(T1::node()) + width_of(T2::node()), n3);
        let g4 = rejoin(cur, base, c4);
        let k4 = k3.push(v3);
        assert(kid_base(s, base, 3) == base + (width_of(T0::node()) + width_of(T1::node()) + width_of(T2::node())));
        assert(get_fields(s, base, cur, 4) == Ok::<(Seq<Val>, Cur), Fault>((k4, g4)));
        lemma_field::<T4>(cur, base, width_of(s), c4, width_of(T0::node()) + width_of(T1::node()) + width_of(T2::node()) + width_of(T3::node()));
        let (v4, n4) = T4::read(window(c4, width_of(T0::node()) + width_of(T1::node()) + width_of(T2::node()) + width_of(T3::node()), width_of(T4::node())))->Ok_0;
        let c5 = rejoin(c4, width_of(T0::node()) + width_of(T1::node()) + width_of(T2::node()) + width_of(T3::node()), n4);
        let g5 = rejoin(cur, base, c5);
        let k5 = k4.push(v4);
        assert(kid_base(s, base, 4) == base + (width_of(T0::node()) + width_of(T1::node()) + width_of(T2::node()) + width_of(T3::node())));
        assert(get_fields(s, base, cur, 5) == Ok::<(Seq<Val>, Cur), Fault>((k5, g5)));
        assert(k5 =~= seq![v0, v1, v2, v3, v4]);
    }

    fn deserialize_columns(cursors: &mut [ColumnCursor<'de>]) -> (result: Result<Self>) {
        assert(cursors@.len() == cursors.len());
        proof {
            let s = Self::node();
            assert(columns_before(s, 1) == columns_before(s, 0) + width_of(T0::node()));
            assert(columns_before(s, 2) == columns_before(s, 1) + width_of(T1::node()));
            assert(columns_before(s, 3) == columns_before(s, 2) + width_of(T2::node()));
            assert(columns_before(s, 4) == columns_before(s, 3) + width_of(T3::node()));
            assert(columns_before(s, 5) == columns_before(s, 4) + width_of(T4::node()));
        }
        let ghost s0 = cursors@;
        let x0 = match read_part::<T0>(cursors, 0) {
            Ok(x) => x,
            Err(error) => return Err(error),
        };
        let x1 = match read_part::<T1>(cursors, T0::columns()) {
            Ok(x) => x,
            Err(error) => return Err(error),
        };
        let x2 = match read_part::<T2>(cursors, T0::columns() + T1::columns()) {
            Ok(x) => x,
            Err(error) => return Err(error),
        };
        let x3 = match read_part::<T3>(cursors, T0::columns() + T1::columns() + T2::columns()) {
            Ok(x) => x,
            Err(error) => return Err(error),
        };
        let x4 = match read_part::<T4>(cursors, T0::columns() + T1::columns() + T2::columns() + T3::columns()) {
            Ok(x) => x,
            Err(error) => return Err(error),
        };
        Ok((x0, x1, x2, x3, x4))
    }
}

impl<'de, T0: RoundTrip<'de>, T1: RoundTrip<'de>, T2: RoundTrip<'de>, T3: RoundTrip<'de>, T4: RoundTrip<'de>> RoundTrip<'de> for (T0, T1, T2, T3, T4) {
    proof fn lemma_read_back(&self, w: Walk, cur: Cur) {
        let s = Self::node();
        let image = self.image(w);
        let v = self.val(w);
        let c0 = cur;
        lemma_image_len(&self.0, w.part(0).part(0));
        assert(v.kids[0] == self.0.val(w.part(0).part(0)));
        assert(s.kids[0] == T0::node());
        assert(readable(self.0.val(w.part(0).part(0)), T0::node()));
        assert(image.subrange((0) as int, (width_of(T0::node())) as int) =~= self.0.image(w.part(0).part(0)));
        lemma_stands_part(cur, c0, image, 0, width_of(T0::node()));
        self.0.lemma_read_back(w.part(0).part(0), window(c0, 0, width_of(T0::node())));
        let n0 = passed(window(c0, 0, width_of(T0::node())), self.0.image(w.part(0).part(0)));
        let c1 = rejoin(c0, 0, n0);
        lemma_image_len(&self.1, w.part(0).part(1));
        assert(v.kids[1] == self.1.val(w.part(0).part(1)));
        assert(s.kids[1] == T1::node());
        assert(readable(self.1.val(w.part(0).part(1)), T1::node()));
        assert(image.subrange((width_of(T0::node())) as int, (width_of(T0::node()) + width_of(T1::node())) as int) =~= self.1.image(w.part(0).part(1)));
        lemma_stands_part(cur, c1, image, width_of(T0::node()), width_of(T1::node()));
        self.1.lemma_read_back(w.part(0).part(1), window(c1, width_of(T0::node()), width_of(T1::node())));
        let n1 = passed(window(c1, width_of(T0::node()), width_of(T1::node())), self.1.image(w.part(0).part(1)));
        let c2 = rejoin(c1, width_of(T0::node()), n1);
        lemma_image_len(&self.2, w.part(0).part(2));
        assert(v.kids[2] == self.2.val(w.part(0).part(2)));
        assert(s.kids[2] == T2::node());
        assert(readable(self.2.val(w.part(0).part(2)), T2::node()));
        assert(image.subrange((width_of(T0::node()) + width_of(T1::node())) as int, (width_of(T0::node()) + width_of(T1::node()) + width_of(T2::node())) as int) =~= self.2.image(w.part(0).part(2)));
        lemma_stands_part(cur, c2, image, width_of(T0::node()) + width_of(T1::node()), width_of(T2::node()));
        self.2.lemma_read_back(w.part(0).part(2), window(c2, width_of(T0::node()) + width_of(T1::node()), width_of(T2::node())));
        let n2 = passed(window(c2, width_of(T0::node()) + width_of(T1::node()), width_of(T2::node())), self.2.image(w.part(0).part(2)));
        let c3 = rejoin(c2, width_of(T0::node()) + width_of(T1::node()), n2);
        lemma_image_len(&self.3, w.part(0).part(3));
        assert(v.kids[3] == self.3.val(w.part(0).part(3)));
        assert(s.kids[3] == T3::node());
        assert(readable(self.3.val(w.part(0).part(3)), T3::node()));
        assert(image.subrange((width_of(T0::node()) + width_of(T1::node()) + width_of(T2::node())) as int, (width_of(T0::node()) + width_of(T1::node()) + width_of(T2::node()) + width_of(T3::node())) as int) =~= self.3.image(w.part(0).part(3)));
        lemma_stands_part(cur, c3, image, width_of(T0::node()) + width_of(T1::node()) + width_of(T2::node()), width_of(T3::node()));
        self.3.lemma_read_back(w.part(0).part(3), window(c3, width_of(T0::node()) + width_of(T1::node()) + width_of(T2::node()), width_of(T3::node())));
        let n3 = passed(window(c3, width_of(T0::node()) + width_of(T1::node()) + width_of(T2::node()), width_of(T3::node())), self.3.image(w.part(0).part(3)));
        let c4 = rejoin(c3, width_of(T0::node()) + width_of(T1::node()) + width_of(T2::node()), n3);
        lemma_image_len(&self.4, w.part(1));
        assert(v.kids[4] == self.4.val(w.part(1)));
        assert(s.kids[4] == T4::node());
        assert(readable(self.4.val(w.part(1)), T4::node()));
        assert(image.subrange((width_of(T0::node()) + width_of(T1::node()) + width_of(T2::node()) + width_of(T3::node())) as int, (width_of(T0::node()) + width_of(T1::node()) + width_of(T2::node()) + width_of(T3::node()) + width_of(T4::node())) as int) =~= self.4.image(w.part(1)));
        lemma_stands_part(cur, c4, image, width_of(T0::node()) + width_of(T1::node()) + width_of(T2::node()) + width_of(T3::node()), width_of(T4::node()));
        self.4.lemma_read_back(w.part(1), window(c4, width_of(T0::node()) + width_of(T1::node()) + width_of(T2::node()) + width_of(T3::node()), width_of(T4::node())));
        let n4 = passed(window(c4, width_of(T0::node()) + width_of(T1::node()) + width_of(T2::node()) + width_of(T3::node()), width_of(T4::node())), self.4.image(w.part(1)));
        let c5 = rejoin(c4, width_of(T0::node()) + width_of(T1::node()) + width_of(T2::node()) + width_of(T3::node()), n4);
        assert(c5.pos =~= passed(cur, image).pos);
    }
}

impl<'de, T0: DeserializeColumns<'de>, T1: DeserializeColumns<'de>, T2: DeserializeColumns<'de>, T3: DeserializeColumns<'de>, T4: DeserializeColumns<'de>, T5: DeserializeColumns<'de>> DeserializeColumns<'de> for (T0, T1, T2, T3, T4, T5) {
    open spec fn sound() -> bool {
        T0::sound() && T1::sound() && T2::sound() && T3::sound() && T4::sound() && T5::sound()
    }

    open spec fn read(cur: Cur) -> std::result::Result<(Val, Cur), Fault> {
        let c0 = cur;
        match T0::read(window(c0, 0, width_of(T0::node()))) {
            Ok((v0, n0)) => {
                let c1 = rejoin(c0, 0, n0);
                match T1::read(window(c1, width_of(T0::node()), width_of(T1::node()))) {
                    Ok((v1, n1)) => {
                        let c2 = rejoin(c1, width_of(T0::node()), n1);
                        match T2::read(window(c2, width_of(T0::node()) + width_of(T1::node()), width_of(T2::node()))) {
                            Ok((v2, n2)) => {
                                let c3 = rejoin(c2, width_of(T0::node()) + width_of(T1::node()), n2);
                                match T3::read(window(c3, width_of(T0::node()) + width_of(T1::node()) + width_of(T2::node()), width_of(T3::node()))) {
                                    Ok((v3, n3)) => {
                                        let c4 = rejoin(c3, width_of(T0::node()) + width_of(T1::node()) + width_of(T2::node()), n3);
                                        match T4::read(window(c4, width_of(T0::node()) + width_of(T1::node()) + width_of(T2::node()) + width_of(T3::node()), width_of(T4::node()))) {
                                            Ok((v4, n4)) => {
                                                let c5 = rejoin(c4, width_of(T0::node()) + width_of(T1::node()) + width_of(T2::node()) + width_of(T3::node()), n4);
                                                match T5::read(window(c5, width_of(T0::node()) + width_of(T1::node()) + width_of(T2::node()) + width_of(T3::node()) + width_of(T4::node()), width_of(T5::node()))) {
                                                    Ok((v5, n5)) => {
                                                        let c6 = rejoin(c5, width_of(T0::node()) + width_of(T1::node()) + width_of(T2::node()) + width_of(T3::node()) + width_of(T4::node()), n5);
                                                        Ok((Val { head: Head::Tuple, kids: seq![v0, v1, v2, v3, v4, v5] }, c6))
                                                    },
                                                    Err(fault) => Err(fault),
                                                }
                                            },
                                            Err(fault) => Err(fault),
                                        }
                                    },
                                    Err(fault) => Err(fault),
                                }
                            },
                            Err(fault) => Err(fault),
                        }
                    },
                    Err(fault) => Err(fault),
                }
            },
            Err(fault) => Err(fault),
        }
    }

    #[verifier::rlimit(40)]
    proof fn lemma_read(base: nat, cur: Cur) {
        let s = Self::node();
        let part = window(cur, base, width_of(s));
        assert(columns_before(s, 1) == columns_before(s, 0) + width_of(T0::node()));
        assert(columns_before(s, 2) == columns_before(s, 1) + width_of(T1::node()));
        assert(columns_before(s, 3) == columns_before(s, 2) + width_of(T2::node()));
        assert(columns_before(s, 4) == columns_before(s, 3) + width_of(T3::node()));
        assert(columns_before(s, 5) == columns_before(s, 4) + width_of(T4::node()));
        assert(columns_before(s, 6) == columns_before(s, 5) + width_of(T5::node()));
        let c0 = part;
        let g0 = cur;
        assert(rejoin(cur, base, c0).pos =~= cur.pos);
        assert(get_fields(s, base, cur, 0) == Ok::<(Seq<Val>, Cur), Fault>((seq![], cur)));
        let k0 = Seq::<Val>::empty();
        lemma_field::<T0>(cur, base, width_of(s), c0, 0);
        let (v0, n0) = T0::read(window(c0, 0, width_of(T0::node())))->Ok_0;
        let c1 = rejoin(c0, 0, n0);
        let g1 = rejoin(cur, base, c1);
        let k1 = k0.push(v0);
        assert(kid_base(s, base, 0) == base + (0));
        assert(get_fields(s, base, cur, 1) == Ok::<(Seq<Val>, Cur), Fault>((k1, g1)));
        lemma_field::<T1>(cur, base, width_of(s), c1, width_of(T0::node()));
        let (v1, n1) = T1::read(window(c1, width_of(T0::node()), width_of(T1::node())))->Ok_0;
        let c2 = rejoin(c1, width_of(T0::node()), n1);
        let g2 = rejoin(cur, base, c2);
        let k2 = k1.push(v1);
        assert(kid_base(s, base, 1) == base + (width_of(T0::node())));
        assert(get_fields(s, base, cur, 2) == Ok::<(Seq<Val>, Cur), Fault>((k2, g2)));
        lemma_field::<T2>(cur, base, width_of(s), c2, width_of(T0::node()) + width_of(T1::node()));
        let (v2, n2) = T2::read(window(c2, width_of(T0::node()) + width_of(T1::node()), width_of(T2::node())))->Ok_0;
        let c3 = rejoin(c2, width_of(T0::node()) + width_of(T1::node()), n2);
        let g3 = rejoin(cur, base, c3);
        let k3 = k2.push(v2);
        assert(kid_base(s, base, 2) == base + (width_of(T0::node()) + width_of(T1::node())));
        assert(get_fields(s, base, cur, 3) == Ok::<(Seq<Val>, Cur), Fault>((k3, g3)));
        lemma_field::<T3>(cur, base, width_of(s), c3, width_of(T0::node()) + width_of(T1::node()) + width_of(T2::node()));
        let (v3, n3) = T3::read(window(c3, width_of(T0::node()) + width_of(T1::node()) + width_of(T2::node()), width_of(T3::node())))->Ok_0;
        let c4 = rejoin(c3, width_of(T0::node()) + width_of(T1::node()) + width_of(T2::node()), n3);
        let g4 = rejoin(cur, base, c4);
        let k4 = k3.push(v3);
        assert(kid_base(s, base, 3) == base + (width_of(T0::node()) + width_of(T1::node()) + width_of(T2::node())));
        assert(get_fields(s, base, cur, 4) == Ok::<(Seq<Val>, Cur), Fault>((k4, g4)));
        lemma_field::<T4>(cur, base, width_of(s), c4, width_of(T0::node()) + width_of(T1::node()) + width_of(T2::node()) + width_of(T3::node()));
        let (v4, n4) = T4::read(window(c4, width_of(T0::node()) + width_of(T1::node()) + width_of(T2::node()) + width_of(T3::node()), width_of(T4::node())))->Ok_0;
        let c5 = rejoin(c4, width_of(T0::node()) + width_of(T1::node()) + width_of(T2::node()) + width_of(T3::node()), n4);
        let g5 = rejoin(cur, base, c5);
        let k5 = k4.push(v4);
        assert(kid_base(s, base, 4) == base + (width_of(T0::node()) + width_of(T1::node()) + width_of(T2::node()) + width_of(T3::node())));
        assert(get_fields(s, base, cur, 5) == Ok::<(Seq<Val>, Cur), Fault>((k5, g5)));
        lemma_field::<T5>(cur, base, width_of(s), c5, width_of(T0::node()) + width_of(T1::node()) + width_of(T2::node()) + width_of(T3::node()) + width_of(T4::node()));
        let (v5, n5) = T5::read(window(c5, width_of(T0::node()) + width_of(T1::node()) + width_of(T2::node()) + width_of(T3::node()) + width_of(T4::node()), width_of(T5::node())))->Ok_0;
        let c6 = rejoin(c5, width_of(T0::node()) + width_of(T1::node()) + width_of(T2::node()) + width_of(T3::node()) + width_of(T4::node()), n5);
        let g6 = rejoin(cur, base, c6);
        let k6 = k5.push(v5);
        assert(kid_base(s, base, 5) == base + (width_of(T0::node()) + width_of(T1::node()) + width_of(T2::node()) + width_of(T3::node()) + width_of(T4::node())));
        assert(get_fields(s, base, cur, 6) == Ok::<(Seq<Val>, Cur), Fault>((k6, g6)));
        assert(k6 =~= seq![v0, v1, v2, v3, v4, v5]);
    }

    fn deserialize_columns(cursors: &mut [ColumnCursor<'de>]) -> (result: Result<Self>) {
        assert(cursors@.len() == cursors.len());
        proof {
            let s = Self::node();
            assert(columns_before(s, 1) == columns_before(s, 0) + width_of(T0::node()));
            assert(columns_before(s, 2) == columns_before(s, 1) + width_of(T1::node()));
            assert(columns_before(s, 3) == columns_before(s, 2) + width_of(T2::node()));
            assert(columns_before(s, 4) == columns_before(s, 3) + width_of(T3::node()));
            assert(columns_before(s, 5) == columns_before(s, 4) + width_of(T4::node()));
            assert(columns_before(s, 6) == columns_before(s, 5) + width_of(T5::node()));
        }
        let ghost s0 = cursors@;
        let x0 = match read_part::<T0>(cursors, 0) {
            Ok(x) => x,
            Err(error) => return Err(error),
        };
        let x1 = match read_part::<T1>(cursors, T0::columns()) {
            Ok(x) => x,
            Err(error) => return Err(error),
        };
        let x2 = match read_part::<T2>(cursors, T0::columns() + T1::columns()) {
            Ok(x) => x,
            Err(error) => return Err(error),
        };
        let x3 = match read_part::<T3>(cursors, T0::columns() + T1::columns() + T2::columns()) {
            Ok(x) => x,
            Err(error) => return Err(error),
        };
        let x4 = match read_part::<T4>(cursors, T0::columns() + T1::columns() + T2::columns() + T3::columns()) {
            Ok(x) => x,
            Err(error) => return Err(error),
        };
        let x5 = match read_part::<T5>(cursors, T0::columns() + T1::columns() + T2::columns() + T3::columns() + T4::columns()) {
            Ok(x) => x,
            Err(error) => return Err(error),
        };
        Ok((x0, x1, x2, x3, x4, x5))
    }
}

impl<'de, T0: RoundTrip<'de>, T1: RoundTrip<'de>, T2: RoundTrip<'de>, T3: RoundTrip<'de>, T4: RoundTrip<'de>, T5: RoundTrip<'de>> RoundTrip<'de> for (T0, T1, T2, T3, T4, T5) {
    proof fn lemma_read_back(&self, w: Walk, cur: Cur) {
        let s = Self::node();
        let image = self.image(w);
        let v = self.val(w);
        let c0 = cur;
        lemma_image_len(&self.0, w.part(0).part(0));
        assert(v.kids[0] == self.0.val(w.part(0).part(0)));
        assert(s.kids[0] == T0::node());
        assert(readable(self.0.val(w.part(0).part(0)), T0::node()));
        assert(image.subrange((0) as int, (width_of(T0::node())) as int) =~= self.0.image(w.part(0).part(0)));
        lemma_stands_part(cur, c0, image, 0, width_of(T0::node()));
        self.0.lemma_read_back(w.part(0).part(0), window(c0, 0, width_of(T0::node())));
        let n0 = passed(window(c0, 0, width_of(T0::node())), self.0.image(w.part(0).part(0)));
        let c1 = rejoin(c0, 0, n0);
        lemma_image_len(&self.1, w.part(0).part(1));
        assert(v.kids[1] == self.1.val(w.part(0).part(1)));
        assert(s.kids[1] == T1::node());
        assert(readable(self.1.val(w.part(0).part(1)), T1::node()));
        assert(image.subrange((width_of(T0::node())) as int, (width_of(T0::node()) + width_of(T1::node())) as int) =~= self.1.image(w.part(0).part(1)));
        lemma_stands_part(cur, c1, image, width_of(T0::node()), width_of(T1::node()));
        self.1.lemma_read_back(w.part(0).part(1), window(c1, width_of(T0::node()), width_of(T1::node())));
        let n1 = passed(window(c1, width_of(T0::node()), width_of(T1::node())), self.1.image(w.part(0).part(1)));
        let c2 = rejoin(c1, width_of(T0::node()), n1);
        lemma_image_len(&self.2, w.part(0).part(2));
        assert(v.kids[2] == self.2.val(w.part(0).part(2)));
        assert(s.kids[2] == T2::node());
        assert(readable(self.2.val(w.part(0).part(2)), T2::node()));
        assert(image.subrange((width_of(T0::node()) + width_of(T1::node())) as int, (width_of(T0::node()) + width_of(T1::node()) + width_of(T2::node())) as int) =~= self.2.image(w.part(0).part(2)));
        lemma_stands_part(cur, c2, image, width_of(T0::node()) + width_of(T1::node()), width_of(T2::node()));
        self.2.lemma_read_back(w.part(0).part(2), window(c2, width_of(T0::node()) + width_of(T1::node()), width_of(T2::node())));
        let n2 = passed(window(c2, width_of(T0::node()) + width_of(T1::node()), width_of(T2::node())), self.2.image(w.part(0).part(2)));
        let c3 = rejoin(c2, width_of(T0::node()) + width_of(T1::node()), n2);
        lemma_image_len(&self.3, w.part(0).part(3));
        assert(v.kids[3] == self.3.val(w.part(0).part(3)));
        assert(s.kids[3] == T3::node());
        assert(readable(self.3.val(w.part(0).part(3)), T3::node()));
        assert(image.subrange((width_of(T0::node()) + width_of(T1::node()) + width_of(T2::node())) as int, (width_of(T0::node()) + width_of(T1::node()) + width_of(T2::node()) + width_of(T3::node())) as int) =~= self.3.image(w.part(0).part(3)));
        lemma_stands_part(cur, c3, image, width_of(T0::node()) + width_of(T1::node()) + width_of(T2::node()), width_of(T3::node()));
        self.3.lemma_read_back(w.part(0).part(3), window(c3, width_of(T0::node()) + width_of(T1::node()) + width_of(T2::node()), width_of(T3::node())));
        let n3 = passed(window(c3, width_of(T0::node()) + width_of(T1::node()) + width_of(T2::node()), width_of(T3::node())), self.3.image(w.part(0).part(3)));
        let c4 = rejoin(c3, width_of(T0::node()) + width_of(T1::node()) + width_of(T2::node()), n3);
        lemma_image_len(&self.4, w.part(1).part(0));
        assert(v.kids[4] == self.4.val(w.part(1).part(0)));
        assert(s.kids[4] == T4::node());
        assert(readable(self.4.val(w.part(1).part(0)), T4::node()));
        assert(image.subrange((width_of(T0::node()) + width_of(T1::node()) + width_of(T2::node()) + width_of(T3::node())) as int, (width_of(T0::node()) + width_of(T1::node()) + width_of(T2::node()) + width_of(T3::node()) + width_of(T4::node())) as int) =~= self.4.image(w.part(1).part(0)));
        lemma_stands_part(cur, c4, image, width_of(T0::node()) + width_of(T1::node()) + width_of(T2::node()) + width_of(T3::node()), width_of(T4::node()));
        self.4.lemma_read_back(w.part(1).part(0), window(c4, width_of(T0::node()) + width_of(T1::node()) + width_of(T2::node()) + width_of(T3::node()), width_of(T4::node())));
        let n4 = passed(window(c4, width_of(T0::node()) + width_of(T1::node()) + width_of(T2::node()) + width_of(T3::node()), width_of(T4::node())), self.4.image(w.part(1).part(0)));
        let c5 = rejoin(c4, width_of(T0::node()) + width_of(T1::node()) + width_of(T2::node()) + width_of(T3::node()), n4);
        lemma_image_len(&self.5, w.part(1).part(1));
        assert(v.kids[5] == self.5.val(w.part(1).part(1)));
        assert(s.kids[5] == T5::node());
        assert(readable(self.5.val(w.part(1).part(1)), T5::node()));
        assert(image.subrange((width_of(T0::node()) + width_of(T1::node()) + width_of(T2::node()) + width_of(T3::node()) + width_of(T4::node())) as int, (width_of(T0::node()) + width_of(T1::node()) + width_of(T2::node()) + width_of(T3::node()) + width_of(T4::node()) + width_of(T5::node())) as int) =~= self.5.image(w.part(1).part(1)));
        lemma_stands_part(cur, c5, image, width_of(T0::node()) + width_of(T1::node()) + width_of(T2::node()) + width_of(T3::node()) + width_of(T4::node()), width_of(T5::node()));
        self.5.lemma_read_back(w.part(1).part(1), window(c5, width_of(T0::node()) + width_of(T1::node()) + width_of(T2::node()) + width_of(T3::node()) + width_of(T4::node()), width_of(T5::node())));
        let n5 = passed(window(c5, width_of(T0::node()) + width_of(T1::node()) + width_of(T2::node()) + width_of(T3::node()) + width_of(T4::node()), width_of(T5::node())), self.5.image(w.part(1).part(1)));
        let c6 = rejoin(c5, width_of(T0::node()) + width_of(T1::node()) + width_of(T2::node()) + width_of(T3::node()) + width_of(T4::node()), n5);
        assert(c6.pos =~= passed(cur, image).pos);
    }
}

impl<'de, T: DeserializeColumns<'de>, E: DeserializeColumns<'de>> DeserializeColumns<'de>
    for std::result::Result<T, E> {
    open spec fn sound() -> bool {
        T::sound() && E::sound()
    }

    open spec fn read(cur: Cur) -> std::result::Result<(Val, Cur), Fault> {
        let t = width_of(T::node());
        match cur.varint(0) {
            Ok((tag, next)) => if tag == 0 {
                match T::read(window(next, 1, t)) {
                    Ok((v, end)) => Ok(
                        (Val { head: result_head(true), kids: seq![v] }, rejoin(next, 1, end)),
                    ),
                    Err(fault) => Err(fault),
                }
            } else if tag == 1 {
                match E::read(window(next, 1 + t, width_of(E::node()))) {
                    Ok((v, end)) => Ok(
                        (Val { head: result_head(false), kids: seq![v] }, rejoin(next, 1 + t, end)),
                    ),
                    Err(fault) => Err(fault),
                }
            } else {
                Err(Fault::InvalidTag("enum variant"@, tag as u64))
            },
            Err(fault) => Err(fault),
        }
    }

    proof fn lemma_read(base: nat, cur: Cur) {
        let s = Self::node();
        lemma_two_kids_columns(s);
        lemma_one_kid_columns(s.kids[0]);
        lemma_one_kid_columns(s.kids[1]);
        let t = width_of(T::node());
        let part = window(cur, base, width_of(s));
        assert(part.rest(0) =~= cur.rest(base));
        let (tag, used) = varint::decoded(part.rest(0))->Ok_0;
        let next = part.advance(0, used);
        let other = cur.advance(base, used);
        assert(window(other, base, width_of(s)) == next) by {
            assert(window(other, base, width_of(s)).bufs =~= next.bufs);
            assert(window(other, base, width_of(s)).pos =~= next.pos);
            assert(window(other, base, width_of(s)).regs =~= next.regs);
        }
        assert(rejoin(other, base, next) == other) by {
            assert(rejoin(other, base, next).pos =~= other.pos);
        }
        let i = tag;
        assert(i < 2);
        assert(variant_tag(2, base, cur) == Ok::<(nat, Cur), Fault>((i, other)));
        let k = s.kids[i as int];
        assert(kid_base(k, kid_base(s, base, i), 0) == kid_base(s, base, i));
        assert(get_fields(k, kid_base(s, base, i), other, 0) == Ok::<(Seq<Val>, Cur), Fault>(
            (seq![], other),
        ));
        if tag == 0 {
            lemma_field::<T>(other, base, width_of(s), next, 1);
            let (v, end) = T::read(window(next, 1, t))->Ok_0;
            assert(Seq::<Val>::empty().push(v) =~= seq![v]);
            assert(rejoin(other, base, rejoin(next, 1, end)).pos =~= rejoin(
                cur,
                base,
                rejoin(next, 1, end),
            ).pos);
            assert(get_fields(k, kid_base(s, base, 0), other, 1) == Ok::<(Seq<Val>, Cur), Fault>(
                (seq![v], rejoin(cur, base, rejoin(next, 1, end))),
            ));
            assert(crate::get::variant_head(s, 0) == result_head(true));
        } else {
            lemma_field::<E>(other, base, width_of(s), next, 1 + t);
            let (v, end) = E::read(window(next, 1 + t, width_of(E::node())))->Ok_0;
            assert(Seq::<Val>::empty().push(v) =~= seq![v]);
            assert(rejoin(other, base, rejoin(next, 1 + t, end)).pos =~= rejoin(
                cur,
                base,
                rejoin(next, 1 + t, end),
            ).pos);
            assert(get_fields(k, kid_base(s, base, 1), other, 1) == Ok::<(Seq<Val>, Cur), Fault>(
                (seq![v], rejoin(cur, base, rejoin(next, 1 + t, end))),
            ));
            assert(crate::get::variant_head(s, 1) == result_head(false));
        }
    }

    fn deserialize_columns(cursors: &mut [ColumnCursor<'de>]) -> (result: Result<Self>) {
        proof {
            let s = Self::node();
            lemma_two_kids_columns(s);
            lemma_one_kid_columns(s.kids[0]);
            lemma_one_kid_columns(s.kids[1]);
        }
        assert(cursors@.len() == cursors.len());
        let ghost columns = cursors@.len();
        match crate::de::read_varint(cursors, 0, Ghost(nothing(columns))) {
            Ok(tag) => {
                if tag == 0 {
                    match read_part::<T>(cursors, 1) {
                        Ok(x) => Ok(Ok(x)),
                        Err(error) => Err(error),
                    }
                } else if tag == 1 {
                    match read_part::<E>(cursors, 1 + T::columns()) {
                        Ok(x) => Ok(Err(x)),
                        Err(error) => Err(error),
                    }
                } else {
                    Err(invalid_variant(tag))
                }
            },
            Err(error) => Err(error),
        }
    }
}

impl<'de, T: RoundTrip<'de>, E: RoundTrip<'de>> RoundTrip<'de> for std::result::Result<T, E> {
    proof fn lemma_read_back(&self, w: Walk, cur: Cur) {
        let s = Self::node();
        lemma_two_kids_columns(s);
        lemma_one_kid_columns(s.kids[0]);
        lemma_one_kid_columns(s.kids[1]);
        let t = width_of(T::node());
        let e = width_of(E::node());
        let image = self.image(w);
        let tag: u64 = match *self {
            Ok(_) => 0,
            Err(_) => 1,
        };
        let code = varint::encoded(tag as nat);
        assert(image[0] == code);
        assert(prefix(image[0], cur.rest(0)));
        let tail = cur.rest(0).subrange(code.len() as int, cur.rest(0).len() as int);
        assert(cur.rest(0) =~= code + tail);
        varint::lemma_decode_encode(tag, tail);
        let next = cur.advance(0, code.len());
        match *self {
            Ok(x) => {
                lemma_image_len(&x, w);
                assert(image.subrange(1, (1 + t) as int) =~= x.image(w));
                lemma_stands_part(cur, next, image, 1, t);
                assert(readable(x.val(w), T::node())) by {
                    assert(self.val(w).kids[0] == x.val(w));
                    assert(crate::put::find_variant(s.labels, 0, "Ok"@) == Some(0nat));
                }
                x.lemma_read_back(w, window(next, 1, t));
                assert(rejoin(next, 1, passed(window(next, 1, t), x.image(w))).pos =~= passed(
                    cur,
                    image,
                ).pos);
            },
            Err(y) => {
                lemma_image_len(&y, w);
                assert(image.subrange((1 + t) as int, (1 + t + e) as int) =~= y.image(w));
                lemma_stands_part(cur, next, image, 1 + t, e);
                assert(readable(y.val(w), E::node())) by {
                    assert(self.val(w).kids[0] == y.val(w));
                    assert(crate::put::find_variant(s.labels, 1, "Err"@) == Some(1nat));
                }
                y.lemma_read_back(w, window(next, 1 + t, e));
                assert(rejoin(next, 1 + t, passed(window(next, 1 + t, e), y.image(w))).pos
                    =~= passed(cur, image).pos);
            },
        }
    }
}

} // verus!
