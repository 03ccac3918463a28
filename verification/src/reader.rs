//! Reading for a reader whose type need not be the writer's.
//!
//! The reader asks for one shape at a time, and the writer's schema says what
//! is there. Here is decided what the reader is given: see [`Spot::plan`] for
//! a value, [`VariantSpot::plan`] for the payload of a variant, and
//! [`dispatch`] for a reader that takes whatever comes.
//!
//! A writer whose fields are *positional* (a tuple, tuple struct, or tuple
//! variant) can be read into named fields, but only when the reader says which
//! position each field replaces. Matching by declaration order instead would
//! not compose with reordering named fields, which is a no-op. The reverse, a
//! named writer read into a tuple, is refused, since a tuple has nowhere to
//! put the declaration.

use vstd::prelude::*;
use vstd::utf8::{decode_utf8, valid_utf8};

use crate::columnar::ColumnCursor;
use crate::de::{
    cur_of, read_bytes, read_count, read_tag, read_varint, readable_state, still_readable, take,
};
use crate::error::{Error, Fault, Result};
use crate::get::{
    count, get, get_bytes, get_entries, get_fields, get_items, repeat_unavailable, variant_head,
    variant_tag, Cur,
};
use crate::node::{lemma_variant_kind_shapes, lemma_variants_laid, ColId, Node};
use crate::schema::Primitive;
use crate::shape::{
    kid_base, lemma_kid_columns, lemma_one_kid_columns, lemma_two_kids_columns, primitive_width,
    width_of, Kind, Shape,
};
use crate::shared::{self, ReadSlot, ReadState};
use crate::skip::{lemma_reserved, places};
use crate::spot::{FieldList, Spot, VariantSpot};
use crate::text::{self, decimal};
use crate::value::{atom, from_little_endian, scalar_of, Head, Scalar, Val};

verus! {

/// A schema position: the schema there, and where its columns start.
pub struct Place {
    pub shape: Shape,
    pub base: nat,
}

/// What is next in the columns, with the parts of it still to be read.
pub enum Next {
    Scalar(Scalar),
    Str(Seq<char>),
    Bytes(Seq<u8>),
    /// Nothing stored.
    Unit(Place),
    Absent,
    /// A value that is there, at the place of the option.
    Present(Place),
    /// So many elements of a sequence.
    Items(Place, nat),
    /// So many entries of a map.
    Entries(Place, nat),
    /// Fields in the writer's order.
    Fields(Place),
    /// Fields by the writer's names.
    ByName(Place),
    /// One variant of an enum.
    Variant(Place, nat),
}

/// Reads whatever is next, down to its parts. A newtype struct occupies
/// exactly its inner value's columns, so a reader that is not asking for one
/// sees through it. The first occurrence of a shared object is seen through
/// as well; a repetition cannot be, since its data is elsewhere.
pub open spec fn step(s: Shape, base: nat, fast: bool, cur: Cur) -> std::result::Result<
    (Next, Cur),
    Fault,
>
    decreases s,
{
    let here = Place { shape: s, base };
    match s.kind {
        Kind::Primitive(p) => match cur.take(base, primitive_width(p)) {
            Ok((bytes, next)) => match scalar_of(p, from_little_endian(bytes)) {
                Ok(x) => Ok((Next::Scalar(x), next)),
                Err(fault) => Err(fault),
            },
            Err(fault) => Err(fault),
        },
        Kind::String => match get_bytes(base, cur) {
            Ok((bytes, next)) => if valid_utf8(bytes) {
                Ok((Next::Str(decode_utf8(bytes)), next))
            } else {
                Err(Fault::InvalidUtf8)
            },
            Err(fault) => Err(fault),
        },
        Kind::Bytes => match get_bytes(base, cur) {
            Ok((bytes, next)) => Ok((Next::Bytes(bytes), next)),
            Err(fault) => Err(fault),
        },
        Kind::Unit | Kind::UnitStruct => Ok((Next::Unit(here), cur)),
        Kind::NewtypeStruct => if s.kids.len() == 1 {
            step(s.kids[0], base, fast, cur)
        } else {
            Err(Fault::UnexpectedEof)
        },
        Kind::Option => match cur.take(base, 1) {
            Ok((tag, next)) => if tag[0] == 0 {
                Ok((Next::Absent, next))
            } else if tag[0] == 1 && s.kids.len() == 1 {
                Ok((Next::Present(here), next))
            } else {
                Err(Fault::InvalidTag("presence"@, tag[0] as u64))
            },
            Err(fault) => Err(fault),
        },
        Kind::Sequence => if s.kids.len() == 1 {
            match count("sequence length"@, width_of(s.kids[0]), base, cur) {
                Ok((n, next)) => Ok((Next::Items(here, n), next)),
                Err(fault) => Err(fault),
            }
        } else {
            Err(Fault::UnexpectedEof)
        },
        Kind::Mapping => if s.kids.len() == 2 {
            match count("map length"@, width_of(s.kids[0]) + width_of(s.kids[1]), base, cur) {
                Ok((n, next)) => Ok((Next::Entries(here, n), next)),
                Err(fault) => Err(fault),
            }
        } else {
            Err(Fault::UnexpectedEof)
        },
        Kind::Tuple | Kind::TupleStruct => Ok((Next::Fields(here), cur)),
        Kind::Struct => if fast {
            Ok((Next::Fields(here), cur))
        } else {
            Ok((Next::ByName(here), cur))
        },
        Kind::Enum => match variant_tag(s.kids.len(), base, cur) {
            Ok((i, next)) => Ok((Next::Variant(here, i), next)),
            Err(fault) => Err(fault),
        },
        Kind::Shared => if s.kids.len() == 1 {
            match cur.varint(base) {
                Ok((key, next)) => if key < next.regs[base as int].len() {
                    Err(repeat_unavailable())
                } else if key == next.regs[base as int].len() {
                    step(s.kids[0], base + 1, fast, next.reserve(base))
                } else {
                    Err(Fault::InvalidTag("shared key"@, key as u64))
                },
                Err(fault) => Err(fault),
            }
        } else {
            Err(Fault::UnexpectedEof)
        },
        Kind::UnitVariant | Kind::NewtypeVariant | Kind::TupleVariant | Kind::StructVariant => Err(
            Fault::UnexpectedEof,
        ),
    }
}

/// Reads the parts that a step left.
pub open spec fn finish(next: Next, cur: Cur) -> std::result::Result<(Val, Cur), Fault> {
    match next {
        Next::Scalar(x) => Ok((atom(Head::Scalar(x)), cur)),
        Next::Str(text) => Ok((atom(Head::Str(text)), cur)),
        Next::Bytes(bytes) => Ok((atom(Head::Bytes(bytes)), cur)),
        Next::Unit(place) => if place.shape.kind == Kind::Unit {
            Ok((atom(Head::Unit), cur))
        } else {
            Ok((atom(Head::UnitStruct(place.shape.name)), cur))
        },
        Next::Absent => Ok((atom(Head::Absent), cur)),
        Next::Present(place) => match get(place.shape.kids[0], place.base + 1, cur) {
            Ok((v, end)) => Ok((Val { head: Head::Present, kids: seq![v] }, end)),
            Err(fault) => Err(fault),
        },
        Next::Items(place, n) => match get_items(place.shape, place.base, cur, n) {
            Ok((kids, end)) => Ok((Val { head: Head::Sequence, kids }, end)),
            Err(fault) => Err(fault),
        },
        Next::Entries(place, n) => match get_entries(place.shape, place.base, cur, n) {
            Ok((kids, end)) => Ok((Val { head: Head::Mapping, kids }, end)),
            Err(fault) => Err(fault),
        },
        Next::Fields(place) | Next::ByName(place) => match get_fields(
            place.shape,
            place.base,
            cur,
            place.shape.kids.len(),
        ) {
            Ok((kids, end)) => Ok((Val { head: product_head(place.shape), kids }, end)),
            Err(fault) => Err(fault),
        },
        Next::Variant(place, i) => match get_fields(
            place.shape.kids[i as int],
            kid_base(place.shape, place.base, i),
            cur,
            place.shape.kids[i as int].kids.len(),
        ) {
            Ok((kids, end)) => Ok((Val { head: variant_head(place.shape, i), kids }, end)),
            Err(fault) => Err(fault),
        },
    }
}

/// The head of a value that is a product of fields.
pub open spec fn product_head(s: Shape) -> Head {
    match s.kind {
        Kind::TupleStruct => Head::TupleStruct(s.name),
        Kind::Struct => Head::Struct(s.name, s.labels),
        _ => Head::Tuple,
    }
}

/// Reading a value by steps reads what reading it whole does, on either path,
/// wherever there is nothing to see through.
pub proof fn lemma_step_finish(s: Shape, base: nat, fast: bool, cur: Cur)
    requires
        s.well_formed(),
        s.kind != Kind::NewtypeStruct,
        s.kind != Kind::Shared,
    ensures
        get(s, base, cur) == match step(s, base, fast, cur) {
            Ok((next, rest)) => finish(next, rest),
            Err(fault) => Err(fault),
        },
{
}

/// What is next, for a reader that takes whatever comes.
pub enum Step<'s, 'de> {
    Scalar(Scalar),
    Str(&'de str),
    Bytes(&'de [u8]),
    Unit,
    Absent,
    Present(Spot<'s>),
    Items(ColSeq<'s>),
    Entries(ColMap<'s>),
    Fields(FieldList<'s>),
    ByName(FieldList<'s>),
    Variant(VariantSpot<'s>),
}

impl<'s, 'de> Step<'s, 'de> {
    /// This is what is next, with the parts at their positions.
    pub open spec fn shows(&self, next: Next, columns: nat) -> bool {
        match next {
            Next::Scalar(x) => *self == Step::<'s, 'de>::Scalar(x),
            Next::Str(text) => self matches Step::Str(held) && held@ == text,
            Next::Bytes(bytes) => self matches Step::Bytes(held) && held@ == bytes,
            Next::Unit(_) => *self == Step::<'s, 'de>::Unit,
            Next::Absent => *self == Step::<'s, 'de>::Absent,
            Next::Present(place) => {
                &&& self matches Step::Present(spot)
                &&& spot.fits(columns)
                &&& spot.shape() == place.shape.kids[0]
                &&& spot.base() == place.base + 1
            },
            Next::Items(place, n) => {
                &&& self matches Step::Items(items)
                &&& items.fits(columns)
                &&& items.elem().shape() == place.shape.kids[0]
                &&& items.elem().base() == place.base + 1
                &&& items.left() == n
            },
            Next::Entries(place, n) => {
                &&& self matches Step::Entries(entries)
                &&& entries.fits(columns)
                &&& entries.key().shape() == place.shape.kids[0]
                &&& entries.key().base() == place.base + 1
                &&& entries.held().shape() == place.shape.kids[1]
                &&& entries.held().base() == place.base + 1 + width_of(place.shape.kids[0])
                &&& entries.left() == n
                &&& !entries.awaiting()
            },
            Next::Fields(place) => {
                &&& self matches Step::Fields(list)
                &&& list.fits(columns)
                &&& list.shape() == place.shape
                &&& list.base() == place.base
            },
            Next::ByName(place) => {
                &&& self matches Step::ByName(list)
                &&& list.fits(columns)
                &&& list.shape() == place.shape
                &&& list.base() == place.base
                &&& list.named()
            },
            Next::Variant(place, i) => {
                &&& self matches Step::Variant(variant)
                &&& variant.fits(columns)
                &&& variant.shape() == place.shape.kids[i as int]
                &&& variant.base() == kid_base(place.shape, place.base, i)
                &&& variant.at().name@ == place.shape.labels[i as int]
            },
        }
    }
}

/// The elements of a sequence that are still to come.
pub struct ColSeq<'s> {
    elem: Spot<'s>,
    remaining: u64,
}

impl<'s> ColSeq<'s> {
    /// The position of an element.
    pub closed spec fn elem(&self) -> Spot<'s> {
        self.elem
    }

    /// How many are still to come.
    pub closed spec fn left(&self) -> nat {
        self.remaining as nat
    }

    /// The elements' columns are among the first `columns`.
    pub open spec fn fits(&self, columns: nat) -> bool {
        self.elem().fits(columns)
    }

    /// So many elements at a position.
    fn new(elem: Spot<'s>, remaining: u64) -> (result: Self)
        ensures
            result.elem() == elem,
            result.left() == remaining,
    {
        ColSeq { elem, remaining }
    }

    /// The position of the next element, if there is one.
    pub fn next_element(&mut self) -> (result: Option<Spot<'s>>)
        ensures
            final(self).elem() == old(self).elem(),
            match result {
                Some(spot) => {
                    &&& old(self).left() > 0
                    &&& final(self).left() == old(self).left() - 1
                    &&& spot == old(self).elem()
                },
                None => old(self).left() == 0 && *final(self) == *old(self),
            },
    {
        if self.remaining == 0 {
            return None;
        }
        self.remaining = self.remaining - 1;
        Some(self.elem)
    }

    /// How many elements are still to come, where that can be said.
    pub fn size_hint(&self) -> (result: Option<usize>)
        ensures
            result == size_hint(self.left()),
    {
        if self.remaining <= usize::MAX as u64 {
            Some(self.remaining as usize)
        } else {
            None
        }
    }
}

/// A count, where it fits a machine word.
pub open spec fn size_hint(left: nat) -> Option<usize> {
    if left <= usize::MAX {
        Some(left as usize)
    } else {
        None
    }
}

/// The entries of a map that are still to come.
pub struct ColMap<'s> {
    key: Spot<'s>,
    held: Spot<'s>,
    remaining: u64,
    awaiting_value: bool,
}

impl<'s> ColMap<'s> {
    /// The position of a key.
    pub closed spec fn key(&self) -> Spot<'s> {
        self.key
    }

    /// The position of a value.
    pub closed spec fn held(&self) -> Spot<'s> {
        self.held
    }

    /// How many entries are still to come.
    pub closed spec fn left(&self) -> nat {
        self.remaining as nat
    }

    /// Whether a key was read whose value was not.
    pub closed spec fn awaiting(&self) -> bool {
        self.awaiting_value
    }

    /// The entries' columns are among the first `columns`.
    pub open spec fn fits(&self, columns: nat) -> bool {
        self.key().fits(columns) && self.held().fits(columns)
    }

    /// So many entries at two positions.
    fn new(key: Spot<'s>, held: Spot<'s>, remaining: u64) -> (result: Self)
        ensures
            result.key() == key,
            result.held() == held,
            result.left() == remaining,
            !result.awaiting(),
    {
        ColMap { key, held, remaining, awaiting_value: false }
    }

    /// The position of the next key, if there is one.
    pub fn next_key(&mut self) -> (result: Option<Spot<'s>>)
        ensures
            final(self).key() == old(self).key(),
            final(self).held() == old(self).held(),
            match result {
                Some(spot) => {
                    &&& old(self).left() > 0
                    &&& final(self).left() == old(self).left() - 1
                    &&& final(self).awaiting()
                    &&& spot == old(self).key()
                },
                None => old(self).left() == 0 && *final(self) == *old(self),
            },
    {
        if self.remaining == 0 {
            return None;
        }
        self.remaining = self.remaining - 1;
        self.awaiting_value = true;
        Some(self.key)
    }

    /// The position of the value of the key just read. A reader that asks for
    /// a value out of turn gets an error, not silently desynced cursors.
    pub fn next_value(&mut self) -> (result: Result<Spot<'s>>)
        ensures
            final(self).key() == old(self).key(),
            final(self).held() == old(self).held(),
            final(self).left() == old(self).left(),
            !final(self).awaiting(),
            match result {
                Ok(spot) => old(self).awaiting() && spot == old(self).held(),
                Err(error) => !old(self).awaiting() && error@ == Fault::Message(
                    "map value requested without a key"@,
                ),
            },
    {
        if !self.awaiting_value {
            return Err(Error::Message("map value requested without a key".to_owned()));
        }
        self.awaiting_value = false;
        Ok(self.held)
    }

    /// How many entries are still to come, where that can be said.
    pub fn size_hint(&self) -> (result: Option<usize>)
        ensures
            result == size_hint(self.left()),
    {
        if self.remaining <= usize::MAX as u64 {
            Some(self.remaining as usize)
        } else {
            None
        }
    }
}

/// The fields of a product that are still to come: by position, by the
/// writer's names, or by number.
pub struct FieldsLeft<'s> {
    fields: FieldList<'s>,
    index: usize,
}

impl<'s> FieldsLeft<'s> {
    /// The fields, those already read among them.
    pub closed spec fn list(&self) -> FieldList<'s> {
        self.fields
    }

    /// The number of the next field.
    pub closed spec fn at(&self) -> nat {
        self.index as nat
    }

    /// The next field is one of them, or there is none left.
    pub open spec fn well_formed(&self) -> bool {
        &&& self.list().well_formed()
        &&& self.at() <= self.list().shape().kids.len()
    }

    /// All the fields of a product.
    pub fn new(fields: FieldList<'s>) -> (result: Self)
        requires
            fields.well_formed(),
        ensures
            result.list() == fields,
            result.at() == 0,
            result.well_formed(),
    {
        FieldsLeft { fields, index: 0 }
    }

    /// The number of the next field.
    pub fn index(&self) -> (result: usize)
        ensures
            result == self.at(),
    {
        self.index
    }

    /// The position of the next field, if there is one.
    pub fn next_field(&mut self) -> (result: Option<Spot<'s>>)
        requires
            old(self).well_formed(),
        ensures
            final(self).well_formed(),
            final(self).list() == old(self).list(),
            match result {
                Some(spot) => {
                    &&& old(self).at() < old(self).list().shape().kids.len()
                    &&& final(self).at() == old(self).at() + 1
                    &&& spot.well_formed()
                    &&& spot.shape() == old(self).list().shape().kids[old(self).at() as int]
                    &&& spot.base() == kid_base(
                        old(self).list().shape(),
                        old(self).list().base(),
                        old(self).at(),
                    )
                },
                None => {
                    &&& old(self).at() == old(self).list().shape().kids.len()
                    &&& final(self).at() == old(self).at()
                },
            },
    {
        match self.fields.get(self.index) {
            Some(spot) => {
                let n = self.fields.len();
                self.index = self.index + 1;
                Some(spot)
            },
            None => None,
        }
    }

    /// The writer's name of the next field.
    pub fn next_name(&self) -> (result: Option<&'s str>)
        requires
            self.well_formed(),
        ensures
            match result {
                Some(name) => {
                    &&& self.list().named()
                    &&& self.at() < self.list().shape().labels.len()
                    &&& name@ == self.list().shape().labels[self.at() as int]
                },
                None => !self.list().named() || self.at() >= self.list().shape().labels.len(),
            },
    {
        self.fields.name(self.index)
    }

    /// The number of the next field, as a key.
    pub fn next_number(&self) -> (result: Option<String>)
        requires
            self.well_formed(),
        ensures
            match result {
                Some(key) => {
                    &&& self.at() < self.list().shape().kids.len()
                    &&& key@ == decimal(self.at())
                },
                None => self.at() == self.list().shape().kids.len(),
            },
    {
        if self.index < self.fields.len() {
            Some(text::to_decimal(self.index as u64))
        } else {
            None
        }
    }

    /// How many fields are still to come.
    pub fn size_hint(&self) -> (result: usize)
        requires
            self.well_formed(),
        ensures
            result == self.list().shape().kids.len() - self.at(),
    {
        self.fields.len() - self.index
    }
}

/// Reads whatever the writer's schema says is next, for a reader that takes
/// whatever comes. Because the schema is in hand, the format is effectively
/// self-describing at read time.
pub fn dispatch<'s, 'de, E: Clone>(
    spot: Spot<'s>,
    fast: bool,
    cursors: &mut [ColumnCursor<'de>],
    regs: &mut ReadState<E>,
) -> (result: Result<Step<'s, 'de>>)
    requires
        readable_state(old(cursors)@, places(*old(regs))),
        spot.fits(old(cursors)@.len()),
    ensures
        still_readable(old(cursors)@, final(cursors)@, places(*final(regs))),
        stepped(
            result,
            step(spot.shape(), spot.base(), fast, cur_of(old(cursors)@, places(*old(regs)))),
            final(cursors)@,
            places(*final(regs)),
        ),
{
    dispatch_at(spot.node(), fast, cursors, regs, Ghost(spot.base()))
}

/// The outcome of a step.
pub open spec fn stepped(
    result: Result<Step<'_, '_>>,
    expected: std::result::Result<(Next, Cur), Fault>,
    cursors: Seq<ColumnCursor<'_>>,
    regs: Seq<Seq<Option<Val>>>,
) -> bool {
    match result {
        Ok(step) => expected matches Ok((next, cur)) && cur == cur_of(cursors, regs) && step.shows(
            next,
            cursors.len(),
        ),
        Err(error) => expected == Err::<(Next, Cur), Fault>(error@),
    }
}

fn dispatch_at<'s, 'de, E: Clone>(
    node: &'s Node,
    fast: bool,
    cursors: &mut [ColumnCursor<'de>],
    regs: &mut ReadState<E>,
    Ghost(base): Ghost<nat>,
) -> (result: Result<Step<'s, 'de>>)
    requires
        readable_state(old(cursors)@, places(*old(regs))),
        node.laid(base),
        node.shape().well_formed(),
        base + width_of(node.shape()) <= old(cursors)@.len(),
    ensures
        still_readable(old(cursors)@, final(cursors)@, places(*final(regs))),
        stepped(
            result,
            step(node.shape(), base, fast, cur_of(old(cursors)@, places(*old(regs)))),
            final(cursors)@,
            places(*final(regs)),
        ),
    decreases node,
{
    let ghost s = node.shape();
    proof {
        node.lemma_top(base);
    }
    match node {
        Node::Primitive(..) | Node::Str { .. } | Node::Unit { .. } => dispatch_leaf(
            node,
            fast,
            cursors,
            Ghost(places(*regs)),
            Ghost(base),
        ),
        Node::Newtype { inner, .. } => {
            proof {
                lemma_one_kid_columns(s);
            }
            dispatch_at(inner, fast, cursors, regs, Ghost(base))
        },
        Node::Option { .. } | Node::Sequence { .. } | Node::Mapping { .. } | Node::Enum { .. } => {
            dispatch_headed(node, fast, cursors, Ghost(places(*regs)), Ghost(base))
        },
        Node::Tuple { .. } | Node::Struct { .. } => {
            let spot = Spot::new(node, Ghost(base));
            match spot.product_fields() {
                Some(list) => {
                    if list.is_named() && !fast {
                        Ok(Step::ByName(list))
                    } else {
                        Ok(Step::Fields(list))
                    }
                },
                None => Err(Error::UnexpectedEof),
            }
        },
        Node::Shared { key, inner } => {
            proof {
                lemma_one_kid_columns(s);
            }
            let k = match read_varint(cursors, *key, Ghost(places(*regs))) {
                Ok(k) => k,
                Err(error) => return Err(error),
            };
            let ghost next = cur_of(cursors@, places(*regs));
            match regs.read_slot(*key, k) {
                // The reservation stays unfulfilled: a reader that does not
                // ask for shared values keeps no pointer that could be
                // repeated.
                Ok(ReadSlot::New(_)) => {
                    proof {
                        lemma_reserved(next.regs, *key as nat, *regs, cursors@, next);
                    }
                    dispatch_at(inner, fast, cursors, regs, Ghost(base + 1))
                },
                Ok(ReadSlot::Repeat(_)) => Err(shared::repeat_unavailable()),
                Err(error) => Err(error),
            }
        },
    }
}

/// Reads what has no parts.
fn dispatch_leaf<'s, 'de>(
    node: &'s Node,
    fast: bool,
    cursors: &mut [ColumnCursor<'de>],
    Ghost(regs): Ghost<Seq<Seq<Option<Val>>>>,
    Ghost(base): Ghost<nat>,
) -> (result: Result<Step<'s, 'de>>)
    requires
        readable_state(old(cursors)@, regs),
        node is Primitive || node is Str || node is Unit,
        node.laid(base),
        base + width_of(node.shape()) <= old(cursors)@.len(),
    ensures
        still_readable(old(cursors)@, final(cursors)@, regs),
        stepped(
            result,
            step(node.shape(), base, fast, cur_of(old(cursors)@, regs)),
            final(cursors)@,
            regs,
        ),
{
    proof {
        node.lemma_top(base);
    }
    match node {
        Node::Primitive(p, col) => match take(cursors, *col, p.width(), Ghost(regs)) {
            Ok(bytes) => match Scalar::read(*p, bytes) {
                Ok(x) => Ok(Step::Scalar(x)),
                Err(error) => Err(error),
            },
            Err(error) => Err(error),
        },
        Node::Str { bytes, len, data } => match read_bytes(cursors, *len, *data, Ghost(regs)) {
            Ok(raw) => {
                if *bytes {
                    Ok(Step::Bytes(raw))
                } else {
                    match text::str_from_utf8(raw) {
                        Some(text) => {
                            proof {
                                vstd::utf8::encode_utf8_decode_utf8(text@);
                            }
                            Ok(Step::Str(text))
                        },
                        None => Err(Error::InvalidUtf8),
                    }
                }
            },
            Err(error) => Err(error),
        },
        _ => Ok(Step::Unit),
    }
}

/// Reads what its parts come after: a presence tag, a count, an enum tag.
fn dispatch_headed<'s, 'de>(
    node: &'s Node,
    fast: bool,
    cursors: &mut [ColumnCursor<'de>],
    Ghost(regs): Ghost<Seq<Seq<Option<Val>>>>,
    Ghost(base): Ghost<nat>,
) -> (result: Result<Step<'s, 'de>>)
    requires
        readable_state(old(cursors)@, regs),
        node is Option || node is Sequence || node is Mapping || node is Enum,
        node.laid(base),
        node.shape().well_formed(),
        base + width_of(node.shape()) <= old(cursors)@.len(),
    ensures
        still_readable(old(cursors)@, final(cursors)@, regs),
        stepped(
            result,
            step(node.shape(), base, fast, cur_of(old(cursors)@, regs)),
            final(cursors)@,
            regs,
        ),
{
    let ghost s = node.shape();
    proof {
        node.lemma_top(base);
    }
    match node {
        Node::Option { tag, inner } => {
            proof {
                lemma_one_kid_columns(s);
            }
            match take(cursors, *tag, 1, Ghost(regs)) {
                Ok(present) => if present[0] == 0 {
                    Ok(Step::Absent)
                } else if present[0] == 1 {
                    Ok(Step::Present(Spot::new(inner, Ghost(base + 1))))
                } else {
                    Err(Error::InvalidTag { what: "presence", value: present[0] as u64 })
                },
                Err(error) => Err(error),
            }
        },
        Node::Sequence { len, elem, elem_columns } => {
            proof {
                lemma_one_kid_columns(s);
            }
            match read_count("sequence length", *elem_columns, cursors, *len, Ghost(regs)) {
                Ok(n) => Ok(
                    Step::Items(ColSeq::new(Spot::new(elem, Ghost(base + 1)), n as u64)),
                ),
                Err(error) => Err(error),
            }
        },
        Node::Mapping { len, key, value, entry_columns } => {
            proof {
                lemma_two_kids_columns(s);
            }
            match read_count("map length", *entry_columns, cursors, *len, Ghost(regs)) {
                Ok(n) => Ok(
                    Step::Entries(
                        ColMap::new(
                            Spot::new(key, Ghost(base + 1)),
                            Spot::new(value, Ghost(base + 1 + width_of(key.shape()))),
                            n as u64,
                        ),
                    ),
                ),
                Err(error) => Err(error),
            }
        },
        Node::Enum { tag, variants, .. } => {
            proof {
                lemma_variant_kind_shapes(variants@);
                lemma_variants_laid(variants@, s, base);
            }
            match read_tag(variants.len(), cursors, *tag, Ghost(regs)) {
                Ok(i) => {
                    proof {
                        lemma_kid_columns(s, i as nat);
                        assert(s.kids[i as int].well_formed());
                    }
                    Ok(
                        Step::Variant(
                            VariantSpot::new(&variants[i], Ghost(kid_base(s, base, i as nat))),
                        ),
                    )
                },
                Err(error) => Err(error),
            }
        },
        _ => Ok(Step::Unit),
    }
}

/// What a reader that asks for a shared object is told: the key was read, and
/// the object is there, comes next, or is not to be had.
pub open spec fn slot_read<E: Clone>(
    result: Result<ReadSlot<E>>,
    key: nat,
    before: ReadState<E>,
    after: ReadState<E>,
    position: nat,
) -> bool {
    let list = before@[position as int];
    match result {
        Ok(ReadSlot::Repeat(object)) => {
            &&& key < list.len()
            &&& list[key as int] matches Some(kept) && cloned(kept, object)
            &&& after@ == before@
        },
        Ok(ReadSlot::New(index)) => {
            &&& key == list.len()
            &&& index == key
            &&& after@ == before@.update(position as int, list.push(None))
        },
        Err(error) => {
            &&& after@ == before@
            &&& if key < list.len() {
                list[key as int] is None && error@ == repeat_unavailable()
            } else {
                key > list.len() && error@ == Fault::InvalidTag("shared key"@, key as u64)
            }
        },
    }
}

/// Reads the key of a shared object, for a reader that asks for one. A new
/// object's place is reserved; its payload follows.
pub fn read_shared<E: Clone>(
    key: ColId,
    cursors: &mut [ColumnCursor<'_>],
    regs: &mut ReadState<E>,
) -> (result: Result<ReadSlot<E>>)
    requires
        readable_state(old(cursors)@, places(*old(regs))),
        key < old(cursors)@.len(),
    ensures
        still_readable(old(cursors)@, final(cursors)@, places(*final(regs))),
        match cur_of(old(cursors)@, places(*old(regs))).varint(key as nat) {
            Ok((k, next)) => {
                &&& slot_read(result, k, *old(regs), *final(regs), key as nat)
                &&& next == cur_of(final(cursors)@, places(*old(regs)))
            },
            Err(fault) => {
                &&& result matches Err(error) && error@ == fault
                &&& final(regs)@ == old(regs)@
            },
        },
{
    match read_varint(cursors, key, Ghost(places(*regs))) {
        Ok(k) => regs.read_slot(key, k),
        Err(error) => Err(error),
    }
}

} // verus!
