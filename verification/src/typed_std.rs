//! The columnar fast path for types of std beyond the core: pointers, ranges,
//! queues, slices, and values that may be borrowed.

use std::borrow::Cow;
use std::collections::VecDeque;
use std::ops::{Range, RangeInclusive};
use std::sync::Arc;

use vstd::prelude::*;
use vstd::std_specs::iter::IteratorSpec;

use crate::columnar::{write_varint, ColumnCursor};
use crate::error::{Fault, Result};
use crate::get::{get, Cur};
use crate::product::{lemma_get_same, lemma_put_labelled, lemma_same_columns};
use crate::put::{put, put_all_named, put_named, Row};
use crate::roundtrip::{part_shape, readable};
use crate::schema::SchemaNode;
use crate::shape::{lemma_one_kid_columns, width_of, Shape};
use crate::static_schema::StaticSchema;
use crate::typed_de::{
    lemma_back_str, lemma_vec_back, moved_only, passed, rejoin, stands, window, DeserializeColumns,
    RoundTrip,
};
use crate::typed_ser::{
    all_stand, all_write, appended, first_refusal, item_images, item_vals, kept, lemma_item_images,
    lemma_item_images_len, lemma_stamp_before, refused, stamped, write_items, Image, Modeled,
    SerializeColumns, Walk,
};
use crate::value::{atom, Head, Val};
use crate::varint;

verus! {

// ---------------------------------------------------------------------------
// Pointers.
// ---------------------------------------------------------------------------

impl<T: Modeled + ?Sized> Modeled for Arc<T> {
    open spec fn val(&self, w: Walk) -> Val {
        (**self).val(w)
    }

    open spec fn stands_for(&self, v: Val) -> bool {
        (**self).stands_for(v)
    }
}

impl<T: SerializeColumns + ?Sized> SerializeColumns for Arc<T> {
    open spec fn writes(&self) -> bool {
        (**self).writes()
    }

    open spec fn refusal(&self) -> Option<Fault> {
        (**self).refusal()
    }

    open spec fn image(&self, w: Walk) -> Seq<Seq<u8>> {
        (**self).image(w)
    }

    proof fn lemma_image(&self, w: Walk, base: nat, row: Row) {
        (**self).lemma_image(w, base, row);
    }

    fn serialize_columns(&self, columns: &mut [Vec<u8>]) -> (result: Result<()>) {
        assert forall|w: Walk| #[trigger] (**self).image(w) == self.image(w) by {}
        (**self).serialize_columns(columns)
    }
}

impl<'de, T: DeserializeColumns<'de>> DeserializeColumns<'de> for Arc<T> {
    open spec fn sound() -> bool {
        T::sound()
    }

    open spec fn read(cur: Cur) -> std::result::Result<(Val, Cur), Fault> {
        T::read(cur)
    }

    proof fn lemma_read(base: nat, cur: Cur) {
        T::lemma_read(base, cur);
    }

    fn deserialize_columns(cursors: &mut [ColumnCursor<'de>]) -> (result: Result<Self>) {
        match T::deserialize_columns(cursors) {
            Ok(x) => Ok(Arc::new(x)),
            Err(error) => Err(error),
        }
    }
}

impl<'de, T: RoundTrip<'de>> RoundTrip<'de> for Arc<T> {
    proof fn lemma_read_back(&self, w: Walk, cur: Cur) {
        (**self).lemma_read_back(w, cur);
    }
}

// ---------------------------------------------------------------------------
// Structs of the parts of a tuple.
// ---------------------------------------------------------------------------

/// A struct whose fields are the parts of a tuple.
pub open spec fn labels_parts(s: Shape, t: Shape) -> bool {
    &&& s.kind is Struct
    &&& t.kind is Tuple
    &&& s.kids == t.kids
}

/// A tuple, as a struct of its parts.
pub open spec fn as_struct(v: Val, s: Shape) -> Val {
    Val { head: Head::Struct(s.name, s.labels), kids: v.kids }
}

/// The struct has the parts that are read from a tree.
pub open spec fn parts_stand<P: Modeled>(parts: P, v: Val, s: Shape) -> bool {
    &&& v.head == Head::Struct(s.name, s.labels)
    &&& parts.stands_for(Val { head: Head::Tuple, kids: v.kids })
}

/// What is read as a tuple, as a struct of its parts.
pub open spec fn read_struct(
    s: Shape,
    read: std::result::Result<(Val, Cur), Fault>,
) -> std::result::Result<(Val, Cur), Fault> {
    match read {
        Ok((v, end)) => Ok((as_struct(v, s), end)),
        Err(fault) => Err(fault),
    }
}

/// Such a struct takes the columns of the tuple.
pub proof fn lemma_struct_width(s: Shape, t: Shape)
    requires
        labels_parts(s, t),
    ensures
        width_of(s) == width_of(t),
{
    lemma_same_columns(s, t, s.kids.len());
}

/// Such a struct is written as the tuple is.
pub proof fn lemma_struct_image<P: SerializeColumns>(
    x: &P,
    w: Walk,
    s: Shape,
    base: nat,
    row: Row,
)
    requires
        labels_parts(s, P::node()),
        x.writes(),
        x.val(w).head is Tuple,
        row.well_formed(),
        base + width_of(s) <= row.cols.len(),
    ensures
        x.image(w).len() == width_of(s),
        put(as_struct(x.val(w), s), s, base, row) == Ok::<Row, Fault>(
            stamped(row, base, x.image(w)),
        ),
{
    let t = P::node();
    let v = as_struct(x.val(w), s);
    lemma_struct_width(s, t);
    x.lemma_image(w, base, row);
    assert(x.val(w).kids.len() == t.kids.len());
    lemma_put_labelled(v, x.val(w), s, t, base, row, s.kids.len());
    assert(put_all_named(v, s.labels, s, base, row) == put_named(
        v,
        s.labels,
        s,
        base,
        row,
        s.kids.len(),
    ));
}

/// Such a struct is read as the tuple is.
pub proof fn lemma_struct_read<'de, P: DeserializeColumns<'de>>(s: Shape, base: nat, cur: Cur)
    requires
        labels_parts(s, P::node()),
        P::sound(),
        cur.sized(),
        base + width_of(s) <= cur.bufs.len(),
        P::read(window(cur, base, width_of(s))) is Ok,
    ensures
        ({
            let part = window(cur, base, width_of(s));
            let (v, next) = read_struct(s, P::read(part))->Ok_0;
            &&& moved_only(part, next)
            &&& get(s, base, cur) == Ok::<(Val, Cur), Fault>((v, rejoin(cur, base, next)))
        }),
{
    lemma_struct_width(s, P::node());
    P::lemma_read(base, cur);
    lemma_get_same(s, P::node(), base, cur, s.kids.len());
}

/// Reading the tuple where such a struct was written gives its parts back.
pub proof fn lemma_struct_back<'de, P: RoundTrip<'de>>(x: P, w: Walk, s: Shape, cur: Cur)
    requires
        labels_parts(s, P::node()),
        P::sound(),
        x.writes(),
        x.val(w).head is Tuple,
        readable(as_struct(x.val(w), s), s),
        stands(cur, x.image(w)),
    ensures
        read_struct(s, P::read(cur)) == Ok::<(Val, Cur), Fault>(
            (as_struct(x.val(w), s), passed(cur, x.image(w))),
        ),
{
    let v = as_struct(x.val(w), s);
    assert(readable(x.val(w), P::node())) by {
        assert forall|j: int| 0 <= j < x.val(w).kids.len() implies readable(
            #[trigger] x.val(w).kids[j],
            part_shape(x.val(w), P::node(), j),
        ) by {
            assert(readable(v.kids[j], part_shape(v, s, j)));
        }
    }
    x.lemma_read_back(w, cur);
}

impl<T: StaticSchema + Modeled> Modeled for Range<T> {
    open spec fn val(&self, w: Walk) -> Val {
        as_struct((self.start, self.end).val(w), Self::node())
    }

    open spec fn stands_for(&self, v: Val) -> bool {
        parts_stand((self.start, self.end), v, Self::node())
    }
}

impl<T: SerializeColumns> SerializeColumns for Range<T> {
    open spec fn writes(&self) -> bool {
        self.start.writes() && self.end.writes()
    }

    open spec fn refusal(&self) -> Option<Fault> {
        (self.start, self.end).refusal()
    }

    open spec fn image(&self, w: Walk) -> Seq<Seq<u8>> {
        (self.start, self.end).image(w)
    }

    proof fn lemma_image(&self, w: Walk, base: nat, row: Row) {
        lemma_struct_image(&(self.start, self.end), w, Self::node(), base, row);
    }

    fn serialize_columns(&self, columns: &mut [Vec<u8>]) -> (result: Result<()>) {
        let parts = (&self.start, &self.end);
        proof {
            lemma_struct_width(Self::node(), <(&T, &T)>::node());
            if self.writes() {
                assert forall|w: Walk| #[trigger] parts.image(w) == self.image(w) by {}
            }
        }
        parts.serialize_columns(columns)
    }
}

impl<'de, T: DeserializeColumns<'de>> DeserializeColumns<'de> for Range<T> {
    open spec fn sound() -> bool {
        T::sound()
    }

    open spec fn read(cur: Cur) -> std::result::Result<(Val, Cur), Fault> {
        read_struct(Self::node(), <(T, T)>::read(cur))
    }

    proof fn lemma_read(base: nat, cur: Cur) {
        lemma_struct_read::<(T, T)>(Self::node(), base, cur);
    }

    fn deserialize_columns(cursors: &mut [ColumnCursor<'de>]) -> (result: Result<Self>) {
        proof {
            lemma_struct_width(Self::node(), <(T, T)>::node());
        }
        match <(T, T)>::deserialize_columns(cursors) {
            Ok((start, end)) => Ok(Range { start, end }),
            Err(error) => Err(error),
        }
    }
}

impl<'de, T: RoundTrip<'de>> RoundTrip<'de> for Range<T> {
    proof fn lemma_read_back(&self, w: Walk, cur: Cur) {
        lemma_struct_back::<(T, T)>((self.start, self.end), w, Self::node(), cur);
    }
}

/// [`RangeInclusive::start`]: the lower bound, which is unspecified once the
/// range has been iterated to its end.
pub assume_specification<Idx>[ std::ops::RangeInclusive::<Idx>::start ](
    r: &std::ops::RangeInclusive<Idx>,
) -> (low: &Idx)
    ensures
        !r@.exhausted ==> *low == r@.start,
;

/// [`RangeInclusive::end`]: the upper bound, which is unspecified once the
/// range has been iterated to its end.
pub assume_specification<Idx>[ std::ops::RangeInclusive::<Idx>::end ](
    r: &std::ops::RangeInclusive<Idx>,
) -> (high: &Idx)
    ensures
        !r@.exhausted ==> *high == r@.end,
;

impl<T: StaticSchema + Modeled> Modeled for RangeInclusive<T> {
    open spec fn val(&self, w: Walk) -> Val {
        as_struct((self@.start, self@.end).val(w), Self::node())
    }

    open spec fn stands_for(&self, v: Val) -> bool {
        parts_stand((self@.start, self@.end), v, Self::node())
    }
}

impl<T: SerializeColumns> SerializeColumns for RangeInclusive<T> {
    open spec fn writes(&self) -> bool {
        !self@.exhausted && self@.start.writes() && self@.end.writes()
    }

    open spec fn refusal(&self) -> Option<Fault> {
        if self@.exhausted {
            None
        } else {
            (self@.start, self@.end).refusal()
        }
    }

    open spec fn image(&self, w: Walk) -> Seq<Seq<u8>> {
        (self@.start, self@.end).image(w)
    }

    proof fn lemma_image(&self, w: Walk, base: nat, row: Row) {
        lemma_struct_image(&(self@.start, self@.end), w, Self::node(), base, row);
    }

    fn serialize_columns(&self, columns: &mut [Vec<u8>]) -> (result: Result<()>) {
        let parts = (self.start(), self.end());
        proof {
            lemma_struct_width(Self::node(), <(&T, &T)>::node());
            if self.writes() {
                assert forall|w: Walk| #[trigger] parts.image(w) == self.image(w) by {}
            }
        }
        parts.serialize_columns(columns)
    }
}

impl<'de, T: DeserializeColumns<'de>> DeserializeColumns<'de> for RangeInclusive<T> {
    open spec fn sound() -> bool {
        T::sound()
    }

    open spec fn read(cur: Cur) -> std::result::Result<(Val, Cur), Fault> {
        read_struct(Self::node(), <(T, T)>::read(cur))
    }

    proof fn lemma_read(base: nat, cur: Cur) {
        lemma_struct_read::<(T, T)>(Self::node(), base, cur);
    }

    fn deserialize_columns(cursors: &mut [ColumnCursor<'de>]) -> (result: Result<Self>) {
        proof {
            lemma_struct_width(Self::node(), <(T, T)>::node());
        }
        match <(T, T)>::deserialize_columns(cursors) {
            Ok((start, end)) => Ok(RangeInclusive::new(start, end)),
            Err(error) => Err(error),
        }
    }
}

impl<'de, T: RoundTrip<'de>> RoundTrip<'de> for RangeInclusive<T> {
    proof fn lemma_read_back(&self, w: Walk, cur: Cur) {
        lemma_struct_back::<(T, T)>((self@.start, self@.end), w, Self::node(), cur);
    }
}

// ---------------------------------------------------------------------------
// Queues.
// ---------------------------------------------------------------------------

/// Takes the next `n` items of a walk.
pub(crate) fn gather<I: Iterator>(items: I, n: usize) -> (result: Vec<I::Item>)
    ensures
        items.obeys_prophetic_iter_laws() && items.remaining().len() == n ==> result@
            == items.remaining(),
{
    let mut walk = items;
    let mut out: Vec<I::Item> = Vec::new();
    let mut i: usize = 0;
    assert(items.remaining().skip(0) =~= items.remaining());
    while i < n
        invariant
            i <= n,
            items.obeys_prophetic_iter_laws() && items.remaining().len() == n ==> {
                &&& walk.obeys_prophetic_iter_laws()
                &&& walk.remaining() == items.remaining().skip(i as int)
                &&& out@ == items.remaining().take(i as int)
            },
        decreases n - i,
    {
        match walk.next() {
            Some(item) => {
                out.push(item);
            },
            None => {},
        }
        assert(items.remaining().len() == n ==> items.remaining().skip(i as int).drop_first()
            =~= items.remaining().skip(i + 1));
        assert(items.obeys_prophetic_iter_laws() && items.remaining().len() == n ==> out@
            =~= items.remaining().take(i + 1));
        i += 1;
    }
    assert(items.remaining().len() == n ==> items.remaining().take(n as int) =~= items.remaining());
    out
}

/// Moves the items of a list into a queue.
pub(crate) fn queue<T>(items: Vec<T>) -> (result: VecDeque<T>)
    ensures
        result@ == items@,
{
    let ghost all = items@;
    let mut rest = items;
    let mut out: VecDeque<T> = VecDeque::new();
    assert(rest@ + out@ =~= all);
    while rest.len() > 0
        invariant
            rest@ + out@ == all,
        decreases rest@.len(),
    {
        let ghost (left, right) = (rest@, out@);
        match rest.pop() {
            Some(item) => {
                out.push_front(item);
                assert(rest@ + out@ =~= left + right);
            },
            None => {},
        }
    }
    assert(out@ =~= all);
    out
}

impl<T: Modeled> Modeled for VecDeque<T> {
    open spec fn val(&self, w: Walk) -> Val {
        Val { head: Head::Sequence, kids: item_vals(self@, w) }
    }

    open spec fn stands_for(&self, v: Val) -> bool {
        v.head is Sequence && all_stand(self@, v.kids)
    }
}

/// What a list appends: how many items there are, and the items.
pub open spec fn list_image<T: SerializeColumns>(items: Seq<T>, w: Walk) -> Image {
    seq![varint::encoded(items.len())] + item_images(items, w, items.len())
}

/// A list of references writes what a list of the items writes.
proof fn lemma_deref_images<T: SerializeColumns>(refs: Seq<&T>, items: Seq<T>, w: Walk, n: nat)
    requires
        n <= refs.len() == items.len(),
        forall|i: int| 0 <= i < items.len() ==> *(#[trigger] refs[i]) == items[i],
    ensures
        item_images(refs, w, n) == item_images(items, w, n),
    decreases n,
{
    if n > 0 {
        lemma_deref_images(refs, items, w, (n - 1) as nat);
    }
}

/// A list of references is refused as a list of the items is.
proof fn lemma_deref_refusal<T: SerializeColumns>(refs: Seq<&T>, items: Seq<T>, i: nat)
    requires
        refs.len() == items.len(),
        forall|j: int| 0 <= j < items.len() ==> *(#[trigger] refs[j]) == items[j],
    ensures
        first_refusal(refs, i) == first_refusal(items, i),
    decreases items.len() - i,
{
    if i < items.len() {
        assert(*refs[i as int] == items[i as int]);
        lemma_deref_refusal(refs, items, i + 1);
    }
}

/// A list is written by its length and its items.
pub proof fn lemma_list_image<T: SerializeColumns>(
    items: Seq<T>,
    w: Walk,
    v: Val,
    s: Shape,
    base: nat,
    row: Row,
)
    requires
        all_write(items),
        v == (Val { head: Head::Sequence, kids: item_vals(items, w) }),
        s.kind is Sequence,
        s.kids == seq![T::node()],
        row.well_formed(),
        base + width_of(s) <= row.cols.len(),
    ensures
        list_image(items, w).len() == width_of(s),
        put(v, s, base, row) == Ok::<Row, Fault>(stamped(row, base, list_image(items, w))),
{
    lemma_one_kid_columns(s);
    lemma_item_images(items, w, v, s, base, row, items.len());
    lemma_stamp_before(
        row,
        base,
        varint::encoded(items.len()),
        item_images(items, w, items.len()),
    );
}

/// Appends a list of references to items.
pub(crate) fn write_list<T: SerializeColumns>(refs: Vec<&T>, columns: &mut [Vec<u8>], items: Ghost<Seq<T>>) -> (result:
    Result<()>)
    requires
        refs@.len() == items@.len(),
        forall|i: int| 0 <= i < items@.len() ==> *(#[trigger] refs@[i]) == items@[i],
        old(columns)@.len() == 1 + width_of(T::node()),
    ensures
        kept(old(columns)@, final(columns)@),
        all_write(items@) ==> result is Ok && exists|w: Walk|
            appended(old(columns)@, final(columns)@, #[trigger] list_image(items@, w)),
        refused(first_refusal(items@, 0), result),
{
    proof {
        lemma_deref_refusal(refs@, items@, 0);
        assert forall|w: Walk| #[trigger] item_images(refs@, w, refs@.len()) == item_images(
            items@,
            w,
            items@.len(),
        ) && item_images(items@, w, items@.len()).len() == width_of(T::node()) by {
            lemma_item_images_len(items@, w, items@.len());
            lemma_deref_images(refs@, items@, w, items@.len());
        }
        if all_write(items@) {
            assert forall|i: int| 0 <= i < refs@.len() implies (#[trigger] refs@[i]).writes() by {
                assert(items@[i].writes());
            }
        }
    }
    write_varint(&mut columns[0], refs.len() as u64);
    let (head, rest) = columns.split_at_mut(1);
    let result = write_items(refs.as_slice(), rest);
    assert forall|w: Walk| #[trigger] item_images(refs@, w, refs@.len()) == list_image(
        items@,
        w,
    ).skip(1) by {
        assert(list_image(items@, w).skip(1) =~= item_images(items@, w, items@.len()));
    }
    result
}

impl<T: SerializeColumns> SerializeColumns for VecDeque<T> {
    open spec fn writes(&self) -> bool {
        all_write(self@)
    }

    open spec fn refusal(&self) -> Option<Fault> {
        first_refusal(self@, 0)
    }

    open spec fn image(&self, w: Walk) -> Seq<Seq<u8>> {
        list_image(self@, w)
    }

    proof fn lemma_image(&self, w: Walk, base: nat, row: Row) {
        lemma_list_image(self@, w, self.val(w), Self::node(), base, row);
    }

    fn serialize_columns(&self, columns: &mut [Vec<u8>]) -> (result: Result<()>) {
        let mut refs: Vec<&T> = Vec::new();
        let mut i: usize = 0;
        while i < self.len()
            invariant
                i == refs@.len(),
                i <= self@.len(),
                forall|j: int| 0 <= j < i ==> *(#[trigger] refs@[j]) == self@[j],
            decreases self@.len() - i,
        {
            refs.push(&self[i]);
            i += 1;
        }
        proof {
            lemma_one_kid_columns(Self::node());
            assert forall|w: Walk| #[trigger] list_image(self@, w) == self.image(w) by {}
        }
        write_list(refs, columns, Ghost(self@))
    }
}

impl<'de, T: DeserializeColumns<'de>> DeserializeColumns<'de> for VecDeque<T> {
    open spec fn sound() -> bool {
        T::sound()
    }

    open spec fn read(cur: Cur) -> std::result::Result<(Val, Cur), Fault> {
        <Vec<T>>::read(cur)
    }

    proof fn lemma_read(base: nat, cur: Cur) {
        <Vec<T>>::lemma_read(base, cur);
    }

    fn deserialize_columns(cursors: &mut [ColumnCursor<'de>]) -> (result: Result<Self>) {
        match <Vec<T>>::deserialize_columns(cursors) {
            Ok(items) => Ok(queue(items)),
            Err(error) => Err(error),
        }
    }
}

impl<'de, T: RoundTrip<'de>> RoundTrip<'de> for VecDeque<T> {
    proof fn lemma_read_back(&self, w: Walk, cur: Cur) {
        lemma_vec_back(self@, w, self.val(w), cur);
    }
}

impl<T: Modeled> Modeled for [T] {
    open spec fn val(&self, w: Walk) -> Val {
        Val { head: Head::Sequence, kids: item_vals(self@, w) }
    }

    open spec fn stands_for(&self, v: Val) -> bool {
        v.head is Sequence && all_stand(self@, v.kids)
    }
}

impl<T: SerializeColumns> SerializeColumns for [T] {
    open spec fn writes(&self) -> bool {
        all_write(self@)
    }

    open spec fn refusal(&self) -> Option<Fault> {
        first_refusal(self@, 0)
    }

    open spec fn image(&self, w: Walk) -> Seq<Seq<u8>> {
        list_image(self@, w)
    }

    proof fn lemma_image(&self, w: Walk, base: nat, row: Row) {
        lemma_list_image(self@, w, self.val(w), Self::node(), base, row);
    }

    fn serialize_columns(&self, columns: &mut [Vec<u8>]) -> (result: Result<()>) {
        proof {
            lemma_one_kid_columns(Self::node());
            assert forall|w: Walk| #[trigger] item_images(self@, w, self@.len()).len() == width_of(
                T::node(),
            ) by {
                lemma_item_images_len(self@, w, self@.len());
            }
        }
        assert(self@.len() == self.len());
        write_varint(&mut columns[0], self.len() as u64);
        let (head, rest) = columns.split_at_mut(1);
        let result = write_items(self, rest);
        assert forall|w: Walk| #[trigger] item_images(self@, w, self@.len()) == self.image(
            w,
        ).skip(1) by {
            assert(self.image(w).skip(1) =~= item_images(self@, w, self@.len()));
        }
        result
    }
}

// ---------------------------------------------------------------------------
// Strings that may be borrowed.
// ---------------------------------------------------------------------------

impl StaticSchema for Cow<'_, str> {
    open spec fn node() -> Shape {
        <str>::node()
    }

    proof fn lemma_node() {
        <str>::lemma_node();
    }

    fn schema_node() -> SchemaNode {
        <str>::schema_node()
    }

    fn columns() -> usize {
        <str>::columns()
    }

    fn fixed_width() -> Option<usize> {
        <str>::fixed_width()
    }
}

impl Modeled for Cow<'_, str> {
    open spec fn val(&self, w: Walk) -> Val {
        atom(Head::Str(self@))
    }
}

impl SerializeColumns for Cow<'_, str> {
    open spec fn writes(&self) -> bool {
        match self {
            Cow::Borrowed(text) => text.writes(),
            Cow::Owned(text) => text.writes(),
        }
    }

    open spec fn image(&self, w: Walk) -> Seq<Seq<u8>> {
        match self {
            Cow::Borrowed(text) => text.image(w),
            Cow::Owned(text) => text.image(w),
        }
    }

    proof fn lemma_image(&self, w: Walk, base: nat, row: Row) {
        match self {
            Cow::Borrowed(text) => text.lemma_image(w, base, row),
            Cow::Owned(text) => text.lemma_image(w, base, row),
        }
    }

    fn serialize_columns(&self, columns: &mut [Vec<u8>]) -> (result: Result<()>) {
        match self {
            Cow::Borrowed(text) => {
                assert forall|w: Walk| #[trigger] (**text).image(w) == self.image(w) by {}
                (*text).serialize_columns(columns)
            },
            Cow::Owned(text) => {
                assert forall|w: Walk| #[trigger] text.image(w) == self.image(w) by {}
                text.serialize_columns(columns)
            },
        }
    }
}

impl<'de: 'a, 'a> DeserializeColumns<'de> for Cow<'a, str> {
    open spec fn sound() -> bool {
        true
    }

    open spec fn read(cur: Cur) -> std::result::Result<(Val, Cur), Fault> {
        <&str>::read(cur)
    }

    proof fn lemma_read(base: nat, cur: Cur) {
        <&str>::lemma_read(base, cur);
    }

    fn deserialize_columns(cursors: &mut [ColumnCursor<'de>]) -> (result: Result<Self>) {
        match <&str>::deserialize_columns(cursors) {
            Ok(text) => Ok(Cow::Borrowed(text)),
            Err(error) => Err(error),
        }
    }
}

impl<'de: 'a, 'a> RoundTrip<'de> for Cow<'a, str> {
    proof fn lemma_read_back(&self, w: Walk, cur: Cur) {
        lemma_back_str(self@, cur);
    }
}

// ---------------------------------------------------------------------------
// Other values and slices that may be borrowed.
// ---------------------------------------------------------------------------

impl<T: StaticSchema + Clone> StaticSchema for Cow<'_, T> {
    open spec fn node() -> Shape {
        <T>::node()
    }

    proof fn lemma_node() {
        <T>::lemma_node();
    }

    fn schema_node() -> SchemaNode {
        <T>::schema_node()
    }

    fn columns() -> usize {
        <T>::columns()
    }

    fn fixed_width() -> Option<usize> {
        <T>::fixed_width()
    }
}

impl<T: Modeled + Clone> Modeled for Cow<'_, T> {
    open spec fn val(&self, w: Walk) -> Val {
        match self {
            Cow::Borrowed(inner) => inner.val(w),
            Cow::Owned(inner) => inner.val(w),
        }
    }

    open spec fn stands_for(&self, v: Val) -> bool {
        match self {
            Cow::Borrowed(inner) => inner.stands_for(v),
            Cow::Owned(inner) => inner.stands_for(v),
        }
    }
}

impl<T: SerializeColumns + Clone> SerializeColumns for Cow<'_, T> {
    open spec fn writes(&self) -> bool {
        match self {
            Cow::Borrowed(inner) => inner.writes(),
            Cow::Owned(inner) => inner.writes(),
        }
    }

    open spec fn refusal(&self) -> Option<Fault> {
        match self {
            Cow::Borrowed(inner) => inner.refusal(),
            Cow::Owned(inner) => inner.refusal(),
        }
    }

    open spec fn image(&self, w: Walk) -> Seq<Seq<u8>> {
        match self {
            Cow::Borrowed(inner) => inner.image(w),
            Cow::Owned(inner) => inner.image(w),
        }
    }

    proof fn lemma_image(&self, w: Walk, base: nat, row: Row) {
        match self {
            Cow::Borrowed(inner) => inner.lemma_image(w, base, row),
            Cow::Owned(inner) => inner.lemma_image(w, base, row),
        }
    }

    fn serialize_columns(&self, columns: &mut [Vec<u8>]) -> (result: Result<()>) {
        match self {
            Cow::Borrowed(inner) => {
                assert forall|w: Walk| #[trigger] (**inner).image(w) == self.image(w) by {}
                (*inner).serialize_columns(columns)
            },
            Cow::Owned(inner) => {
                assert forall|w: Walk| #[trigger] inner.image(w) == self.image(w) by {}
                inner.serialize_columns(columns)
            },
        }
    }
}

impl<T: StaticSchema + Clone> StaticSchema for Cow<'_, [T]> {
    open spec fn node() -> Shape {
        <[T]>::node()
    }

    proof fn lemma_node() {
        <[T]>::lemma_node();
    }

    fn schema_node() -> SchemaNode {
        <[T]>::schema_node()
    }

    fn columns() -> usize {
        <[T]>::columns()
    }

    fn fixed_width() -> Option<usize> {
        <[T]>::fixed_width()
    }
}

impl<T: Modeled + Clone> Modeled for Cow<'_, [T]> {
    open spec fn val(&self, w: Walk) -> Val {
        match self {
            Cow::Borrowed(items) => items.val(w),
            Cow::Owned(items) => items.val(w),
        }
    }

    open spec fn stands_for(&self, v: Val) -> bool {
        match self {
            Cow::Borrowed(items) => items.stands_for(v),
            Cow::Owned(items) => items.stands_for(v),
        }
    }
}

impl<T: SerializeColumns + Clone> SerializeColumns for Cow<'_, [T]> {
    open spec fn writes(&self) -> bool {
        match self {
            Cow::Borrowed(items) => items.writes(),
            Cow::Owned(items) => items.writes(),
        }
    }

    open spec fn refusal(&self) -> Option<Fault> {
        match self {
            Cow::Borrowed(items) => items.refusal(),
            Cow::Owned(items) => items.refusal(),
        }
    }

    open spec fn image(&self, w: Walk) -> Seq<Seq<u8>> {
        match self {
            Cow::Borrowed(items) => items.image(w),
            Cow::Owned(items) => items.image(w),
        }
    }

    proof fn lemma_image(&self, w: Walk, base: nat, row: Row) {
        match self {
            Cow::Borrowed(items) => items.lemma_image(w, base, row),
            Cow::Owned(items) => items.lemma_image(w, base, row),
        }
    }

    fn serialize_columns(&self, columns: &mut [Vec<u8>]) -> (result: Result<()>) {
        match self {
            Cow::Borrowed(items) => {
                assert forall|w: Walk| #[trigger] (**items).image(w) == self.image(w) by {}
                (*items).serialize_columns(columns)
            },
            Cow::Owned(items) => {
                assert forall|w: Walk| #[trigger] items.image(w) == self.image(w) by {}
                items.serialize_columns(columns)
            },
        }
    }
}

} // verus!
