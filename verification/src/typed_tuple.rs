//! The columnar fast path for tuples of more than six parts. Such a tuple is
//! written and read as two shorter ones, one after the other.

use vstd::prelude::*;

use crate::columnar::ColumnCursor;
use crate::error::{Fault, Result};
use crate::get::{get, get_fields, Cur};
use crate::product::{lemma_get_joined, lemma_joined_columns, lemma_put_joined, lemma_readable_part};
use crate::put::{put, Row};
use crate::roundtrip::readable;
use crate::shape::{columns_before, kid_base, width_of, Shape};
use crate::static_schema::StaticSchema;
use crate::typed_de::{moved_only, rejoin, stands, window, DeserializeColumns, RoundTrip};
use crate::typed_ser::{lemma_stamp_twice, lemma_width_2, stamped, Modeled, SerializeColumns, Walk};
use crate::value::{Head, Val};

verus! {

/// The parts of two tuples, as the parts of one.
pub open spec fn flat(
    read: std::result::Result<(Val, Cur), Fault>,
) -> std::result::Result<(Val, Cur), Fault> {
    match read {
        Ok((v, end)) => Ok(
            (Val { head: Head::Tuple, kids: v.kids[0].kids + v.kids[1].kids }, end),
        ),
        Err(fault) => Err(fault),
    }
}

/// The schema of one tuple and the schemas of two that together have its
/// parts.
pub open spec fn splits(s: Shape, a: Shape, b: Shape) -> bool {
    &&& s.kind is Tuple
    &&& a.kind is Tuple
    &&& b.kind is Tuple
    &&& s.kids == a.kids + b.kids
}

/// A tuple takes the columns of the two that it splits into.
pub proof fn lemma_split_width(s: Shape, a: Shape, b: Shape)
    requires
        splits(s, a, b),
    ensures
        width_of(s) == width_of(a) + width_of(b),
{
    lemma_joined_columns(s, a, b, b.kids.len());
}

/// A tuple is written as the two that it splits into.
pub proof fn lemma_split_image<A: SerializeColumns, B: SerializeColumns>(
    x: &A,
    y: &B,
    w: Walk,
    v: Val,
    s: Shape,
    base: nat,
    row: Row,
)
    requires
        splits(s, A::node(), B::node()),
        x.writes(),
        y.writes(),
        v.head is Tuple,
        x.val(w.part(0)).head is Tuple,
        y.val(w.part(1)).head is Tuple,
        x.val(w.part(0)).kids.len() == A::node().kids.len(),
        y.val(w.part(1)).kids.len() == B::node().kids.len(),
        v.kids == x.val(w.part(0)).kids + y.val(w.part(1)).kids,
        row.well_formed(),
        base + width_of(s) <= row.cols.len(),
    ensures
        (x.image(w.part(0)) + y.image(w.part(1))).len() == width_of(s),
        put(v, s, base, row) == Ok::<Row, Fault>(stamped(row, base, x.image(w.part(0)) + y.image(w.part(1)))),
{
    let (a, b) = (A::node(), B::node());
    lemma_split_width(s, a, b);
    x.lemma_image(w.part(0), base, row);
    let mid = stamped(row, base, x.image(w.part(0)));
    y.lemma_image(w.part(1), base + width_of(a), mid);
    lemma_put_joined(v, x.val(w.part(0)), y.val(w.part(1)), s, a, b, base, row, b.kids.len());
    lemma_stamp_twice(row, base, x.image(w.part(0)), y.image(w.part(1)));
}

/// A tuple is read as the two that it splits into.
pub proof fn lemma_split_read<'de, A: DeserializeColumns<'de>, B: DeserializeColumns<'de>>(
    s: Shape,
    base: nat,
    cur: Cur,
)
    requires
        splits(s, A::node(), B::node()),
        A::sound(),
        B::sound(),
        cur.sized(),
        base + width_of(s) <= cur.bufs.len(),
        <(A, B)>::read(window(cur, base, width_of(s))) is Ok,
    ensures
        ({
            let part = window(cur, base, width_of(s));
            let (v, next) = flat(<(A, B)>::read(part))->Ok_0;
            &&& moved_only(part, next)
            &&& get(s, base, cur) == Ok::<(Val, Cur), Fault>((v, rejoin(cur, base, next)))
        }),
{
    let (a, b) = (A::node(), B::node());
    let t = <(A, B)>::node();
    lemma_split_width(s, a, b);
    lemma_width_2::<A, B>();
    <(A, B)>::lemma_read(base, cur);
    lemma_get_joined(s, a, b, base, cur, b.kids.len());
    assert(kid_base(t, base, 0) == base);
    assert(kid_base(t, base, 1) == base + width_of(a)) by {
        assert(columns_before(t, 1) == columns_before(t, 0) + width_of(a));
    }
    assert(get_fields(t, base, cur, 0) == Ok::<(Seq<Val>, Cur), Fault>((seq![], cur)));
    assert(get_fields(t, base, cur, 2) is Ok);
    assert(get_fields(t, base, cur, 1) is Ok);
    let (pair, _) = get(t, base, cur)->Ok_0;
    let first = get(a, base, cur)->Ok_0;
    let others = get(b, base + width_of(a), first.1)->Ok_0;
    assert(get_fields(t, base, cur, 1) == Ok::<(Seq<Val>, Cur), Fault>(
        (Seq::<Val>::empty().push(first.0), first.1),
    ));
    assert(pair.kids == Seq::<Val>::empty().push(first.0).push(others.0));
}

/// Reading two tuples where one was written gives the parts of it back.
pub proof fn lemma_split_back<'de, A: RoundTrip<'de>, B: RoundTrip<'de>>(
    x: A,
    y: B,
    w: Walk,
    v: Val,
    s: Shape,
    cur: Cur,
)
    requires
        splits(s, A::node(), B::node()),
        A::sound(),
        B::sound(),
        x.writes(),
        y.writes(),
        v.head is Tuple,
        x.val(w.part(0)).head is Tuple,
        y.val(w.part(1)).head is Tuple,
        x.val(w.part(0)).kids.len() == A::node().kids.len(),
        y.val(w.part(1)).kids.len() == B::node().kids.len(),
        v.kids == x.val(w.part(0)).kids + y.val(w.part(1)).kids,
        readable(v, s),
        stands(cur, x.image(w.part(0)) + y.image(w.part(1))),
    ensures
        flat(<(A, B)>::read(cur)) == Ok::<(Val, Cur), Fault>(
            (v, crate::typed_de::passed(cur, x.image(w.part(0)) + y.image(w.part(1)))),
        ),
{
    let (a, b) = (A::node(), B::node());
    let n = a.kids.len();
    assert(v.kids.subrange(0, n as int) =~= x.val(w.part(0)).kids);
    assert(s.kids.subrange(0, n as int) =~= a.kids);
    assert(v.kids.subrange(n as int, v.kids.len() as int) =~= y.val(w.part(1)).kids);
    assert(s.kids.subrange(n as int, v.kids.len() as int) =~= b.kids);
    lemma_readable_part(v, s, x.val(w.part(0)), a, 0);
    lemma_readable_part(v, s, y.val(w.part(1)), b, n);
    let pair = (x, y);
    assert(readable(pair.val(w), <(A, B)>::node())) by {
        assert(pair.val(w).kids[0] == x.val(w.part(0)));
        assert(pair.val(w).kids[1] == y.val(w.part(1)));
    }
    pair.lemma_read_back(w, cur);
    let back = flat(<(A, B)>::read(cur))->Ok_0.0;
    assert(back.kids =~= v.kids);
    assert(back == v);
}

impl<
    T0: Modeled,
    T1: Modeled,
    T2: Modeled,
    T3: Modeled,
    T4: Modeled,
    T5: Modeled,
    T6: Modeled,
> Modeled for (T0, T1, T2, T3, T4, T5, T6) {
    open spec fn val(&self, w: Walk) -> Val {
        Val {
            head: Head::Tuple,
            kids: seq![
                self.0.val(w.part(0).part(0).part(0)),
                self.1.val(w.part(0).part(0).part(1)),
                self.2.val(w.part(0).part(0).part(2)),
                self.3.val(w.part(0).part(0).part(3)),
                self.4.val(w.part(0).part(1).part(0)),
                self.5.val(w.part(0).part(1).part(1)),
                self.6.val(w.part(1).part(0)),
            ],
        }
    }

    open spec fn stands_for(&self, v: Val) -> bool {
        &&& v.head is Tuple
        &&& v.kids.len() == 7
        &&& self.0.stands_for(v.kids[0])
        &&& self.1.stands_for(v.kids[1])
        &&& self.2.stands_for(v.kids[2])
        &&& self.3.stands_for(v.kids[3])
        &&& self.4.stands_for(v.kids[4])
        &&& self.5.stands_for(v.kids[5])
        &&& self.6.stands_for(v.kids[6])
    }
}

impl<
    T0: SerializeColumns,
    T1: SerializeColumns,
    T2: SerializeColumns,
    T3: SerializeColumns,
    T4: SerializeColumns,
    T5: SerializeColumns,
    T6: SerializeColumns,
> SerializeColumns for (T0, T1, T2, T3, T4, T5, T6) {
    open spec fn writes(&self) -> bool {
        &&& self.0.writes()
        &&& self.1.writes()
        &&& self.2.writes()
        &&& self.3.writes()
        &&& self.4.writes()
        &&& self.5.writes()
        &&& self.6.writes()
    }

    open spec fn refusal(&self) -> Option<Fault> {
        ((self.0, self.1, self.2, self.3, self.4, self.5), (self.6,)).refusal()
    }

    open spec fn image(&self, w: Walk) -> Seq<Seq<u8>> {
        (self.0, self.1, self.2, self.3, self.4, self.5).image(w.part(0)) + (self.6,).image(w.part(1))
    }

    proof fn lemma_image(&self, w: Walk, base: nat, row: Row) {
        let (x, y) = ((self.0, self.1, self.2, self.3, self.4, self.5), (self.6,));
        let s = Self::node();
        assert(s.kids =~= <(T0, T1, T2, T3, T4, T5)>::node().kids + <(T6,)>::node().kids);
        assert(self.val(w).kids =~= x.val(w.part(0)).kids + y.val(w.part(1)).kids);
        lemma_split_image(&x, &y, w, self.val(w), s, base, row);
    }

    fn serialize_columns(&self, columns: &mut [Vec<u8>]) -> (result: Result<()>) {
        let parts = ((&self.0, &self.1, &self.2, &self.3, &self.4, &self.5), (&self.6,));
        proof {
            let s = Self::node();
            assert(s.kids =~= <(&T0, &T1, &T2, &T3, &T4, &T5)>::node().kids + <(&T6,)>::node().kids);
            lemma_split_width(s, <(&T0, &T1, &T2, &T3, &T4, &T5)>::node(), <(&T6,)>::node());
            lemma_width_2::<(&T0, &T1, &T2, &T3, &T4, &T5), (&T6,)>();
            assert forall|w: Walk| #[trigger] parts.image(w) == self.image(w) by {
                assert(parts.image(w) =~= self.image(w));
            }
        }
        parts.serialize_columns(columns)
    }
}

impl<
    'de,
    T0: DeserializeColumns<'de>,
    T1: DeserializeColumns<'de>,
    T2: DeserializeColumns<'de>,
    T3: DeserializeColumns<'de>,
    T4: DeserializeColumns<'de>,
    T5: DeserializeColumns<'de>,
    T6: DeserializeColumns<'de>,
> DeserializeColumns<'de> for (T0, T1, T2, T3, T4, T5, T6) {
    open spec fn sound() -> bool {
        <(T0, T1, T2, T3, T4, T5)>::sound() && <(T6,)>::sound()
    }

    open spec fn read(cur: Cur) -> std::result::Result<(Val, Cur), Fault> {
        flat(<((T0, T1, T2, T3, T4, T5), (T6,))>::read(cur))
    }

    proof fn lemma_read(base: nat, cur: Cur) {
        let s = Self::node();
        assert(s.kids =~= <(T0, T1, T2, T3, T4, T5)>::node().kids + <(T6,)>::node().kids);
        lemma_split_read::<(T0, T1, T2, T3, T4, T5), (T6,)>(s, base, cur);
    }

    fn deserialize_columns(cursors: &mut [ColumnCursor<'de>]) -> (result: Result<Self>) {
        proof {
            let s = Self::node();
            assert(s.kids =~= <(T0, T1, T2, T3, T4, T5)>::node().kids + <(T6,)>::node().kids);
            lemma_split_width(s, <(T0, T1, T2, T3, T4, T5)>::node(), <(T6,)>::node());
            lemma_width_2::<(T0, T1, T2, T3, T4, T5), (T6,)>();
        }
        match <((T0, T1, T2, T3, T4, T5), (T6,))>::deserialize_columns(cursors) {
            Ok((x, y)) => {
                let whole = (x.0, x.1, x.2, x.3, x.4, x.5, y.0);
                Ok(whole)
            },
            Err(error) => Err(error),
        }
    }
}

impl<
    'de,
    T0: RoundTrip<'de>,
    T1: RoundTrip<'de>,
    T2: RoundTrip<'de>,
    T3: RoundTrip<'de>,
    T4: RoundTrip<'de>,
    T5: RoundTrip<'de>,
    T6: RoundTrip<'de>,
> RoundTrip<'de> for (T0, T1, T2, T3, T4, T5, T6) {
    proof fn lemma_read_back(&self, w: Walk, cur: Cur) {
        let (x, y) = ((self.0, self.1, self.2, self.3, self.4, self.5), (self.6,));
        let s = Self::node();
        assert(s.kids =~= <(T0, T1, T2, T3, T4, T5)>::node().kids + <(T6,)>::node().kids);
        assert(self.val(w).kids =~= x.val(w.part(0)).kids + y.val(w.part(1)).kids);
        lemma_split_back::<(T0, T1, T2, T3, T4, T5), (T6,)>(x, y, w, self.val(w), s, cur);
    }
}

impl<
    T0: Modeled,
    T1: Modeled,
    T2: Modeled,
    T3: Modeled,
    T4: Modeled,
    T5: Modeled,
    T6: Modeled,
    T7: Modeled,
> Modeled for (T0, T1, T2, T3, T4, T5, T6, T7) {
    open spec fn val(&self, w: Walk) -> Val {
        Val {
            head: Head::Tuple,
            kids: seq![
                self.0.val(w.part(0).part(0).part(0)),
                self.1.val(w.part(0).part(0).part(1)),
                self.2.val(w.part(0).part(0).part(2)),
                self.3.val(w.part(0).part(0).part(3)),
                self.4.val(w.part(0).part(1).part(0)),
                self.5.val(w.part(0).part(1).part(1)),
                self.6.val(w.part(1).part(0)),
                self.7.val(w.part(1).part(1)),
            ],
        }
    }

    open spec fn stands_for(&self, v: Val) -> bool {
        &&& v.head is Tuple
        &&& v.kids.len() == 8
        &&& self.0.stands_for(v.kids[0])
        &&& self.1.stands_for(v.kids[1])
        &&& self.2.stands_for(v.kids[2])
        &&& self.3.stands_for(v.kids[3])
        &&& self.4.stands_for(v.kids[4])
        &&& self.5.stands_for(v.kids[5])
        &&& self.6.stands_for(v.kids[6])
        &&& self.7.stands_for(v.kids[7])
    }
}

impl<
    T0: SerializeColumns,
    T1: SerializeColumns,
    T2: SerializeColumns,
    T3: SerializeColumns,
    T4: SerializeColumns,
    T5: SerializeColumns,
    T6: SerializeColumns,
    T7: SerializeColumns,
> SerializeColumns for (T0, T1, T2, T3, T4, T5, T6, T7) {
    open spec fn writes(&self) -> bool {
        &&& self.0.writes()
        &&& self.1.writes()
        &&& self.2.writes()
        &&& self.3.writes()
        &&& self.4.writes()
        &&& self.5.writes()
        &&& self.6.writes()
        &&& self.7.writes()
    }

    open spec fn refusal(&self) -> Option<Fault> {
        ((self.0, self.1, self.2, self.3, self.4, self.5), (self.6, self.7)).refusal()
    }

    open spec fn image(&self, w: Walk) -> Seq<Seq<u8>> {
        (self.0, self.1, self.2, self.3, self.4, self.5).image(w.part(0)) + (self.6, self.7).image(w.part(1))
    }

    proof fn lemma_image(&self, w: Walk, base: nat, row: Row) {
        let (x, y) = ((self.0, self.1, self.2, self.3, self.4, self.5), (self.6, self.7));
        let s = Self::node();
        assert(s.kids =~= <(T0, T1, T2, T3, T4, T5)>::node().kids + <(T6, T7)>::node().kids);
        assert(self.val(w).kids =~= x.val(w.part(0)).kids + y.val(w.part(1)).kids);
        lemma_split_image(&x, &y, w, self.val(w), s, base, row);
    }

    fn serialize_columns(&self, columns: &mut [Vec<u8>]) -> (result: Result<()>) {
        let parts = ((&self.0, &self.1, &self.2, &self.3, &self.4, &self.5), (&self.6, &self.7));
        proof {
            let s = Self::node();
            assert(s.kids =~= <(&T0, &T1, &T2, &T3, &T4, &T5)>::node().kids + <(&T6, &T7)>::node().kids);
            lemma_split_width(s, <(&T0, &T1, &T2, &T3, &T4, &T5)>::node(), <(&T6, &T7)>::node());
            lemma_width_2::<(&T0, &T1, &T2, &T3, &T4, &T5), (&T6, &T7)>();
            assert forall|w: Walk| #[trigger] parts.image(w) == self.image(w) by {
                assert(parts.image(w) =~= self.image(w));
            }
        }
        parts.serialize_columns(columns)
    }
}

impl<
    'de,
    T0: DeserializeColumns<'de>,
    T1: DeserializeColumns<'de>,
    T2: DeserializeColumns<'de>,
    T3: DeserializeColumns<'de>,
    T4: DeserializeColumns<'de>,
    T5: DeserializeColumns<'de>,
    T6: DeserializeColumns<'de>,
    T7: DeserializeColumns<'de>,
> DeserializeColumns<'de> for (T0, T1, T2, T3, T4, T5, T6, T7) {
    open spec fn sound() -> bool {
        <(T0, T1, T2, T3, T4, T5)>::sound() && <(T6, T7)>::sound()
    }

    open spec fn read(cur: Cur) -> std::result::Result<(Val, Cur), Fault> {
        flat(<((T0, T1, T2, T3, T4, T5), (T6, T7))>::read(cur))
    }

    proof fn lemma_read(base: nat, cur: Cur) {
        let s = Self::node();
        assert(s.kids =~= <(T0, T1, T2, T3, T4, T5)>::node().kids + <(T6, T7)>::node().kids);
        lemma_split_read::<(T0, T1, T2, T3, T4, T5), (T6, T7)>(s, base, cur);
    }

    fn deserialize_columns(cursors: &mut [ColumnCursor<'de>]) -> (result: Result<Self>) {
        proof {
            let s = Self::node();
            assert(s.kids =~= <(T0, T1, T2, T3, T4, T5)>::node().kids + <(T6, T7)>::node().kids);
            lemma_split_width(s, <(T0, T1, T2, T3, T4, T5)>::node(), <(T6, T7)>::node());
            lemma_width_2::<(T0, T1, T2, T3, T4, T5), (T6, T7)>();
        }
        match <((T0, T1, T2, T3, T4, T5), (T6, T7))>::deserialize_columns(cursors) {
            Ok((x, y)) => {
                let whole = (x.0, x.1, x.2, x.3, x.4, x.5, y.0, y.1);
                Ok(whole)
            },
            Err(error) => Err(error),
        }
    }
}

impl<
    'de,
    T0: RoundTrip<'de>,
    T1: RoundTrip<'de>,
    T2: RoundTrip<'de>,
    T3: RoundTrip<'de>,
    T4: RoundTrip<'de>,
    T5: RoundTrip<'de>,
    T6: RoundTrip<'de>,
    T7: RoundTrip<'de>,
> RoundTrip<'de> for (T0, T1, T2, T3, T4, T5, T6, T7) {
    proof fn lemma_read_back(&self, w: Walk, cur: Cur) {
        let (x, y) = ((self.0, self.1, self.2, self.3, self.4, self.5), (self.6, self.7));
        let s = Self::node();
        assert(s.kids =~= <(T0, T1, T2, T3, T4, T5)>::node().kids + <(T6, T7)>::node().kids);
        assert(self.val(w).kids =~= x.val(w.part(0)).kids + y.val(w.part(1)).kids);
        lemma_split_back::<(T0, T1, T2, T3, T4, T5), (T6, T7)>(x, y, w, self.val(w), s, cur);
    }
}

impl<
    T0: Modeled,
    T1: Modeled,
    T2: Modeled,
    T3: Modeled,
    T4: Modeled,
    T5: Modeled,
    T6: Modeled,
    T7: Modeled,
    T8: Modeled,
> Modeled for (T0, T1, T2, T3, T4, T5, T6, T7, T8) {
    open spec fn val(&self, w: Walk) -> Val {
        Val {
            head: Head::Tuple,
            kids: seq![
                self.0.val(w.part(0).part(0).part(0)),
                self.1.val(w.part(0).part(0).part(1)),
                self.2.val(w.part(0).part(0).part(2)),
                self.3.val(w.part(0).part(0).part(3)),
                self.4.val(w.part(0).part(1).part(0)),
                self.5.val(w.part(0).part(1).part(1)),
                self.6.val(w.part(1).part(0)),
                self.7.val(w.part(1).part(1)),
                self.8.val(w.part(1).part(2)),
            ],
        }
    }

    open spec fn stands_for(&self, v: Val) -> bool {
        &&& v.head is Tuple
        &&& v.kids.len() == 9
        &&& self.0.stands_for(v.kids[0])
        &&& self.1.stands_for(v.kids[1])
        &&& self.2.stands_for(v.kids[2])
        &&& self.3.stands_for(v.kids[3])
        &&& self.4.stands_for(v.kids[4])
        &&& self.5.stands_for(v.kids[5])
        &&& self.6.stands_for(v.kids[6])
        &&& self.7.stands_for(v.kids[7])
        &&& self.8.stands_for(v.kids[8])
    }
}

impl<
    T0: SerializeColumns,
    T1: SerializeColumns,
    T2: SerializeColumns,
    T3: SerializeColumns,
    T4: SerializeColumns,
    T5: SerializeColumns,
    T6: SerializeColumns,
    T7: SerializeColumns,
    T8: SerializeColumns,
> SerializeColumns for (T0, T1, T2, T3, T4, T5, T6, T7, T8) {
    open spec fn writes(&self) -> bool {
        &&& self.0.writes()
        &&& self.1.writes()
        &&& self.2.writes()
        &&& self.3.writes()
        &&& self.4.writes()
        &&& self.5.writes()
        &&& self.6.writes()
        &&& self.7.writes()
        &&& self.8.writes()
    }

    open spec fn refusal(&self) -> Option<Fault> {
        ((self.0, self.1, self.2, self.3, self.4, self.5), (self.6, self.7, self.8)).refusal()
    }

    open spec fn image(&self, w: Walk) -> Seq<Seq<u8>> {
        (self.0, self.1, self.2, self.3, self.4, self.5).image(w.part(0)) + (self.6, self.7, self.8).image(w.part(1))
    }

    proof fn lemma_image(&self, w: Walk, base: nat, row: Row) {
        let (x, y) = ((self.0, self.1, self.2, self.3, self.4, self.5), (self.6, self.7, self.8));
        let s = Self::node();
        assert(s.kids =~= <(T0, T1, T2, T3, T4, T5)>::node().kids + <(T6, T7, T8)>::node().kids);
        assert(self.val(w).kids =~= x.val(w.part(0)).kids + y.val(w.part(1)).kids);
        lemma_split_image(&x, &y, w, self.val(w), s, base, row);
    }

    fn serialize_columns(&self, columns: &mut [Vec<u8>]) -> (result: Result<()>) {
        let parts = ((&self.0, &self.1, &self.2, &self.3, &self.4, &self.5), (&self.6, &self.7, &self.8));
        proof {
            let s = Self::node();
            assert(s.kids =~= <(&T0, &T1, &T2, &T3, &T4, &T5)>::node().kids + <(&T6, &T7, &T8)>::node().kids);
            lemma_split_width(s, <(&T0, &T1, &T2, &T3, &T4, &T5)>::node(), <(&T6, &T7, &T8)>::node());
            lemma_width_2::<(&T0, &T1, &T2, &T3, &T4, &T5), (&T6, &T7, &T8)>();
            assert forall|w: Walk| #[trigger] parts.image(w) == self.image(w) by {
                assert(parts.image(w) =~= self.image(w));
            }
        }
        parts.serialize_columns(columns)
    }
}

impl<
    'de,
    T0: DeserializeColumns<'de>,
    T1: DeserializeColumns<'de>,
    T2: DeserializeColumns<'de>,
    T3: DeserializeColumns<'de>,
    T4: DeserializeColumns<'de>,
    T5: DeserializeColumns<'de>,
    T6: DeserializeColumns<'de>,
    T7: DeserializeColumns<'de>,
    T8: DeserializeColumns<'de>,
> DeserializeColumns<'de> for (T0, T1, T2, T3, T4, T5, T6, T7, T8) {
    open spec fn sound() -> bool {
        <(T0, T1, T2, T3, T4, T5)>::sound() && <(T6, T7, T8)>::sound()
    }

    open spec fn read(cur: Cur) -> std::result::Result<(Val, Cur), Fault> {
        flat(<((T0, T1, T2, T3, T4, T5), (T6, T7, T8))>::read(cur))
    }

    proof fn lemma_read(base: nat, cur: Cur) {
        let s = Self::node();
        assert(s.kids =~= <(T0, T1, T2, T3, T4, T5)>::node().kids + <(T6, T7, T8)>::node().kids);
        lemma_split_read::<(T0, T1, T2, T3, T4, T5), (T6, T7, T8)>(s, base, cur);
    }

    fn deserialize_columns(cursors: &mut [ColumnCursor<'de>]) -> (result: Result<Self>) {
        proof {
            let s = Self::node();
            assert(s.kids =~= <(T0, T1, T2, T3, T4, T5)>::node().kids + <(T6, T7, T8)>::node().kids);
            lemma_split_width(s, <(T0, T1, T2, T3, T4, T5)>::node(), <(T6, T7, T8)>::node());
            lemma_width_2::<(T0, T1, T2, T3, T4, T5), (T6, T7, T8)>();
        }
        match <((T0, T1, T2, T3, T4, T5), (T6, T7, T8))>::deserialize_columns(cursors) {
            Ok((x, y)) => {
                let whole = (x.0, x.1, x.2, x.3, x.4, x.5, y.0, y.1, y.2);
                Ok(whole)
            },
            Err(error) => Err(error),
        }
    }
}

impl<
    'de,
    T0: RoundTrip<'de>,
    T1: RoundTrip<'de>,
    T2: RoundTrip<'de>,
    T3: RoundTrip<'de>,
    T4: RoundTrip<'de>,
    T5: RoundTrip<'de>,
    T6: RoundTrip<'de>,
    T7: RoundTrip<'de>,
    T8: RoundTrip<'de>,
> RoundTrip<'de> for (T0, T1, T2, T3, T4, T5, T6, T7, T8) {
    proof fn lemma_read_back(&self, w: Walk, cur: Cur) {
        let (x, y) = ((self.0, self.1, self.2, self.3, self.4, self.5), (self.6, self.7, self.8));
        let s = Self::node();
        assert(s.kids =~= <(T0, T1, T2, T3, T4, T5)>::node().kids + <(T6, T7, T8)>::node().kids);
        assert(self.val(w).kids =~= x.val(w.part(0)).kids + y.val(w.part(1)).kids);
        lemma_split_back::<(T0, T1, T2, T3, T4, T5), (T6, T7, T8)>(x, y, w, self.val(w), s, cur);
    }
}

impl<
    T0: Modeled,
    T1: Modeled,
    T2: Modeled,
    T3: Modeled,
    T4: Modeled,
    T5: Modeled,
    T6: Modeled,
    T7: Modeled,
    T8: Modeled,
    T9: Modeled,
> Modeled for (T0, T1, T2, T3, T4, T5, T6, T7, T8, T9) {
    open spec fn val(&self, w: Walk) -> Val {
        Val {
            head: Head::Tuple,
            kids: seq![
                self.0.val(w.part(0).part(0).part(0)),
                self.1.val(w.part(0).part(0).part(1)),
                self.2.val(w.part(0).part(0).part(2)),
                self.3.val(w.part(0).part(0).part(3)),
                self.4.val(w.part(0).part(1).part(0)),
                self.5.val(w.part(0).part(1).part(1)),
                self.6.val(w.part(1).part(0)),
                self.7.val(w.part(1).part(1)),
                self.8.val(w.part(1).part(2)),
                self.9.val(w.part(1).part(3)),
            ],
        }
    }

    open spec fn stands_for(&self, v: Val) -> bool {
        &&& v.head is Tuple
        &&& v.kids.len() == 10
        &&& self.0.stands_for(v.kids[0])
        &&& self.1.stands_for(v.kids[1])
        &&& self.2.stands_for(v.kids[2])
        &&& self.3.stands_for(v.kids[3])
        &&& self.4.stands_for(v.kids[4])
        &&& self.5.stands_for(v.kids[5])
        &&& self.6.stands_for(v.kids[6])
        &&& self.7.stands_for(v.kids[7])
        &&& self.8.stands_for(v.kids[8])
        &&& self.9.stands_for(v.kids[9])
    }
}

impl<
    T0: SerializeColumns,
    T1: SerializeColumns,
    T2: SerializeColumns,
    T3: SerializeColumns,
    T4: SerializeColumns,
    T5: SerializeColumns,
    T6: SerializeColumns,
    T7: SerializeColumns,
    T8: SerializeColumns,
    T9: SerializeColumns,
> SerializeColumns for (T0, T1, T2, T3, T4, T5, T6, T7, T8, T9) {
    open spec fn writes(&self) -> bool {
        &&& self.0.writes()
        &&& self.1.writes()
        &&& self.2.writes()
        &&& self.3.writes()
        &&& self.4.writes()
        &&& self.5.writes()
        &&& self.6.writes()
        &&& self.7.writes()
        &&& self.8.writes()
        &&& self.9.writes()
    }

    open spec fn refusal(&self) -> Option<Fault> {
        ((self.0, self.1, self.2, self.3, self.4, self.5), (self.6, self.7, self.8, self.9)).refusal()
    }

    open spec fn image(&self, w: Walk) -> Seq<Seq<u8>> {
        (self.0, self.1, self.2, self.3, self.4, self.5).image(w.part(0)) + (self.6, self.7, self.8, self.9).image(w.part(1))
    }

    proof fn lemma_image(&self, w: Walk, base: nat, row: Row) {
        let (x, y) = ((self.0, self.1, self.2, self.3, self.4, self.5), (self.6, self.7, self.8, self.9));
        let s = Self::node();
        assert(s.kids =~= <(T0, T1, T2, T3, T4, T5)>::node().kids + <(T6, T7, T8, T9)>::node().kids);
        assert(self.val(w).kids =~= x.val(w.part(0)).kids + y.val(w.part(1)).kids);
        lemma_split_image(&x, &y, w, self.val(w), s, base, row);
    }

    fn serialize_columns(&self, columns: &mut [Vec<u8>]) -> (result: Result<()>) {
        let parts = ((&self.0, &self.1, &self.2, &self.3, &self.4, &self.5), (&self.6, &self.7, &self.8, &self.9));
        proof {
            let s = Self::node();
            assert(s.kids =~= <(&T0, &T1, &T2, &T3, &T4, &T5)>::node().kids + <(&T6, &T7, &T8, &T9)>::node().kids);
            lemma_split_width(s, <(&T0, &T1, &T2, &T3, &T4, &T5)>::node(), <(&T6, &T7, &T8, &T9)>::node());
            lemma_width_2::<(&T0, &T1, &T2, &T3, &T4, &T5), (&T6, &T7, &T8, &T9)>();
            assert forall|w: Walk| #[trigger] parts.image(w) == self.image(w) by {
                assert(parts.image(w) =~= self.image(w));
            }
        }
        parts.serialize_columns(columns)
    }
}

impl<
    'de,
    T0: DeserializeColumns<'de>,
    T1: DeserializeColumns<'de>,
    T2: DeserializeColumns<'de>,
    T3: DeserializeColumns<'de>,
    T4: DeserializeColumns<'de>,
    T5: DeserializeColumns<'de>,
    T6: DeserializeColumns<'de>,
    T7: DeserializeColumns<'de>,
    T8: DeserializeColumns<'de>,
    T9: DeserializeColumns<'de>,
> DeserializeColumns<'de> for (T0, T1, T2, T3, T4, T5, T6, T7, T8, T9) {
    open spec fn sound() -> bool {
        <(T0, T1, T2, T3, T4, T5)>::sound() && <(T6, T7, T8, T9)>::sound()
    }

    open spec fn read(cur: Cur) -> std::result::Result<(Val, Cur), Fault> {
        flat(<((T0, T1, T2, T3, T4, T5), (T6, T7, T8, T9))>::read(cur))
    }

    proof fn lemma_read(base: nat, cur: Cur) {
        let s = Self::node();
        assert(s.kids =~= <(T0, T1, T2, T3, T4, T5)>::node().kids + <(T6, T7, T8, T9)>::node().kids);
        lemma_split_read::<(T0, T1, T2, T3, T4, T5), (T6, T7, T8, T9)>(s, base, cur);
    }

    fn deserialize_columns(cursors: &mut [ColumnCursor<'de>]) -> (result: Result<Self>) {
        proof {
            let s = Self::node();
            assert(s.kids =~= <(T0, T1, T2, T3, T4, T5)>::node().kids + <(T6, T7, T8, T9)>::node().kids);
            lemma_split_width(s, <(T0, T1, T2, T3, T4, T5)>::node(), <(T6, T7, T8, T9)>::node());
            lemma_width_2::<(T0, T1, T2, T3, T4, T5), (T6, T7, T8, T9)>();
        }
        match <((T0, T1, T2, T3, T4, T5), (T6, T7, T8, T9))>::deserialize_columns(cursors) {
            Ok((x, y)) => {
                let whole = (x.0, x.1, x.2, x.3, x.4, x.5, y.0, y.1, y.2, y.3);
                Ok(whole)
            },
            Err(error) => Err(error),
        }
    }
}

impl<
    'de,
    T0: RoundTrip<'de>,
    T1: RoundTrip<'de>,
    T2: RoundTrip<'de>,
    T3: RoundTrip<'de>,
    T4: RoundTrip<'de>,
    T5: RoundTrip<'de>,
    T6: RoundTrip<'de>,
    T7: RoundTrip<'de>,
    T8: RoundTrip<'de>,
    T9: RoundTrip<'de>,
> RoundTrip<'de> for (T0, T1, T2, T3, T4, T5, T6, T7, T8, T9) {
    proof fn lemma_read_back(&self, w: Walk, cur: Cur) {
        let (x, y) = ((self.0, self.1, self.2, self.3, self.4, self.5), (self.6, self.7, self.8, self.9));
        let s = Self::node();
        assert(s.kids =~= <(T0, T1, T2, T3, T4, T5)>::node().kids + <(T6, T7, T8, T9)>::node().kids);
        assert(self.val(w).kids =~= x.val(w.part(0)).kids + y.val(w.part(1)).kids);
        lemma_split_back::<(T0, T1, T2, T3, T4, T5), (T6, T7, T8, T9)>(x, y, w, self.val(w), s, cur);
    }
}

impl<
    T0: Modeled,
    T1: Modeled,
    T2: Modeled,
    T3: Modeled,
    T4: Modeled,
    T5: Modeled,
    T6: Modeled,
    T7: Modeled,
    T8: Modeled,
    T9: Modeled,
    T10: Modeled,
> Modeled for (T0, T1, T2, T3, T4, T5, T6, T7, T8, T9, T10) {
    open spec fn val(&self, w: Walk) -> Val {
        Val {
            head: Head::Tuple,
            kids: seq![
                self.0.val(w.part(0).part(0).part(0)),
                self.1.val(w.part(0).part(0).part(1)),
                self.2.val(w.part(0).part(0).part(2)),
                self.3.val(w.part(0).part(0).part(3)),
                self.4.val(w.part(0).part(1).part(0)),
                self.5.val(w.part(0).part(1).part(1)),
                self.6.val(w.part(1).part(0).part(0)),
                self.7.val(w.part(1).part(0).part(1)),
                self.8.val(w.part(1).part(0).part(2)),
                self.9.val(w.part(1).part(0).part(3)),
                self.10.val(w.part(1).part(1)),
            ],
        }
    }

    open spec fn stands_for(&self, v: Val) -> bool {
        &&& v.head is Tuple
        &&& v.kids.len() == 11
        &&& self.0.stands_for(v.kids[0])
        &&& self.1.stands_for(v.kids[1])
        &&& self.2.stands_for(v.kids[2])
        &&& self.3.stands_for(v.kids[3])
        &&& self.4.stands_for(v.kids[4])
        &&& self.5.stands_for(v.kids[5])
        &&& self.6.stands_for(v.kids[6])
        &&& self.7.stands_for(v.kids[7])
        &&& self.8.stands_for(v.kids[8])
        &&& self.9.stands_for(v.kids[9])
        &&& self.10.stands_for(v.kids[10])
    }
}

impl<
    T0: SerializeColumns,
    T1: SerializeColumns,
    T2: SerializeColumns,
    T3: SerializeColumns,
    T4: SerializeColumns,
    T5: SerializeColumns,
    T6: SerializeColumns,
    T7: SerializeColumns,
    T8: SerializeColumns,
    T9: SerializeColumns,
    T10: SerializeColumns,
> SerializeColumns for (T0, T1, T2, T3, T4, T5, T6, T7, T8, T9, T10) {
    open spec fn writes(&self) -> bool {
        &&& self.0.writes()
        &&& self.1.writes()
        &&& self.2.writes()
        &&& self.3.writes()
        &&& self.4.writes()
        &&& self.5.writes()
        &&& self.6.writes()
        &&& self.7.writes()
        &&& self.8.writes()
        &&& self.9.writes()
        &&& self.10.writes()
    }

    open spec fn refusal(&self) -> Option<Fault> {
        ((self.0, self.1, self.2, self.3, self.4, self.5), (self.6, self.7, self.8, self.9, self.10)).refusal()
    }

    open spec fn image(&self, w: Walk) -> Seq<Seq<u8>> {
        (self.0, self.1, self.2, self.3, self.4, self.5).image(w.part(0)) + (self.6, self.7, self.8, self.9, self.10).image(w.part(1))
    }

    proof fn lemma_image(&self, w: Walk, base: nat, row: Row) {
        let (x, y) = ((self.0, self.1, self.2, self.3, self.4, self.5), (self.6, self.7, self.8, self.9, self.10));
        let s = Self::node();
        assert(s.kids =~= <(T0, T1, T2, T3, T4, T5)>::node().kids + <(T6, T7, T8, T9, T10)>::node().kids);
        assert(self.val(w).kids =~= x.val(w.part(0)).kids + y.val(w.part(1)).kids);
        lemma_split_image(&x, &y, w, self.val(w), s, base, row);
    }

    fn serialize_columns(&self, columns: &mut [Vec<u8>]) -> (result: Result<()>) {
        let parts = ((&self.0, &self.1, &self.2, &self.3, &self.4, &self.5), (&self.6, &self.7, &self.8, &self.9, &self.10));
        proof {
            let s = Self::node();
            assert(s.kids =~= <(&T0, &T1, &T2, &T3, &T4, &T5)>::node().kids + <(&T6, &T7, &T8, &T9, &T10)>::node().kids);
            lemma_split_width(s, <(&T0, &T1, &T2, &T3, &T4, &T5)>::node(), <(&T6, &T7, &T8, &T9, &T10)>::node());
            lemma_width_2::<(&T0, &T1, &T2, &T3, &T4, &T5), (&T6, &T7, &T8, &T9, &T10)>();
            assert forall|w: Walk| #[trigger] parts.image(w) == self.image(w) by {
                assert(parts.image(w) =~= self.image(w));
            }
        }
        parts.serialize_columns(columns)
    }
}

impl<
    'de,
    T0: DeserializeColumns<'de>,
    T1: DeserializeColumns<'de>,
    T2: DeserializeColumns<'de>,
    T3: DeserializeColumns<'de>,
    T4: DeserializeColumns<'de>,
    T5: DeserializeColumns<'de>,
    T6: DeserializeColumns<'de>,
    T7: DeserializeColumns<'de>,
    T8: DeserializeColumns<'de>,
    T9: DeserializeColumns<'de>,
    T10: DeserializeColumns<'de>,
> DeserializeColumns<'de> for (T0, T1, T2, T3, T4, T5, T6, T7, T8, T9, T10) {
    open spec fn sound() -> bool {
        <(T0, T1, T2, T3, T4, T5)>::sound() && <(T6, T7, T8, T9, T10)>::sound()
    }

    open spec fn read(cur: Cur) -> std::result::Result<(Val, Cur), Fault> {
        flat(<((T0, T1, T2, T3, T4, T5), (T6, T7, T8, T9, T10))>::read(cur))
    }

    proof fn lemma_read(base: nat, cur: Cur) {
        let s = Self::node();
        assert(s.kids =~= <(T0, T1, T2, T3, T4, T5)>::node().kids + <(T6, T7, T8, T9, T10)>::node().kids);
        lemma_split_read::<(T0, T1, T2, T3, T4, T5), (T6, T7, T8, T9, T10)>(s, base, cur);
    }

    fn deserialize_columns(cursors: &mut [ColumnCursor<'de>]) -> (result: Result<Self>) {
        proof {
            let s = Self::node();
            assert(s.kids =~= <(T0, T1, T2, T3, T4, T5)>::node().kids + <(T6, T7, T8, T9, T10)>::node().kids);
            lemma_split_width(s, <(T0, T1, T2, T3, T4, T5)>::node(), <(T6, T7, T8, T9, T10)>::node());
            lemma_width_2::<(T0, T1, T2, T3, T4, T5), (T6, T7, T8, T9, T10)>();
        }
        match <((T0, T1, T2, T3, T4, T5), (T6, T7, T8, T9, T10))>::deserialize_columns(cursors) {
            Ok((x, y)) => {
                let whole = (x.0, x.1, x.2, x.3, x.4, x.5, y.0, y.1, y.2, y.3, y.4);
                Ok(whole)
            },
            Err(error) => Err(error),
        }
    }
}

impl<
    'de,
    T0: RoundTrip<'de>,
    T1: RoundTrip<'de>,
    T2: RoundTrip<'de>,
    T3: RoundTrip<'de>,
    T4: RoundTrip<'de>,
    T5: RoundTrip<'de>,
    T6: RoundTrip<'de>,
    T7: RoundTrip<'de>,
    T8: RoundTrip<'de>,
    T9: RoundTrip<'de>,
    T10: RoundTrip<'de>,
> RoundTrip<'de> for (T0, T1, T2, T3, T4, T5, T6, T7, T8, T9, T10) {
    proof fn lemma_read_back(&self, w: Walk, cur: Cur) {
        let (x, y) = ((self.0, self.1, self.2, self.3, self.4, self.5), (self.6, self.7, self.8, self.9, self.10));
        let s = Self::node();
        assert(s.kids =~= <(T0, T1, T2, T3, T4, T5)>::node().kids + <(T6, T7, T8, T9, T10)>::node().kids);
        assert(self.val(w).kids =~= x.val(w.part(0)).kids + y.val(w.part(1)).kids);
        lemma_split_back::<(T0, T1, T2, T3, T4, T5), (T6, T7, T8, T9, T10)>(x, y, w, self.val(w), s, cur);
    }
}

impl<
    T0: Modeled,
    T1: Modeled,
    T2: Modeled,
    T3: Modeled,
    T4: Modeled,
    T5: Modeled,
    T6: Modeled,
    T7: Modeled,
    T8: Modeled,
    T9: Modeled,
    T10: Modeled,
    T11: Modeled,
> Modeled for (T0, T1, T2, T3, T4, T5, T6, T7, T8, T9, T10, T11) {
    open spec fn val(&self, w: Walk) -> Val {
        Val {
            head: Head::Tuple,
            kids: seq![
                self.0.val(w.part(0).part(0).part(0)),
                self.1.val(w.part(0).part(0).part(1)),
                self.2.val(w.part(0).part(0).part(2)),
                self.3.val(w.part(0).part(0).part(3)),
                self.4.val(w.part(0).part(1).part(0)),
                self.5.val(w.part(0).part(1).part(1)),
                self.6.val(w.part(1).part(0).part(0)),
                self.7.val(w.part(1).part(0).part(1)),
                self.8.val(w.part(1).part(0).part(2)),
                self.9.val(w.part(1).part(0).part(3)),
                self.10.val(w.part(1).part(1).part(0)),
                self.11.val(w.part(1).part(1).part(1)),
            ],
        }
    }

    open spec fn stands_for(&self, v: Val) -> bool {
        &&& v.head is Tuple
        &&& v.kids.len() == 12
        &&& self.0.stands_for(v.kids[0])
        &&& self.1.stands_for(v.kids[1])
        &&& self.2.stands_for(v.kids[2])
        &&& self.3.stands_for(v.kids[3])
        &&& self.4.stands_for(v.kids[4])
        &&& self.5.stands_for(v.kids[5])
        &&& self.6.stands_for(v.kids[6])
        &&& self.7.stands_for(v.kids[7])
        &&& self.8.stands_for(v.kids[8])
        &&& self.9.stands_for(v.kids[9])
        &&& self.10.stands_for(v.kids[10])
        &&& self.11.stands_for(v.kids[11])
    }
}

impl<
    T0: SerializeColumns,
    T1: SerializeColumns,
    T2: SerializeColumns,
    T3: SerializeColumns,
    T4: SerializeColumns,
    T5: SerializeColumns,
    T6: SerializeColumns,
    T7: SerializeColumns,
    T8: SerializeColumns,
    T9: SerializeColumns,
    T10: SerializeColumns,
    T11: SerializeColumns,
> SerializeColumns for (T0, T1, T2, T3, T4, T5, T6, T7, T8, T9, T10, T11) {
    open spec fn writes(&self) -> bool {
        &&& self.0.writes()
        &&& self.1.writes()
        &&& self.2.writes()
        &&& self.3.writes()
        &&& self.4.writes()
        &&& self.5.writes()
        &&& self.6.writes()
        &&& self.7.writes()
        &&& self.8.writes()
        &&& self.9.writes()
        &&& self.10.writes()
        &&& self.11.writes()
    }

    open spec fn refusal(&self) -> Option<Fault> {
        ((self.0, self.1, self.2, self.3, self.4, self.5), (self.6, self.7, self.8, self.9, self.10, self.11)).refusal()
    }

    open spec fn image(&self, w: Walk) -> Seq<Seq<u8>> {
        (self.0, self.1, self.2, self.3, self.4, self.5).image(w.part(0)) + (self.6, self.7, self.8, self.9, self.10, self.11).image(w.part(1))
    }

    proof fn lemma_image(&self, w: Walk, base: nat, row: Row) {
        let (x, y) = ((self.0, self.1, self.2, self.3, self.4, self.5), (self.6, self.7, self.8, self.9, self.10, self.11));
        let s = Self::node();
        assert(s.kids =~= <(T0, T1, T2, T3, T4, T5)>::node().kids + <(T6, T7, T8, T9, T10, T11)>::node().kids);
        assert(self.val(w).kids =~= x.val(w.part(0)).kids + y.val(w.part(1)).kids);
        lemma_split_image(&x, &y, w, self.val(w), s, base, row);
    }

    fn serialize_columns(&self, columns: &mut [Vec<u8>]) -> (result: Result<()>) {
        let parts = ((&self.0, &self.1, &self.2, &self.3, &self.4, &self.5), (&self.6, &self.7, &self.8, &self.9, &self.10, &self.11));
        proof {
            let s = Self::node();
            assert(s.kids =~= <(&T0, &T1, &T2, &T3, &T4, &T5)>::node().kids + <(&T6, &T7, &T8, &T9, &T10, &T11)>::node().kids);
            lemma_split_width(s, <(&T0, &T1, &T2, &T3, &T4, &T5)>::node(), <(&T6, &T7, &T8, &T9, &T10, &T11)>::node());
            lemma_width_2::<(&T0, &T1, &T2, &T3, &T4, &T5), (&T6, &T7, &T8, &T9, &T10, &T11)>();
            assert forall|w: Walk| #[trigger] parts.image(w) == self.image(w) by {
                assert(parts.image(w) =~= self.image(w));
            }
        }
        parts.serialize_columns(columns)
    }
}

impl<
    'de,
    T0: DeserializeColumns<'de>,
    T1: DeserializeColumns<'de>,
    T2: DeserializeColumns<'de>,
    T3: DeserializeColumns<'de>,
    T4: DeserializeColumns<'de>,
    T5: DeserializeColumns<'de>,
    T6: DeserializeColumns<'de>,
    T7: DeserializeColumns<'de>,
    T8: DeserializeColumns<'de>,
    T9: DeserializeColumns<'de>,
    T10: DeserializeColumns<'de>,
    T11: DeserializeColumns<'de>,
> DeserializeColumns<'de> for (T0, T1, T2, T3, T4, T5, T6, T7, T8, T9, T10, T11) {
    open spec fn sound() -> bool {
        <(T0, T1, T2, T3, T4, T5)>::sound() && <(T6, T7, T8, T9, T10, T11)>::sound()
    }

    open spec fn read(cur: Cur) -> std::result::Result<(Val, Cur), Fault> {
        flat(<((T0, T1, T2, T3, T4, T5), (T6, T7, T8, T9, T10, T11))>::read(cur))
    }

    proof fn lemma_read(base: nat, cur: Cur) {
        let s = Self::node();
        assert(s.kids =~= <(T0, T1, T2, T3, T4, T5)>::node().kids + <(T6, T7, T8, T9, T10, T11)>::node().kids);
        lemma_split_read::<(T0, T1, T2, T3, T4, T5), (T6, T7, T8, T9, T10, T11)>(s, base, cur);
    }

    fn deserialize_columns(cursors: &mut [ColumnCursor<'de>]) -> (result: Result<Self>) {
        proof {
            let s = Self::node();
            assert(s.kids =~= <(T0, T1, T2, T3, T4, T5)>::node().kids + <(T6, T7, T8, T9, T10, T11)>::node().kids);
            lemma_split_width(s, <(T0, T1, T2, T3, T4, T5)>::node(), <(T6, T7, T8, T9, T10, T11)>::node());
            lemma_width_2::<(T0, T1, T2, T3, T4, T5), (T6, T7, T8, T9, T10, T11)>();
        }
        match <((T0, T1, T2, T3, T4, T5), (T6, T7, T8, T9, T10, T11))>::deserialize_columns(cursors) {
            Ok((x, y)) => {
                let whole = (x.0, x.1, x.2, x.3, x.4, x.5, y.0, y.1, y.2, y.3, y.4, y.5);
                Ok(whole)
            },
            Err(error) => Err(error),
        }
    }
}

impl<
    'de,
    T0: RoundTrip<'de>,
    T1: RoundTrip<'de>,
    T2: RoundTrip<'de>,
    T3: RoundTrip<'de>,
    T4: RoundTrip<'de>,
    T5: RoundTrip<'de>,
    T6: RoundTrip<'de>,
    T7: RoundTrip<'de>,
    T8: RoundTrip<'de>,
    T9: RoundTrip<'de>,
    T10: RoundTrip<'de>,
    T11: RoundTrip<'de>,
> RoundTrip<'de> for (T0, T1, T2, T3, T4, T5, T6, T7, T8, T9, T10, T11) {
    proof fn lemma_read_back(&self, w: Walk, cur: Cur) {
        let (x, y) = ((self.0, self.1, self.2, self.3, self.4, self.5), (self.6, self.7, self.8, self.9, self.10, self.11));
        let s = Self::node();
        assert(s.kids =~= <(T0, T1, T2, T3, T4, T5)>::node().kids + <(T6, T7, T8, T9, T10, T11)>::node().kids);
        assert(self.val(w).kids =~= x.val(w.part(0)).kids + y.val(w.part(1)).kids);
        lemma_split_back::<(T0, T1, T2, T3, T4, T5), (T6, T7, T8, T9, T10, T11)>(x, y, w, self.val(w), s, cur);
    }
}

impl<
    T0: Modeled,
    T1: Modeled,
    T2: Modeled,
    T3: Modeled,
    T4: Modeled,
    T5: Modeled,
    T6: Modeled,
    T7: Modeled,
    T8: Modeled,
    T9: Modeled,
    T10: Modeled,
    T11: Modeled,
    T12: Modeled,
> Modeled for (T0, T1, T2, T3, T4, T5, T6, T7, T8, T9, T10, T11, T12) {
    open spec fn val(&self, w: Walk) -> Val {
        Val {
            head: Head::Tuple,
            kids: seq![
                self.0.val(w.part(0).part(0).part(0).part(0)),
                self.1.val(w.part(0).part(0).part(0).part(1)),
                self.2.val(w.part(0).part(0).part(0).part(2)),
                self.3.val(w.part(0).part(0).part(0).part(3)),
                self.4.val(w.part(0).part(0).part(1).part(0)),
                self.5.val(w.part(0).part(0).part(1).part(1)),
                self.6.val(w.part(0).part(1).part(0).part(0)),
                self.7.val(w.part(0).part(1).part(0).part(1)),
                self.8.val(w.part(0).part(1).part(0).part(2)),
                self.9.val(w.part(0).part(1).part(0).part(3)),
                self.10.val(w.part(0).part(1).part(1).part(0)),
                self.11.val(w.part(0).part(1).part(1).part(1)),
                self.12.val(w.part(1).part(0)),
            ],
        }
    }

    open spec fn stands_for(&self, v: Val) -> bool {
        &&& v.head is Tuple
        &&& v.kids.len() == 13
        &&& self.0.stands_for(v.kids[0])
        &&& self.1.stands_for(v.kids[1])
        &&& self.2.stands_for(v.kids[2])
        &&& self.3.stands_for(v.kids[3])
        &&& self.4.stands_for(v.kids[4])
        &&& self.5.stands_for(v.kids[5])
        &&& self.6.stands_for(v.kids[6])
        &&& self.7.stands_for(v.kids[7])
        &&& self.8.stands_for(v.kids[8])
        &&& self.9.stands_for(v.kids[9])
        &&& self.10.stands_for(v.kids[10])
        &&& self.11.stands_for(v.kids[11])
        &&& self.12.stands_for(v.kids[12])
    }
}

impl<
    T0: SerializeColumns,
    T1: SerializeColumns,
    T2: SerializeColumns,
    T3: SerializeColumns,
    T4: SerializeColumns,
    T5: SerializeColumns,
    T6: SerializeColumns,
    T7: SerializeColumns,
    T8: SerializeColumns,
    T9: SerializeColumns,
    T10: SerializeColumns,
    T11: SerializeColumns,
    T12: SerializeColumns,
> SerializeColumns for (T0, T1, T2, T3, T4, T5, T6, T7, T8, T9, T10, T11, T12) {
    open spec fn writes(&self) -> bool {
        &&& self.0.writes()
        &&& self.1.writes()
        &&& self.2.writes()
        &&& self.3.writes()
        &&& self.4.writes()
        &&& self.5.writes()
        &&& self.6.writes()
        &&& self.7.writes()
        &&& self.8.writes()
        &&& self.9.writes()
        &&& self.10.writes()
        &&& self.11.writes()
        &&& self.12.writes()
    }

    open spec fn refusal(&self) -> Option<Fault> {
        ((self.0, self.1, self.2, self.3, self.4, self.5, self.6, self.7, self.8, self.9, self.10, self.11), (self.12,)).refusal()
    }

    open spec fn image(&self, w: Walk) -> Seq<Seq<u8>> {
        (self.0, self.1, self.2, self.3, self.4, self.5, self.6, self.7, self.8, self.9, self.10, self.11).image(w.part(0)) + (self.12,).image(w.part(1))
    }

    proof fn lemma_image(&self, w: Walk, base: nat, row: Row) {
        let (x, y) = ((self.0, self.1, self.2, self.3, self.4, self.5, self.6, self.7, self.8, self.9, self.10, self.11), (self.12,));
        let s = Self::node();
        assert(s.kids =~= <(T0, T1, T2, T3, T4, T5, T6, T7, T8, T9, T10, T11)>::node().kids + <(T12,)>::node().kids);
        assert(self.val(w).kids =~= x.val(w.part(0)).kids + y.val(w.part(1)).kids);
        lemma_split_image(&x, &y, w, self.val(w), s, base, row);
    }

    fn serialize_columns(&self, columns: &mut [Vec<u8>]) -> (result: Result<()>) {
        let parts = ((&self.0, &self.1, &self.2, &self.3, &self.4, &self.5, &self.6, &self.7, &self.8, &self.9, &self.10, &self.11), (&self.12,));
        proof {
            let s = Self::node();
            assert(s.kids =~= <(&T0, &T1, &T2, &T3, &T4, &T5, &T6, &T7, &T8, &T9, &T10, &T11)>::node().kids + <(&T12,)>::node().kids);
            lemma_split_width(s, <(&T0, &T1, &T2, &T3, &T4, &T5, &T6, &T7, &T8, &T9, &T10, &T11)>::node(), <(&T12,)>::node());
            lemma_width_2::<(&T0, &T1, &T2, &T3, &T4, &T5, &T6, &T7, &T8, &T9, &T10, &T11), (&T12,)>();
            assert forall|w: Walk| #[trigger] parts.image(w) == self.image(w) by {
                assert(parts.image(w) =~= self.image(w));
            }
        }
        parts.serialize_columns(columns)
    }
}

impl<
    'de,
    T0: DeserializeColumns<'de>,
    T1: DeserializeColumns<'de>,
    T2: DeserializeColumns<'de>,
    T3: DeserializeColumns<'de>,
    T4: DeserializeColumns<'de>,
    T5: DeserializeColumns<'de>,
    T6: DeserializeColumns<'de>,
    T7: DeserializeColumns<'de>,
    T8: DeserializeColumns<'de>,
    T9: DeserializeColumns<'de>,
    T10: DeserializeColumns<'de>,
    T11: DeserializeColumns<'de>,
    T12: DeserializeColumns<'de>,
> DeserializeColumns<'de> for (T0, T1, T2, T3, T4, T5, T6, T7, T8, T9, T10, T11, T12) {
    open spec fn sound() -> bool {
        <(T0, T1, T2, T3, T4, T5, T6, T7, T8, T9, T10, T11)>::sound() && <(T12,)>::sound()
    }

    open spec fn read(cur: Cur) -> std::result::Result<(Val, Cur), Fault> {
        flat(<((T0, T1, T2, T3, T4, T5, T6, T7, T8, T9, T10, T11), (T12,))>::read(cur))
    }

    proof fn lemma_read(base: nat, cur: Cur) {
        let s = Self::node();
        assert(s.kids =~= <(T0, T1, T2, T3, T4, T5, T6, T7, T8, T9, T10, T11)>::node().kids + <(T12,)>::node().kids);
        lemma_split_read::<(T0, T1, T2, T3, T4, T5, T6, T7, T8, T9, T10, T11), (T12,)>(s, base, cur);
    }

    fn deserialize_columns(cursors: &mut [ColumnCursor<'de>]) -> (result: Result<Self>) {
        proof {
            let s = Self::node();
            assert(s.kids =~= <(T0, T1, T2, T3, T4, T5, T6, T7, T8, T9, T10, T11)>::node().kids + <(T12,)>::node().kids);
            lemma_split_width(s, <(T0, T1, T2, T3, T4, T5, T6, T7, T8, T9, T10, T11)>::node(), <(T12,)>::node());
            lemma_width_2::<(T0, T1, T2, T3, T4, T5, T6, T7, T8, T9, T10, T11), (T12,)>();
        }
        match <((T0, T1, T2, T3, T4, T5, T6, T7, T8, T9, T10, T11), (T12,))>::deserialize_columns(cursors) {
            Ok((x, y)) => {
                let whole = (x.0, x.1, x.2, x.3, x.4, x.5, x.6, x.7, x.8, x.9, x.10, x.11, y.0);
                Ok(whole)
            },
            Err(error) => Err(error),
        }
    }
}

impl<
    'de,
    T0: RoundTrip<'de>,
    T1: RoundTrip<'de>,
    T2: RoundTrip<'de>,
    T3: RoundTrip<'de>,
    T4: RoundTrip<'de>,
    T5: RoundTrip<'de>,
    T6: RoundTrip<'de>,
    T7: RoundTrip<'de>,
    T8: RoundTrip<'de>,
    T9: RoundTrip<'de>,
    T10: RoundTrip<'de>,
    T11: RoundTrip<'de>,
    T12: RoundTrip<'de>,
> RoundTrip<'de> for (T0, T1, T2, T3, T4, T5, T6, T7, T8, T9, T10, T11, T12) {
    proof fn lemma_read_back(&self, w: Walk, cur: Cur) {
        let (x, y) = ((self.0, self.1, self.2, self.3, self.4, self.5, self.6, self.7, self.8, self.9, self.10, self.11), (self.12,));
        let s = Self::node();
        assert(s.kids =~= <(T0, T1, T2, T3, T4, T5, T6, T7, T8, T9, T10, T11)>::node().kids + <(T12,)>::node().kids);
        assert(self.val(w).kids =~= x.val(w.part(0)).kids + y.val(w.part(1)).kids);
        lemma_split_back::<(T0, T1, T2, T3, T4, T5, T6, T7, T8, T9, T10, T11), (T12,)>(x, y, w, self.val(w), s, cur);
    }
}

impl<
    T0: Modeled,
    T1: Modeled,
    T2: Modeled,
    T3: Modeled,
    T4: Modeled,
    T5: Modeled,
    T6: Modeled,
    T7: Modeled,
    T8: Modeled,
    T9: Modeled,
    T10: Modeled,
    T11: Modeled,
    T12: Modeled,
    T13: Modeled,
> Modeled for (T0, T1, T2, T3, T4, T5, T6, T7, T8, T9, T10, T11, T12, T13) {
    open spec fn val(&self, w: Walk) -> Val {
        Val {
            head: Head::Tuple,
            kids: seq![
                self.0.val(w.part(0).part(0).part(0).part(0)),
                self.1.val(w.part(0).part(0).part(0).part(1)),
                self.2.val(w.part(0).part(0).part(0).part(2)),
                self.3.val(w.part(0).part(0).part(0).part(3)),
                self.4.val(w.part(0).part(0).part(1).part(0)),
                self.5.val(w.part(0).part(0).part(1).part(1)),
                self.6.val(w.part(0).part(1).part(0).part(0)),
                self.7.val(w.part(0).part(1).part(0).part(1)),
                self.8.val(w.part(0).part(1).part(0).part(2)),
                self.9.val(w.part(0).part(1).part(0).part(3)),
                self.10.val(w.part(0).part(1).part(1).part(0)),
                self.11.val(w.part(0).part(1).part(1).part(1)),
                self.12.val(w.part(1).part(0)),
                self.13.val(w.part(1).part(1)),
            ],
        }
    }

    open spec fn stands_for(&self, v: Val) -> bool {
        &&& v.head is Tuple
        &&& v.kids.len() == 14
        &&& self.0.stands_for(v.kids[0])
        &&& self.1.stands_for(v.kids[1])
        &&& self.2.stands_for(v.kids[2])
        &&& self.3.stands_for(v.kids[3])
        &&& self.4.stands_for(v.kids[4])
        &&& self.5.stands_for(v.kids[5])
        &&& self.6.stands_for(v.kids[6])
        &&& self.7.stands_for(v.kids[7])
        &&& self.8.stands_for(v.kids[8])
        &&& self.9.stands_for(v.kids[9])
        &&& self.10.stands_for(v.kids[10])
        &&& self.11.stands_for(v.kids[11])
        &&& self.12.stands_for(v.kids[12])
        &&& self.13.stands_for(v.kids[13])
    }
}

impl<
    T0: SerializeColumns,
    T1: SerializeColumns,
    T2: SerializeColumns,
    T3: SerializeColumns,
    T4: SerializeColumns,
    T5: SerializeColumns,
    T6: SerializeColumns,
    T7: SerializeColumns,
    T8: SerializeColumns,
    T9: SerializeColumns,
    T10: SerializeColumns,
    T11: SerializeColumns,
    T12: SerializeColumns,
    T13: SerializeColumns,
> SerializeColumns for (T0, T1, T2, T3, T4, T5, T6, T7, T8, T9, T10, T11, T12, T13) {
    open spec fn writes(&self) -> bool {
        &&& self.0.writes()
        &&& self.1.writes()
        &&& self.2.writes()
        &&& self.3.writes()
        &&& self.4.writes()
        &&& self.5.writes()
        &&& self.6.writes()
        &&& self.7.writes()
        &&& self.8.writes()
        &&& self.9.writes()
        &&& self.10.writes()
        &&& self.11.writes()
        &&& self.12.writes()
        &&& self.13.writes()
    }

    open spec fn refusal(&self) -> Option<Fault> {
        ((self.0, self.1, self.2, self.3, self.4, self.5, self.6, self.7, self.8, self.9, self.10, self.11), (self.12, self.13)).refusal()
    }

    open spec fn image(&self, w: Walk) -> Seq<Seq<u8>> {
        (self.0, self.1, self.2, self.3, self.4, self.5, self.6, self.7, self.8, self.9, self.10, self.11).image(w.part(0)) + (self.12, self.13).image(w.part(1))
    }

    proof fn lemma_image(&self, w: Walk, base: nat, row: Row) {
        let (x, y) = ((self.0, self.1, self.2, self.3, self.4, self.5, self.6, self.7, self.8, self.9, self.10, self.11), (self.12, self.13));
        let s = Self::node();
        assert(s.kids =~= <(T0, T1, T2, T3, T4, T5, T6, T7, T8, T9, T10, T11)>::node().kids + <(T12, T13)>::node().kids);
        assert(self.val(w).kids =~= x.val(w.part(0)).kids + y.val(w.part(1)).kids);
        lemma_split_image(&x, &y, w, self.val(w), s, base, row);
    }

    fn serialize_columns(&self, columns: &mut [Vec<u8>]) -> (result: Result<()>) {
        let parts = ((&self.0, &self.1, &self.2, &self.3, &self.4, &self.5, &self.6, &self.7, &self.8, &self.9, &self.10, &self.11), (&self.12, &self.13));
        proof {
            let s = Self::node();
            assert(s.kids =~= <(&T0, &T1, &T2, &T3, &T4, &T5, &T6, &T7, &T8, &T9, &T10, &T11)>::node().kids + <(&T12, &T13)>::node().kids);
            lemma_split_width(s, <(&T0, &T1, &T2, &T3, &T4, &T5, &T6, &T7, &T8, &T9, &T10, &T11)>::node(), <(&T12, &T13)>::node());
            lemma_width_2::<(&T0, &T1, &T2, &T3, &T4, &T5, &T6, &T7, &T8, &T9, &T10, &T11), (&T12, &T13)>();
            assert forall|w: Walk| #[trigger] parts.image(w) == self.image(w) by {
                assert(parts.image(w) =~= self.image(w));
            }
        }
        parts.serialize_columns(columns)
    }
}

impl<
    'de,
    T0: DeserializeColumns<'de>,
    T1: DeserializeColumns<'de>,
    T2: DeserializeColumns<'de>,
    T3: DeserializeColumns<'de>,
    T4: DeserializeColumns<'de>,
    T5: DeserializeColumns<'de>,
    T6: DeserializeColumns<'de>,
    T7: DeserializeColumns<'de>,
    T8: DeserializeColumns<'de>,
    T9: DeserializeColumns<'de>,
    T10: DeserializeColumns<'de>,
    T11: DeserializeColumns<'de>,
    T12: DeserializeColumns<'de>,
    T13: DeserializeColumns<'de>,
> DeserializeColumns<'de> for (T0, T1, T2, T3, T4, T5, T6, T7, T8, T9, T10, T11, T12, T13) {
    open spec fn sound() -> bool {
        <(T0, T1, T2, T3, T4, T5, T6, T7, T8, T9, T10, T11)>::sound() && <(T12, T13)>::sound()
    }

    open spec fn read(cur: Cur) -> std::result::Result<(Val, Cur), Fault> {
        flat(<((T0, T1, T2, T3, T4, T5, T6, T7, T8, T9, T10, T11), (T12, T13))>::read(cur))
    }

    proof fn lemma_read(base: nat, cur: Cur) {
        let s = Self::node();
        assert(s.kids =~= <(T0, T1, T2, T3, T4, T5, T6, T7, T8, T9, T10, T11)>::node().kids + <(T12, T13)>::node().kids);
        lemma_split_read::<(T0, T1, T2, T3, T4, T5, T6, T7, T8, T9, T10, T11), (T12, T13)>(s, base, cur);
    }

    fn deserialize_columns(cursors: &mut [ColumnCursor<'de>]) -> (result: Result<Self>) {
        proof {
            let s = Self::node();
            assert(s.kids =~= <(T0, T1, T2, T3, T4, T5, T6, T7, T8, T9, T10, T11)>::node().kids + <(T12, T13)>::node().kids);
            lemma_split_width(s, <(T0, T1, T2, T3, T4, T5, T6, T7, T8, T9, T10, T11)>::node(), <(T12, T13)>::node());
            lemma_width_2::<(T0, T1, T2, T3, T4, T5, T6, T7, T8, T9, T10, T11), (T12, T13)>();
        }
        match <((T0, T1, T2, T3, T4, T5, T6, T7, T8, T9, T10, T11), (T12, T13))>::deserialize_columns(cursors) {
            Ok((x, y)) => {
                let whole = (x.0, x.1, x.2, x.3, x.4, x.5, x.6, x.7, x.8, x.9, x.10, x.11, y.0, y.1);
                Ok(whole)
            },
            Err(error) => Err(error),
        }
    }
}

impl<
    'de,
    T0: RoundTrip<'de>,
    T1: RoundTrip<'de>,
    T2: RoundTrip<'de>,
    T3: RoundTrip<'de>,
    T4: RoundTrip<'de>,
    T5: RoundTrip<'de>,
    T6: RoundTrip<'de>,
    T7: RoundTrip<'de>,
    T8: RoundTrip<'de>,
    T9: RoundTrip<'de>,
    T10: RoundTrip<'de>,
    T11: RoundTrip<'de>,
    T12: RoundTrip<'de>,
    T13: RoundTrip<'de>,
> RoundTrip<'de> for (T0, T1, T2, T3, T4, T5, T6, T7, T8, T9, T10, T11, T12, T13) {
    proof fn lemma_read_back(&self, w: Walk, cur: Cur) {
        let (x, y) = ((self.0, self.1, self.2, self.3, self.4, self.5, self.6, self.7, self.8, self.9, self.10, self.11), (self.12, self.13));
        let s = Self::node();
        assert(s.kids =~= <(T0, T1, T2, T3, T4, T5, T6, T7, T8, T9, T10, T11)>::node().kids + <(T12, T13)>::node().kids);
        assert(self.val(w).kids =~= x.val(w.part(0)).kids + y.val(w.part(1)).kids);
        lemma_split_back::<(T0, T1, T2, T3, T4, T5, T6, T7, T8, T9, T10, T11), (T12, T13)>(x, y, w, self.val(w), s, cur);
    }
}

impl<
    T0: Modeled,
    T1: Modeled,
    T2: Modeled,
    T3: Modeled,
    T4: Modeled,
    T5: Modeled,
    T6: Modeled,
    T7: Modeled,
    T8: Modeled,
    T9: Modeled,
    T10: Modeled,
    T11: Modeled,
    T12: Modeled,
    T13: Modeled,
    T14: Modeled,
> Modeled for (T0, T1, T2, T3, T4, T5, T6, T7, T8, T9, T10, T11, T12, T13, T14) {
    open spec fn val(&self, w: Walk) -> Val {
        Val {
            head: Head::Tuple,
            kids: seq![
                self.0.val(w.part(0).part(0).part(0).part(0)),
                self.1.val(w.part(0).part(0).part(0).part(1)),
                self.2.val(w.part(0).part(0).part(0).part(2)),
                self.3.val(w.part(0).part(0).part(0).part(3)),
                self.4.val(w.part(0).part(0).part(1).part(0)),
                self.5.val(w.part(0).part(0).part(1).part(1)),
                self.6.val(w.part(0).part(1).part(0).part(0)),
                self.7.val(w.part(0).part(1).part(0).part(1)),
                self.8.val(w.part(0).part(1).part(0).part(2)),
                self.9.val(w.part(0).part(1).part(0).part(3)),
                self.10.val(w.part(0).part(1).part(1).part(0)),
                self.11.val(w.part(0).part(1).part(1).part(1)),
                self.12.val(w.part(1).part(0)),
                self.13.val(w.part(1).part(1)),
                self.14.val(w.part(1).part(2)),
            ],
        }
    }

    open spec fn stands_for(&self, v: Val) -> bool {
        &&& v.head is Tuple
        &&& v.kids.len() == 15
        &&& self.0.stands_for(v.kids[0])
        &&& self.1.stands_for(v.kids[1])
        &&& self.2.stands_for(v.kids[2])
        &&& self.3.stands_for(v.kids[3])
        &&& self.4.stands_for(v.kids[4])
        &&& self.5.stands_for(v.kids[5])
        &&& self.6.stands_for(v.kids[6])
        &&& self.7.stands_for(v.kids[7])
        &&& self.8.stands_for(v.kids[8])
        &&& self.9.stands_for(v.kids[9])
        &&& self.10.stands_for(v.kids[10])
        &&& self.11.stands_for(v.kids[11])
        &&& self.12.stands_for(v.kids[12])
        &&& self.13.stands_for(v.kids[13])
        &&& self.14.stands_for(v.kids[14])
    }
}

impl<
    T0: SerializeColumns,
    T1: SerializeColumns,
    T2: SerializeColumns,
    T3: SerializeColumns,
    T4: SerializeColumns,
    T5: SerializeColumns,
    T6: SerializeColumns,
    T7: SerializeColumns,
    T8: SerializeColumns,
    T9: SerializeColumns,
    T10: SerializeColumns,
    T11: SerializeColumns,
    T12: SerializeColumns,
    T13: SerializeColumns,
    T14: SerializeColumns,
> SerializeColumns for (T0, T1, T2, T3, T4, T5, T6, T7, T8, T9, T10, T11, T12, T13, T14) {
    open spec fn writes(&self) -> bool {
        &&& self.0.writes()
        &&& self.1.writes()
        &&& self.2.writes()
        &&& self.3.writes()
        &&& self.4.writes()
        &&& self.5.writes()
        &&& self.6.writes()
        &&& self.7.writes()
        &&& self.8.writes()
        &&& self.9.writes()
        &&& self.10.writes()
        &&& self.11.writes()
        &&& self.12.writes()
        &&& self.13.writes()
        &&& self.14.writes()
    }

    open spec fn refusal(&self) -> Option<Fault> {
        ((self.0, self.1, self.2, self.3, self.4, self.5, self.6, self.7, self.8, self.9, self.10, self.11), (self.12, self.13, self.14)).refusal()
    }

    open spec fn image(&self, w: Walk) -> Seq<Seq<u8>> {
        (self.0, self.1, self.2, self.3, self.4, self.5, self.6, self.7, self.8, self.9, self.10, self.11).image(w.part(0)) + (self.12, self.13, self.14).image(w.part(1))
    }

    proof fn lemma_image(&self, w: Walk, base: nat, row: Row) {
        let (x, y) = ((self.0, self.1, self.2, self.3, self.4, self.5, self.6, self.7, self.8, self.9, self.10, self.11), (self.12, self.13, self.14));
        let s = Self::node();
        assert(s.kids =~= <(T0, T1, T2, T3, T4, T5, T6, T7, T8, T9, T10, T11)>::node().kids + <(T12, T13, T14)>::node().kids);
        assert(self.val(w).kids =~= x.val(w.part(0)).kids + y.val(w.part(1)).kids);
        lemma_split_image(&x, &y, w, self.val(w), s, base, row);
    }

    fn serialize_columns(&self, columns: &mut [Vec<u8>]) -> (result: Result<()>) {
        let parts = ((&self.0, &self.1, &self.2, &self.3, &self.4, &self.5, &self.6, &self.7, &self.8, &self.9, &self.10, &self.11), (&self.12, &self.13, &self.14));
        proof {
            let s = Self::node();
            assert(s.kids =~= <(&T0, &T1, &T2, &T3, &T4, &T5, &T6, &T7, &T8, &T9, &T10, &T11)>::node().kids + <(&T12, &T13, &T14)>::node().kids);
            lemma_split_width(s, <(&T0, &T1, &T2, &T3, &T4, &T5, &T6, &T7, &T8, &T9, &T10, &T11)>::node(), <(&T12, &T13, &T14)>::node());
            lemma_width_2::<(&T0, &T1, &T2, &T3, &T4, &T5, &T6, &T7, &T8, &T9, &T10, &T11), (&T12, &T13, &T14)>();
            assert forall|w: Walk| #[trigger] parts.image(w) == self.image(w) by {
                assert(parts.image(w) =~= self.image(w));
            }
        }
        parts.serialize_columns(columns)
    }
}

impl<
    'de,
    T0: DeserializeColumns<'de>,
    T1: DeserializeColumns<'de>,
    T2: DeserializeColumns<'de>,
    T3: DeserializeColumns<'de>,
    T4: DeserializeColumns<'de>,
    T5: DeserializeColumns<'de>,
    T6: DeserializeColumns<'de>,
    T7: DeserializeColumns<'de>,
    T8: DeserializeColumns<'de>,
    T9: DeserializeColumns<'de>,
    T10: DeserializeColumns<'de>,
    T11: DeserializeColumns<'de>,
    T12: DeserializeColumns<'de>,
    T13: DeserializeColumns<'de>,
    T14: DeserializeColumns<'de>,
> DeserializeColumns<'de> for (T0, T1, T2, T3, T4, T5, T6, T7, T8, T9, T10, T11, T12, T13, T14) {
    open spec fn sound() -> bool {
        <(T0, T1, T2, T3, T4, T5, T6, T7, T8, T9, T10, T11)>::sound() && <(T12, T13, T14)>::sound()
    }

    open spec fn read(cur: Cur) -> std::result::Result<(Val, Cur), Fault> {
        flat(<((T0, T1, T2, T3, T4, T5, T6, T7, T8, T9, T10, T11), (T12, T13, T14))>::read(cur))
    }

    proof fn lemma_read(base: nat, cur: Cur) {
        let s = Self::node();
        assert(s.kids =~= <(T0, T1, T2, T3, T4, T5, T6, T7, T8, T9, T10, T11)>::node().kids + <(T12, T13, T14)>::node().kids);
        lemma_split_read::<(T0, T1, T2, T3, T4, T5, T6, T7, T8, T9, T10, T11), (T12, T13, T14)>(s, base, cur);
    }

    fn deserialize_columns(cursors: &mut [ColumnCursor<'de>]) -> (result: Result<Self>) {
        proof {
            let s = Self::node();
            assert(s.kids =~= <(T0, T1, T2, T3, T4, T5, T6, T7, T8, T9, T10, T11)>::node().kids + <(T12, T13, T14)>::node().kids);
            lemma_split_width(s, <(T0, T1, T2, T3, T4, T5, T6, T7, T8, T9, T10, T11)>::node(), <(T12, T13, T14)>::node());
            lemma_width_2::<(T0, T1, T2, T3, T4, T5, T6, T7, T8, T9, T10, T11), (T12, T13, T14)>();
        }
        match <((T0, T1, T2, T3, T4, T5, T6, T7, T8, T9, T10, T11), (T12, T13, T14))>::deserialize_columns(cursors) {
            Ok((x, y)) => {
                let whole = (x.0, x.1, x.2, x.3, x.4, x.5, x.6, x.7, x.8, x.9, x.10, x.11, y.0, y.1, y.2);
                Ok(whole)
            },
            Err(error) => Err(error),
        }
    }
}

impl<
    'de,
    T0: RoundTrip<'de>,
    T1: RoundTrip<'de>,
    T2: RoundTrip<'de>,
    T3: RoundTrip<'de>,
    T4: RoundTrip<'de>,
    T5: RoundTrip<'de>,
    T6: RoundTrip<'de>,
    T7: RoundTrip<'de>,
    T8: RoundTrip<'de>,
    T9: RoundTrip<'de>,
    T10: RoundTrip<'de>,
    T11: RoundTrip<'de>,
    T12: RoundTrip<'de>,
    T13: RoundTrip<'de>,
    T14: RoundTrip<'de>,
> RoundTrip<'de> for (T0, T1, T2, T3, T4, T5, T6, T7, T8, T9, T10, T11, T12, T13, T14) {
    proof fn lemma_read_back(&self, w: Walk, cur: Cur) {
        let (x, y) = ((self.0, self.1, self.2, self.3, self.4, self.5, self.6, self.7, self.8, self.9, self.10, self.11), (self.12, self.13, self.14));
        let s = Self::node();
        assert(s.kids =~= <(T0, T1, T2, T3, T4, T5, T6, T7, T8, T9, T10, T11)>::node().kids + <(T12, T13, T14)>::node().kids);
        assert(self.val(w).kids =~= x.val(w.part(0)).kids + y.val(w.part(1)).kids);
        lemma_split_back::<(T0, T1, T2, T3, T4, T5, T6, T7, T8, T9, T10, T11), (T12, T13, T14)>(x, y, w, self.val(w), s, cur);
    }
}

impl<
    T0: Modeled,
    T1: Modeled,
    T2: Modeled,
    T3: Modeled,
    T4: Modeled,
    T5: Modeled,
    T6: Modeled,
    T7: Modeled,
    T8: Modeled,
    T9: Modeled,
    T10: Modeled,
    T11: Modeled,
    T12: Modeled,
    T13: Modeled,
    T14: Modeled,
    T15: Modeled,
> Modeled for (T0, T1, T2, T3, T4, T5, T6, T7, T8, T9, T10, T11, T12, T13, T14, T15) {
    open spec fn val(&self, w: Walk) -> Val {
        Val {
            head: Head::Tuple,
            kids: seq![
                self.0.val(w.part(0).part(0).part(0).part(0)),
                self.1.val(w.part(0).part(0).part(0).part(1)),
                self.2.val(w.part(0).part(0).part(0).part(2)),
                self.3.val(w.part(0).part(0).part(0).part(3)),
                self.4.val(w.part(0).part(0).part(1).part(0)),
                self.5.val(w.part(0).part(0).part(1).part(1)),
                self.6.val(w.part(0).part(1).part(0).part(0)),
                self.7.val(w.part(0).part(1).part(0).part(1)),
                self.8.val(w.part(0).part(1).part(0).part(2)),
                self.9.val(w.part(0).part(1).part(0).part(3)),
                self.10.val(w.part(0).part(1).part(1).part(0)),
                self.11.val(w.part(0).part(1).part(1).part(1)),
                self.12.val(w.part(1).part(0)),
                self.13.val(w.part(1).part(1)),
                self.14.val(w.part(1).part(2)),
                self.15.val(w.part(1).part(3)),
            ],
        }
    }

    open spec fn stands_for(&self, v: Val) -> bool {
        &&& v.head is Tuple
        &&& v.kids.len() == 16
        &&& self.0.stands_for(v.kids[0])
        &&& self.1.stands_for(v.kids[1])
        &&& self.2.stands_for(v.kids[2])
        &&& self.3.stands_for(v.kids[3])
        &&& self.4.stands_for(v.kids[4])
        &&& self.5.stands_for(v.kids[5])
        &&& self.6.stands_for(v.kids[6])
        &&& self.7.stands_for(v.kids[7])
        &&& self.8.stands_for(v.kids[8])
        &&& self.9.stands_for(v.kids[9])
        &&& self.10.stands_for(v.kids[10])
        &&& self.11.stands_for(v.kids[11])
        &&& self.12.stands_for(v.kids[12])
        &&& self.13.stands_for(v.kids[13])
        &&& self.14.stands_for(v.kids[14])
        &&& self.15.stands_for(v.kids[15])
    }
}

impl<
    T0: SerializeColumns,
    T1: SerializeColumns,
    T2: SerializeColumns,
    T3: SerializeColumns,
    T4: SerializeColumns,
    T5: SerializeColumns,
    T6: SerializeColumns,
    T7: SerializeColumns,
    T8: SerializeColumns,
    T9: SerializeColumns,
    T10: SerializeColumns,
    T11: SerializeColumns,
    T12: SerializeColumns,
    T13: SerializeColumns,
    T14: SerializeColumns,
    T15: SerializeColumns,
> SerializeColumns for (T0, T1, T2, T3, T4, T5, T6, T7, T8, T9, T10, T11, T12, T13, T14, T15) {
    open spec fn writes(&self) -> bool {
        &&& self.0.writes()
        &&& self.1.writes()
        &&& self.2.writes()
        &&& self.3.writes()
        &&& self.4.writes()
        &&& self.5.writes()
        &&& self.6.writes()
        &&& self.7.writes()
        &&& self.8.writes()
        &&& self.9.writes()
        &&& self.10.writes()
        &&& self.11.writes()
        &&& self.12.writes()
        &&& self.13.writes()
        &&& self.14.writes()
        &&& self.15.writes()
    }

    open spec fn refusal(&self) -> Option<Fault> {
        ((self.0, self.1, self.2, self.3, self.4, self.5, self.6, self.7, self.8, self.9, self.10, self.11), (self.12, self.13, self.14, self.15)).refusal()
    }

    open spec fn image(&self, w: Walk) -> Seq<Seq<u8>> {
        (self.0, self.1, self.2, self.3, self.4, self.5, self.6, self.7, self.8, self.9, self.10, self.11).image(w.part(0)) + (self.12, self.13, self.14, self.15).image(w.part(1))
    }

    proof fn lemma_image(&self, w: Walk, base: nat, row: Row) {
        let (x, y) = ((self.0, self.1, self.2, self.3, self.4, self.5, self.6, self.7, self.8, self.9, self.10, self.11), (self.12, self.13, self.14, self.15));
        let s = Self::node();
        assert(s.kids =~= <(T0, T1, T2, T3, T4, T5, T6, T7, T8, T9, T10, T11)>::node().kids + <(T12, T13, T14, T15)>::node().kids);
        assert(self.val(w).kids =~= x.val(w.part(0)).kids + y.val(w.part(1)).kids);
        lemma_split_image(&x, &y, w, self.val(w), s, base, row);
    }

    fn serialize_columns(&self, columns: &mut [Vec<u8>]) -> (result: Result<()>) {
        let parts = ((&self.0, &self.1, &self.2, &self.3, &self.4, &self.5, &self.6, &self.7, &self.8, &self.9, &self.10, &self.11), (&self.12, &self.13, &self.14, &self.15));
        proof {
            let s = Self::node();
            assert(s.kids =~= <(&T0, &T1, &T2, &T3, &T4, &T5, &T6, &T7, &T8, &T9, &T10, &T11)>::node().kids + <(&T12, &T13, &T14, &T15)>::node().kids);
            lemma_split_width(s, <(&T0, &T1, &T2, &T3, &T4, &T5, &T6, &T7, &T8, &T9, &T10, &T11)>::node(), <(&T12, &T13, &T14, &T15)>::node());
            lemma_width_2::<(&T0, &T1, &T2, &T3, &T4, &T5, &T6, &T7, &T8, &T9, &T10, &T11), (&T12, &T13, &T14, &T15)>();
            assert forall|w: Walk| #[trigger] parts.image(w) == self.image(w) by {
                assert(parts.image(w) =~= self.image(w));
            }
        }
        parts.serialize_columns(columns)
    }
}

impl<
    'de,
    T0: DeserializeColumns<'de>,
    T1: DeserializeColumns<'de>,
    T2: DeserializeColumns<'de>,
    T3: DeserializeColumns<'de>,
    T4: DeserializeColumns<'de>,
    T5: DeserializeColumns<'de>,
    T6: DeserializeColumns<'de>,
    T7: DeserializeColumns<'de>,
    T8: DeserializeColumns<'de>,
    T9: DeserializeColumns<'de>,
    T10: DeserializeColumns<'de>,
    T11: DeserializeColumns<'de>,
    T12: DeserializeColumns<'de>,
    T13: DeserializeColumns<'de>,
    T14: DeserializeColumns<'de>,
    T15: DeserializeColumns<'de>,
> DeserializeColumns<'de> for (T0, T1, T2, T3, T4, T5, T6, T7, T8, T9, T10, T11, T12, T13, T14, T15) {
    open spec fn sound() -> bool {
        <(T0, T1, T2, T3, T4, T5, T6, T7, T8, T9, T10, T11)>::sound() && <(T12, T13, T14, T15)>::sound()
    }

    open spec fn read(cur: Cur) -> std::result::Result<(Val, Cur), Fault> {
        flat(<((T0, T1, T2, T3, T4, T5, T6, T7, T8, T9, T10, T11), (T12, T13, T14, T15))>::read(cur))
    }

    proof fn lemma_read(base: nat, cur: Cur) {
        let s = Self::node();
        assert(s.kids =~= <(T0, T1, T2, T3, T4, T5, T6, T7, T8, T9, T10, T11)>::node().kids + <(T12, T13, T14, T15)>::node().kids);
        lemma_split_read::<(T0, T1, T2, T3, T4, T5, T6, T7, T8, T9, T10, T11), (T12, T13, T14, T15)>(s, base, cur);
    }

    fn deserialize_columns(cursors: &mut [ColumnCursor<'de>]) -> (result: Result<Self>) {
        proof {
            let s = Self::node();
            assert(s.kids =~= <(T0, T1, T2, T3, T4, T5, T6, T7, T8, T9, T10, T11)>::node().kids + <(T12, T13, T14, T15)>::node().kids);
            lemma_split_width(s, <(T0, T1, T2, T3, T4, T5, T6, T7, T8, T9, T10, T11)>::node(), <(T12, T13, T14, T15)>::node());
            lemma_width_2::<(T0, T1, T2, T3, T4, T5, T6, T7, T8, T9, T10, T11), (T12, T13, T14, T15)>();
        }
        match <((T0, T1, T2, T3, T4, T5, T6, T7, T8, T9, T10, T11), (T12, T13, T14, T15))>::deserialize_columns(cursors) {
            Ok((x, y)) => {
                let whole = (x.0, x.1, x.2, x.3, x.4, x.5, x.6, x.7, x.8, x.9, x.10, x.11, y.0, y.1, y.2, y.3);
                Ok(whole)
            },
            Err(error) => Err(error),
        }
    }
}

impl<
    'de,
    T0: RoundTrip<'de>,
    T1: RoundTrip<'de>,
    T2: RoundTrip<'de>,
    T3: RoundTrip<'de>,
    T4: RoundTrip<'de>,
    T5: RoundTrip<'de>,
    T6: RoundTrip<'de>,
    T7: RoundTrip<'de>,
    T8: RoundTrip<'de>,
    T9: RoundTrip<'de>,
    T10: RoundTrip<'de>,
    T11: RoundTrip<'de>,
    T12: RoundTrip<'de>,
    T13: RoundTrip<'de>,
    T14: RoundTrip<'de>,
    T15: RoundTrip<'de>,
> RoundTrip<'de> for (T0, T1, T2, T3, T4, T5, T6, T7, T8, T9, T10, T11, T12, T13, T14, T15) {
    proof fn lemma_read_back(&self, w: Walk, cur: Cur) {
        let (x, y) = ((self.0, self.1, self.2, self.3, self.4, self.5, self.6, self.7, self.8, self.9, self.10, self.11), (self.12, self.13, self.14, self.15));
        let s = Self::node();
        assert(s.kids =~= <(T0, T1, T2, T3, T4, T5, T6, T7, T8, T9, T10, T11)>::node().kids + <(T12, T13, T14, T15)>::node().kids);
        assert(self.val(w).kids =~= x.val(w.part(0)).kids + y.val(w.part(1)).kids);
        lemma_split_back::<(T0, T1, T2, T3, T4, T5, T6, T7, T8, T9, T10, T11), (T12, T13, T14, T15)>(x, y, w, self.val(w), s, cur);
    }
}

} // verus!
