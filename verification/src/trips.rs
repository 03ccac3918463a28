//! Whole batches: what was pushed is what the rows give back.

use vstd::prelude::*;

use crate::batch::{new_row, no_rows, push_row};
use crate::blob::{blob, lemma_open_blob, opened};
use crate::error::Fault;
use crate::get::{Cur, MAX_ZERO_COLUMN_REPEAT};
use crate::put::{lemma_put, prefix, put, total, Row};
use crate::roundtrip::{
    consistent, holds, keyed, lemma_get_put, moved, objects, part_base, part_shape, readable,
    tracks, variant_place,
};
use crate::rows::{
    at_start, fresh, lemma_paths_agree, next_columns, next_row, single, single_columns, spent,
};
use crate::self_describing::{frame, lemma_split_frame, split_frame};
use crate::shape::{width_of, Shape};
use crate::static_schema::StaticSchema;
use crate::typed_de::{passed, stands, DeserializeColumns, RoundTrip};
use crate::typed_ser::{layered, stamped, Modeled, SerializeColumns, Walk};
use crate::typed_sets::told_apart;
use crate::value::{entry, Head, Val};
use crate::wire::{self, fits};

verus! {

/// The columns after pushing the first `n` of these values.
pub open spec fn pushed(s: Shape, vs: Seq<Val>, n: nat) -> std::result::Result<Seq<Seq<u8>>, Fault>
    decreases n,
{
    if n == 0 {
        Ok(no_rows(s))
    } else {
        match pushed(s, vs, (n - 1) as nat) {
            Ok(cols) => push_row(s, cols, vs[n - 1]),
            Err(fault) => Err(fault),
        }
    }
}

/// The first `n` rows of a blob that has `rows` of them.
pub open spec fn pulled(s: Shape, cols: Seq<Seq<u8>>, rows: nat, n: nat) -> std::result::Result<
    (Seq<Val>, Cur),
    Fault,
>
    decreases n,
{
    if n == 0 {
        Ok((seq![], at_start(cols)))
    } else {
        match pulled(s, cols, rows, (n - 1) as nat) {
            Ok((vs, cur)) => match next_row(s, cur, (rows - (n - 1)) as nat) {
                Ok((v, next)) => Ok((vs.push(v), next)),
                Err(fault) => Err(fault),
            },
            Err(fault) => Err(fault),
        }
    }
}

/// The row after value `i` was pushed.
pub open spec fn row_after(s: Shape, vs: Seq<Val>, i: nat) -> Row {
    put(vs[i as int], s, 0, new_row(pushed(s, vs, i)->Ok_0))->Ok_0
}

/// Value `i` as it is read back.
pub open spec fn returned(s: Shape, vs: Seq<Val>, i: nat) -> Val {
    keyed(vs[i as int], s, 0, row_after(s, vs, i).book)
}

/// A batch can be read back: every value was accepted, can be held in memory,
/// and shows each shared object with one content.
pub open spec fn returnable(s: Shape, vs: Seq<Val>, heaps: Seq<spec_fn(nat, u64) -> Val>) -> bool {
    &&& pushed(s, vs, vs.len()) is Ok
    &&& heaps.len() == vs.len()
    &&& forall|i: int|
        0 <= i < vs.len() ==> {
            &&& readable(#[trigger] vs[i], s)
            &&& consistent(vs[i], s, 0, row_after(s, vs, i as nat).book, heaps[i])
            &&& forall|c: int|
                0 <= c < width_of(s) ==> (#[trigger] row_after(s, vs, i as nat).book[c]).len()
                    <= u64::MAX
        }
}

/// Pushing only adds to the columns.
proof fn lemma_pushed(s: Shape, vs: Seq<Val>, i: nat, n: nat)
    requires
        s.well_formed(),
        i <= n <= vs.len(),
        pushed(s, vs, n) is Ok,
    ensures
        pushed(s, vs, i) is Ok,
        pushed(s, vs, i)->Ok_0.len() == width_of(s),
        pushed(s, vs, n)->Ok_0.len() == width_of(s),
        forall|c: int|
            0 <= c < width_of(s) ==> prefix(
                pushed(s, vs, i)->Ok_0[c],
                #[trigger] pushed(s, vs, n)->Ok_0[c],
            ),
        width_of(s) > 0 ==> total(pushed(s, vs, n)->Ok_0, width_of(s)) >= n,
    decreases n,
{
    if n > 0 {
        let m = (n - 1) as nat;
        let before = if i < n {
            i
        } else {
            m
        };
        lemma_pushed(s, vs, before, m);
        let cols = pushed(s, vs, m)->Ok_0;
        let row = new_row(cols);
        lemma_put(vs[m as int], s, 0, row);
        let end = put(vs[m as int], s, 0, row)->Ok_0;
        assert(end.cols == pushed(s, vs, n)->Ok_0);
        if i < n {
            assert forall|c: int| 0 <= c < width_of(s) implies prefix(
                pushed(s, vs, i)->Ok_0[c],
                #[trigger] pushed(s, vs, n)->Ok_0[c],
            ) by {
                assert(prefix(row.cols[c], end.cols[c]));
                assert(prefix(pushed(s, vs, i)->Ok_0[c], cols[c]));
            }
        }
    }
}

/// After `k` rows, the reader stands where the writer stood after `k` rows.
proof fn lemma_pulled(s: Shape, vs: Seq<Val>, heaps: Seq<spec_fn(nat, u64) -> Val>, k: nat)
    requires
        s.well_formed(),
        fits(s),
        returnable(s, vs, heaps),
        k <= vs.len(),
    ensures
        ({
            let cols = pushed(s, vs, vs.len())->Ok_0;
            &&& pulled(s, cols, vs.len(), k) is Ok
            &&& pulled(s, cols, vs.len(), k)->Ok_0.0 == Seq::new(
                k,
                |i: int| returned(s, vs, i as nat),
            )
            &&& pulled(s, cols, vs.len(), k)->Ok_0.1 == standing(s, vs, k)
            &&& k == vs.len() ==> spent(standing(s, vs, k))
        }),
    decreases k,
{
    let cols = pushed(s, vs, vs.len())->Ok_0;
    lemma_pushed(s, vs, k, vs.len());
    if k == 0 {
        assert(standing(s, vs, 0) == at_start(cols)) by {
            assert(standing(s, vs, 0).pos =~= at_start(cols).pos);
            assert(standing(s, vs, 0).regs =~= at_start(cols).regs);
        }
        assert(Seq::new(0, |i: int| returned(s, vs, i as nat)) =~= seq![]);
        if vs.len() == 0 {
            let cur = standing(s, vs, 0);
            assert forall|c: int| 0 <= c < cur.bufs.len() implies #[trigger] cur.pos[c]
                == cur.bufs[c].len() by {
                assert(cols[c].len() == 0);
            }
        }
    } else {
        let m = (k - 1) as nat;
        lemma_pulled(s, vs, heaps, m);
        lemma_pushed(s, vs, m, vs.len());
        let v = vs[m as int];
        let row = new_row(pushed(s, vs, m)->Ok_0);
        let end = put(v, s, 0, row)->Ok_0;
        let cur = standing(s, vs, m);
        let heap = heaps[m as int];
        let width = width_of(s);
        assert(pushed(s, vs, k) is Ok);
        assert(end == row_after(s, vs, m));
        assert(end.cols == pushed(s, vs, k)->Ok_0);
        lemma_put(v, s, 0, row);
        assert(fresh(cur) == cur) by {
            assert(fresh(cur).regs =~= cur.regs);
        }
        assert(tracks(cur, row, heap, 0, width)) by {
            assert forall|c: int| 0 <= c < width implies (#[trigger] cur.regs[c]) == objects(
                row,
                c,
                heap,
            ) by {
                assert(cur.regs[c] =~= objects(row, c, heap));
            }
            assert forall|c: int| 0 <= c < cur.bufs.len() implies (#[trigger] cur.pos[c])
                <= cur.bufs[c].len() by {
                assert(prefix(pushed(s, vs, m)->Ok_0[c], cols[c]));
            }
        }
        assert(holds(cols, end.book, end)) by {
            assert forall|c: int| 0 <= c < end.book.len() implies (#[trigger] end.book[c]).len()
                <= u64::MAX by {
                assert(row_after(s, vs, m).book[c].len() <= u64::MAX);
            }
        }
        assert(readable(vs[m as int], s));
        lemma_get_put(v, s, 0, row, cur, end.book, heap);
        let next = moved(cur, end, heap, 0, width);
        assert(fresh(next) == standing(s, vs, k)) by {
            assert(fresh(next).pos =~= standing(s, vs, k).pos);
            assert(fresh(next).regs =~= standing(s, vs, k).regs);
        }
        assert(Seq::new(m, |i: int| returned(s, vs, i as nat)).push(returned(s, vs, m))
            =~= Seq::new(k, |i: int| returned(s, vs, i as nat)));
        if k == vs.len() {
            assert forall|c: int| 0 <= c < next.bufs.len() implies #[trigger] next.pos[c]
                == next.bufs[c].len() by {
                assert(cols[c] == end.cols[c]);
            }
            assert(spent(next));
            let there = standing(s, vs, k);
            assert forall|c: int| 0 <= c < there.bufs.len() implies #[trigger] there.pos[c]
                == there.bufs[c].len() by {
                assert(cols[c] == end.cols[c]);
            }
        }
    }
}

/// Where a reader of the batch stands after `k` rows.
spec fn standing(s: Shape, vs: Seq<Val>, k: nat) -> Cur {
    let cols = pushed(s, vs, vs.len())->Ok_0;
    Cur {
        bufs: cols,
        pos: Seq::new(cols.len(), |c: int| pushed(s, vs, k)->Ok_0[c].len()),
        regs: Seq::new(cols.len(), |c: int| Seq::<Option<Val>>::empty()),
    }
}

/// The blob of a batch opens, its rows are the values that were pushed, in
/// their order, and they use the columns up.
///
/// A batch of values without columns has at most as many rows as a reader
/// accepts.
pub proof fn lemma_batch_round_trip(
    s: Shape,
    vs: Seq<Val>,
    heaps: Seq<spec_fn(nat, u64) -> Val>,
)
    requires
        s.well_formed(),
        fits(s),
        width_of(s) <= usize::MAX,
        vs.len() <= usize::MAX,
        returnable(s, vs, heaps),
        forall|c: int|
            0 <= c < width_of(s) ==> (#[trigger] pushed(s, vs, vs.len())->Ok_0[c]).len()
                <= usize::MAX,
        width_of(s) == 0 ==> vs.len() <= MAX_ZERO_COLUMN_REPEAT,
    ensures
        ({
            let cols = pushed(s, vs, vs.len())->Ok_0;
            &&& opened(blob(vs.len(), cols), width_of(s)) == Ok::<(nat, Seq<Seq<u8>>), Fault>(
                (vs.len(), cols),
            )
            &&& pulled(s, cols, vs.len(), vs.len()) is Ok
            &&& pulled(s, cols, vs.len(), vs.len())->Ok_0.0 == Seq::new(
                vs.len(),
                |i: int| returned(s, vs, i as nat),
            )
            &&& spent(pulled(s, cols, vs.len(), vs.len())->Ok_0.1)
        }),
{
    let cols = pushed(s, vs, vs.len())->Ok_0;
    lemma_pushed(s, vs, 0, vs.len());
    lemma_open_blob(vs.len() as u64, cols);
    lemma_pulled(s, vs, heaps, vs.len());
}

/// A single value comes back from its blob.
pub proof fn lemma_single_round_trip(s: Shape, v: Val, heap: spec_fn(nat, u64) -> Val)
    requires
        s.well_formed(),
        fits(s),
        width_of(s) <= usize::MAX,
        returnable(s, seq![v], seq![heap]),
        forall|c: int|
            0 <= c < width_of(s) ==> (#[trigger] pushed(s, seq![v], 1)->Ok_0[c]).len()
                <= usize::MAX,
    ensures
        single(blob(1, pushed(s, seq![v], 1)->Ok_0), s) == Ok::<Val, Fault>(
            returned(s, seq![v], 0),
        ),
{
    let vs = seq![v];
    lemma_batch_round_trip(s, vs, seq![heap]);
    let cols = pushed(s, vs, 1)->Ok_0;
    assert(pulled(s, cols, 1, 0) == Ok::<(Seq<Val>, Cur), Fault>((seq![], at_start(cols))));
    let all = pulled(s, cols, 1, 1)->Ok_0.0;
    assert(all[0] == returned(s, vs, 0));
}

/// The value holds no shared object, and every variant names its place in the
/// schema's list.
pub open spec fn settled(v: Val, s: Shape) -> bool
    decreases v,
{
    &&& match v.head {
        Head::Shared(_) => false,
        Head::UnitVariant(index, _) => index == variant_place(v, s),
        Head::NewtypeVariant(index, _) => index == variant_place(v, s),
        Head::TupleVariant(index, _) => index == variant_place(v, s),
        Head::StructVariant(index, _, _) => index == variant_place(v, s),
        _ => true,
    }
    &&& forall|j: int|
        0 <= j < v.kids.len() ==> {
            if s.kind is Mapping {
                &&& (#[trigger] v.kids[j]).head is Entry
                &&& v.kids[j].kids.len() == 2
                &&& settled(v.kids[j].kids[0], s.kids[0])
                &&& settled(v.kids[j].kids[1], s.kids[1])
            } else {
                settled(v.kids[j], part_shape(v, s, j))
            }
        }
}

/// Such a value is read back as it was written, letter for letter.
pub proof fn lemma_settled(
    v: Val,
    s: Shape,
    base: nat,
    book: Seq<Seq<u64>>,
    heap: spec_fn(nat, u64) -> Val,
)
    requires
        settled(v, s),
    ensures
        keyed(v, s, base, book) == v,
        consistent(v, s, base, book, heap),
    decreases v,
{
    let w = keyed(v, s, base, book);
    assert forall|j: int| 0 <= j < v.kids.len() implies w.kids[j] == #[trigger] v.kids[j] && {
        if s.kind is Mapping {
            &&& v.kids[j].kids.len() == 2
            &&& consistent(v.kids[j].kids[0], s.kids[0], base + 1, book, heap)
            &&& consistent(
                v.kids[j].kids[1],
                s.kids[1],
                base + 1 + width_of(s.kids[0]),
                book,
                heap,
            )
        } else {
            consistent(v.kids[j], part_shape(v, s, j), part_base(v, s, base, j), book, heap)
        }
    } by {
        if s.kind is Mapping {
            let e = v.kids[j];
            lemma_settled(e.kids[0], s.kids[0], base + 1, book, heap);
            lemma_settled(e.kids[1], s.kids[1], base + 1 + width_of(s.kids[0]), book, heap);
            assert(e.kids =~= seq![e.kids[0], e.kids[1]]);
            assert(e == entry(e.kids[0], e.kids[1]));
        } else {
            lemma_settled(v.kids[j], part_shape(v, s, j), part_base(v, s, base, j), book, heap);
        }
    }
    assert(w.kids =~= v.kids);
}

/// Both writers append the same bytes to the columns of a row: what the columnar
/// fast path appends, walked in whatever order, is what the schema-driven path
/// appends for the tree of that walk.
pub proof fn lemma_writers_agree<T: SerializeColumns + ?Sized>(
    x: &T,
    w: Walk,
    cols: Seq<Seq<u8>>,
)
    requires
        x.writes(),
        cols.len() == width_of(T::node()),
    ensures
        push_row(T::node(), cols, x.val(w)) == Ok::<Seq<Seq<u8>>, Fault>(
            layered(cols, x.image(w)),
        ),
{
    let row = new_row(cols);
    x.lemma_image(w, 0, row);
    assert(stamped(row, 0, x.image(w)).cols =~= layered(cols, x.image(w)));
}

/// A typed value comes back from the blob that the columnar fast path writes,
/// in whatever order it is walked: what either path reads is the tree that was
/// written.
pub proof fn lemma_typed_round_trip<'de, T: RoundTrip<'de>>(x: &T, w: Walk)
    requires
        T::sound(),
        x.writes(),
        readable(x.val(w), T::node()),
        width_of(T::node()) <= usize::MAX,
        forall|c: int| 0 <= c < width_of(T::node()) ==> (#[trigger] x.image(w)[c]).len() <= usize::MAX,
    ensures
        push_row(T::node(), no_rows(T::node()), x.val(w)) == Ok::<Seq<Seq<u8>>, Fault>(x.image(w)),
        single_columns::<T>(blob(1, x.image(w)), T::node()) == Ok::<Val, Fault>(x.val(w)),
        single(blob(1, x.image(w)), T::node()) == Ok::<Val, Fault>(x.val(w)),
{
    let s = T::node();
    let width = width_of(s);
    T::lemma_node();
    let row = new_row(no_rows(s));
    x.lemma_image(w, 0, row);
    let cols = stamped(row, 0, x.image(w)).cols;
    assert(cols =~= x.image(w)) by {
        assert forall|c: int| 0 <= c < width implies #[trigger] cols[c] == x.image(w)[c] by {
            assert(cols[c] =~= x.image(w)[c]);
        }
    }
    lemma_put(x.val(w), s, 0, row);
    lemma_open_blob(1, x.image(w));
    let cur = at_start(x.image(w));
    assert(stands(cur, x.image(w))) by {
        assert forall|c: int| 0 <= c < x.image(w).len() implies prefix(
            #[trigger] x.image(w)[c],
            cur.rest(c as nat),
        ) by {
            assert(cur.rest(c as nat) =~= x.image(w)[c]);
        }
    }
    x.lemma_read_back(w, cur);
    let end = passed(cur, x.image(w));
    assert(spent(end)) by {
        assert forall|c: int| 0 <= c < end.bufs.len() implies #[trigger] end.pos[c]
            == end.bufs[c].len() by {
        }
    }
    assert(fresh(cur) == cur);
    lemma_paths_agree::<T>(cur, 1);
}

/// Typed values, each as the tree of its walk.
pub open spec fn walked_vals<T: Modeled>(xs: Seq<T>, ws: Seq<Walk>) -> Seq<Val> {
    Seq::new(xs.len(), |i: int| xs[i].val(ws[i]))
}

/// The first `n` rows of a blob that has `rows` of them, through the columnar
/// fast path.
pub open spec fn pulled_columns<'de, T: DeserializeColumns<'de>>(
    cols: Seq<Seq<u8>>,
    rows: nat,
    n: nat,
) -> std::result::Result<(Seq<Val>, Cur), Fault>
    decreases n,
{
    if n == 0 {
        Ok((seq![], at_start(cols)))
    } else {
        match pulled_columns::<T>(cols, rows, (n - 1) as nat) {
            Ok((vs, cur)) => match next_columns::<T>(cur, (rows - (n - 1)) as nat) {
                Ok((v, next)) => Ok((vs.push(v), next)),
                Err(fault) => Err(fault),
            },
            Err(fault) => Err(fault),
        }
    }
}

/// Typed values that write are accepted, row by row.
proof fn lemma_typed_pushed<T: SerializeColumns>(xs: Seq<T>, ws: Seq<Walk>, n: nat)
    requires
        n <= xs.len(),
        forall|i: int| 0 <= i < xs.len() ==> (#[trigger] xs[i]).writes(),
    ensures
        pushed(T::node(), walked_vals(xs, ws), n) is Ok,
        pushed(T::node(), walked_vals(xs, ws), n)->Ok_0.len() == width_of(T::node()),
        n > 0 ==> pushed(T::node(), walked_vals(xs, ws), n)->Ok_0 == layered(
            pushed(T::node(), walked_vals(xs, ws), (n - 1) as nat)->Ok_0,
            xs[n - 1].image(ws[n - 1]),
        ),
    decreases n,
{
    if n > 0 {
        let m = (n - 1) as nat;
        lemma_typed_pushed(xs, ws, m);
        assert(xs[m as int].writes());
        lemma_writers_agree(
            &xs[m as int],
            ws[m as int],
            pushed(T::node(), walked_vals(xs, ws), m)->Ok_0,
        );
    }
}

/// After `k` rows, the fast path stands where the writer stood after `k` rows.
proof fn lemma_typed_pulled<'de, T: RoundTrip<'de>>(xs: Seq<T>, ws: Seq<Walk>, k: nat)
    requires
        T::sound(),
        T::node().well_formed(),
        forall|i: int| 0 <= i < xs.len() ==> (#[trigger] xs[i]).writes(),
        forall|i: int|
            0 <= i < xs.len() ==> readable(#[trigger] xs[i].val(ws[i]), T::node()),
        k <= xs.len(),
    ensures
        ({
            let vs = walked_vals(xs, ws);
            let cols = pushed(T::node(), vs, vs.len())->Ok_0;
            &&& pulled_columns::<T>(cols, vs.len(), k) == Ok::<(Seq<Val>, Cur), Fault>(
                (vs.take(k as int), standing(T::node(), vs, k)),
            )
            &&& pulled(T::node(), cols, vs.len(), k) == pulled_columns::<T>(cols, vs.len(), k)
            &&& k == vs.len() ==> spent(standing(T::node(), vs, k))
        }),
    decreases k,
{
    let s = T::node();
    let vs = walked_vals(xs, ws);
    let cols = pushed(s, vs, vs.len())->Ok_0;
    lemma_typed_pushed(xs, ws, vs.len());
    lemma_pushed(s, vs, k, vs.len());
    if k == vs.len() {
        let there = standing(s, vs, k);
        assert forall|c: int| 0 <= c < there.bufs.len() implies #[trigger] there.pos[c]
            == there.bufs[c].len() by {}
    }
    if k == 0 {
        assert(standing(s, vs, 0) == at_start(cols)) by {
            assert(standing(s, vs, 0).pos =~= at_start(cols).pos);
            assert(standing(s, vs, 0).regs =~= at_start(cols).regs);
        }
        assert(vs.take(0) =~= seq![]);
    } else {
        let m = (k - 1) as nat;
        lemma_typed_pulled::<T>(xs, ws, m);
        lemma_typed_pushed(xs, ws, k);
        lemma_typed_pushed(xs, ws, m);
        lemma_pushed(s, vs, m, vs.len());
        let x = xs[m as int];
        let w = ws[m as int];
        let cur = standing(s, vs, m);
        let image = x.image(w);
        x.lemma_image(w, 0, new_row(pushed(s, vs, m)->Ok_0));
        assert(stands(cur, image)) by {
            assert forall|c: int| 0 <= c < image.len() implies prefix(
                #[trigger] image[c],
                cur.rest(c as nat),
            ) by {
                let had = pushed(s, vs, m)->Ok_0[c];
                assert(pushed(s, vs, k)->Ok_0[c] == had + image[c]);
                assert(prefix(pushed(s, vs, k)->Ok_0[c], cols[c]));
                assert forall|i: int| 0 <= i < image[c].len() implies #[trigger] image[c][i]
                    == cur.rest(c as nat)[i] by {
                    assert((had + image[c])[had.len() + i] == cols[c][had.len() + i]);
                }
            }
            assert forall|c: int| 0 <= c < cur.bufs.len() implies (#[trigger] cur.pos[c])
                <= cur.bufs[c].len() by {
                assert(prefix(pushed(s, vs, m)->Ok_0[c], cols[c]));
            }
        }
        assert(readable(xs[m as int].val(ws[m as int]), s));
        x.lemma_read_back(w, cur);
        let next = standing(s, vs, k);
        assert(passed(cur, image) == next) by {
            assert(passed(cur, image).pos =~= next.pos);
        }
        assert(vs.take(m as int).push(x.val(w)) =~= vs.take(k as int));
        assert(fresh(cur) == cur) by {
            assert(fresh(cur).regs =~= cur.regs);
        }
        lemma_paths_agree::<T>(cur, (vs.len() - m) as nat);
    }
}

/// Typed values come back from the blob of a batch that the columnar fast path
/// wrote, each walked in whatever order: the blob opens, its rows are the trees
/// that were written, in their order, through either path, and they use the
/// columns up.
///
/// A batch of values without columns has at most as many rows as a reader
/// accepts.
pub proof fn lemma_typed_batch_round_trip<'de, T: RoundTrip<'de>>(xs: Seq<T>, ws: Seq<Walk>)
    requires
        T::sound(),
        forall|i: int| 0 <= i < xs.len() ==> (#[trigger] xs[i]).writes(),
        forall|i: int|
            0 <= i < xs.len() ==> readable(#[trigger] xs[i].val(ws[i]), T::node()),
        width_of(T::node()) <= usize::MAX,
        xs.len() <= usize::MAX,
        forall|c: int|
            0 <= c < width_of(T::node()) ==> (#[trigger] pushed(
                T::node(),
                walked_vals(xs, ws),
                xs.len(),
            )->Ok_0[c]).len() <= usize::MAX,
        width_of(T::node()) == 0 ==> xs.len() <= MAX_ZERO_COLUMN_REPEAT,
    ensures
        ({
            let vs = walked_vals(xs, ws);
            let cols = pushed(T::node(), vs, xs.len())->Ok_0;
            &&& pushed(T::node(), vs, xs.len()) is Ok
            &&& opened(blob(xs.len(), cols), width_of(T::node())) == Ok::<
                (nat, Seq<Seq<u8>>),
                Fault,
            >((xs.len(), cols))
            &&& pulled_columns::<T>(cols, xs.len(), xs.len()) is Ok
            &&& pulled_columns::<T>(cols, xs.len(), xs.len())->Ok_0.0 == vs
            &&& pulled(T::node(), cols, xs.len(), xs.len()) == pulled_columns::<T>(
                cols,
                xs.len(),
                xs.len(),
            )
            &&& spent(pulled_columns::<T>(cols, xs.len(), xs.len())->Ok_0.1)
        }),
{
    let vs = walked_vals(xs, ws);
    let cols = pushed(T::node(), vs, xs.len())->Ok_0;
    T::lemma_node();
    lemma_typed_pushed(xs, ws, xs.len());
    lemma_pushed(T::node(), vs, 0, xs.len());
    lemma_open_blob(xs.len() as u64, cols);
    lemma_typed_pulled::<T>(xs, ws, xs.len());
    assert(vs.take(vs.len() as int) =~= vs);
}

/// What is read from the trees of typed values is those values, where a tree
/// fixes its value.
pub proof fn lemma_typed_rows_same<T: Modeled>(xs: Seq<T>, ws: Seq<Walk>, ys: Seq<T>)
    requires
        told_apart::<T>(),
        ys.len() == xs.len(),
        forall|i: int|
            0 <= i < xs.len() ==> (#[trigger] ys[i]).stands_for(walked_vals(xs, ws)[i]),
    ensures
        ys == xs,
{
    assert forall|i: int| 0 <= i < xs.len() implies ys[i] == xs[i] by {
        assert(ys[i].stands_for(xs[i].val(ws[i])));
    }
    assert(ys =~= xs);
}

/// A typed value comes back from a self-describing frame, in whatever order it
/// is walked.
pub proof fn lemma_frame_round_trip<'de, T: RoundTrip<'de>>(x: &T, w: Walk)
    requires
        T::sound(),
        x.writes(),
        readable(x.val(w), T::node()),
        width_of(T::node()) <= usize::MAX,
        forall|c: int| 0 <= c < width_of(T::node()) ==> (#[trigger] x.image(w)[c]).len() <= usize::MAX,
        fits(T::node()),
        T::node().height() <= crate::schema::MAX_DEPTH,
        wire::versioned(T::node()).len() <= usize::MAX,
    ensures
        split_frame(frame(wire::versioned(T::node()), blob(1, x.image(w)))) == Ok::<
            (Shape, Seq<u8>),
            Fault,
        >((T::node(), blob(1, x.image(w)))),
        single_columns::<T>(blob(1, x.image(w)), T::node()) == Ok::<Val, Fault>(x.val(w)),
        single(blob(1, x.image(w)), T::node()) == Ok::<Val, Fault>(x.val(w)),
{
    T::lemma_node();
    lemma_split_frame(T::node(), blob(1, x.image(w)));
    lemma_typed_round_trip(x, w);
}

} // verus!
