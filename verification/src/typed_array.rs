//! Arrays on the columnar fast path: one value after the other, each in columns
//! of its own.

use vstd::prelude::*;

use crate::columnar::ColumnCursor;
use crate::de::{readable_state, still_readable};
use crate::error::{Error, Fault, Result};
use crate::get::{get_fields, Cur};
use crate::roundtrip::{part_shape, readable};
use crate::shape::{own_columns, width_of, Shape};
use crate::static_schema::{copies, lemma_copies_columns, StaticSchema};
use crate::typed_de::{
    lemma_field, lemma_stands_part, moved_only, nothing, passed, read_part, rejoin, slice_cur,
    stands, window, DeserializeColumns, RoundTrip,
};
use crate::typed_ser::{
    all_stand, all_write, item_vals, lemma_image_len, lemma_row_images_len, row_images, Modeled,
    SerializeColumns, Walk,
};
use crate::value::{Head, Val};

verus! {

/// Calls `<[T; N]>::try_from(Vec<T>)`: the items as an array, where there are
/// as many of them as it has places.
#[verifier::external_body]
fn array_from_vec<T, const N: usize>(items: Vec<T>) -> (result: Option<[T; N]>)
    ensures
        match result {
            Some(array) => items@.len() == N && array@ == items@,
            None => items@.len() != N,
        },
{
    <[T; N]>::try_from(items).ok()
}

/// Reads the first `n` of equal values, each from columns of its own.
pub open spec fn read_row<'de, T: DeserializeColumns<'de>>(
    cur: Cur,
    n: nat,
) -> std::result::Result<(Seq<Val>, Cur), Fault>
    decreases n,
{
    if n == 0 {
        Ok((seq![], cur))
    } else {
        let m = (n - 1) as nat;
        match read_row::<T>(cur, m) {
            Ok((vs, mid)) => match T::read(
                window(mid, m * width_of(T::node()), width_of(T::node())),
            ) {
                Ok((v, next)) => Ok((vs.push(v), rejoin(mid, m * width_of(T::node()), next))),
                Err(fault) => Err(fault),
            },
            Err(fault) => Err(fault),
        }
    }
}

/// The columns of one more value come right after.
proof fn lemma_times(m: nat, w: nat, k: nat)
    requires
        m < k,
    ensures
        (m + 1) * w == m * w + w,
        m * w + w <= k * w,
{
    assert((m + 1) * w == m * w + w) by (nonlinear_arith);
    assert((m + 1) * w <= k * w) by (nonlinear_arith)
        requires
            m + 1 <= k,
    ;
}

/// Reading equal fields one by one is reading the fields of the product.
pub proof fn lemma_read_row<'de, T: DeserializeColumns<'de>>(
    s: Shape,
    base: nat,
    cur: Cur,
    k: nat,
    n: nat,
)
    requires
        T::sound(),
        own_columns(s.kind) == 0,
        s.kids == copies(T::node(), k),
        n <= k,
        cur.sized(),
        base + width_of(s) <= cur.bufs.len(),
        read_row::<T>(window(cur, base, width_of(s)), n) is Ok,
    ensures
        ({
            let part = window(cur, base, width_of(s));
            let (vs, next) = read_row::<T>(part, n)->Ok_0;
            &&& moved_only(part, next)
            &&& vs.len() == n
            &&& get_fields(s, base, cur, n) == Ok::<(Seq<Val>, Cur), Fault>(
                (vs, rejoin(cur, base, next)),
            )
        }),
    decreases n,
{
    let part = window(cur, base, width_of(s));
    let width = width_of(T::node());
    lemma_copies_columns(s, T::node(), k);
    if n == 0 {
        assert(rejoin(cur, base, part).pos =~= cur.pos);
    } else {
        let m = (n - 1) as nat;
        lemma_read_row::<T>(s, base, cur, k, m);
        let (vs, mid) = read_row::<T>(part, m)->Ok_0;
        lemma_copies_columns(s, T::node(), m);
        lemma_times(m, width, k);
        assert(s.kids[m as int] == T::node());
        lemma_field::<T>(cur, base, width_of(s), mid, m * width);
    }
}

proof fn lemma_row_stuck<'de, T: DeserializeColumns<'de>>(cur: Cur, i: nat, n: nat)
    requires
        i <= n,
        read_row::<T>(cur, i) is Err,
    ensures
        read_row::<T>(cur, n) == read_row::<T>(cur, i),
    decreases n,
{
    if i < n {
        lemma_row_stuck::<T>(cur, i, (n - 1) as nat);
    }
}

/// Reads `count` equal values, each from columns of its own.
pub(crate) fn read_components<'de, T: DeserializeColumns<'de>>(
    cursors: &mut [ColumnCursor<'de>],
    count: usize,
) -> (result: Result<Vec<T>>)
    requires
        old(cursors)@.len() == count * width_of(T::node()),
        readable_state(old(cursors)@, nothing(old(cursors)@.len())),
    ensures
        still_readable(old(cursors)@, final(cursors)@, nothing(old(cursors)@.len())),
        result matches Ok(items) ==> items@.len() == count,
        T::sound() ==> match result {
            Ok(items) => read_row::<T>(slice_cur(old(cursors)@), count as nat) matches Ok(
                (kids, next),
            ) && all_stand(items@, kids) && next == slice_cur(final(cursors)@),
            Err(error) => read_row::<T>(slice_cur(old(cursors)@), count as nat) == Err::<
                (Seq<Val>, Cur),
                Fault,
            >(error@),
        },
{
    let ghost start = cursors@;
    let ghost width = width_of(T::node());
    let mut out: Vec<T> = Vec::new();
    assert(cursors@.len() == cursors.len());
    let mut i: usize = 0;
    let mut base: usize = 0;
    assert(0 * width == 0) by (nonlinear_arith);
    proof {
        crate::de::lemma_same_data(start, start, start.len());
    }
    while i < count
        invariant
            i <= count,
            base == i * width,
            width == width_of(T::node()),
            start == old(cursors)@,
            start.len() == count * width,
            start.len() <= usize::MAX,
            readable_state(start, nothing(start.len())),
            still_readable(start, cursors@, nothing(start.len())),
            cursors@.len() == start.len(),
            out@.len() == i,
            T::sound() ==> (read_row::<T>(slice_cur(start), i as nat) matches Ok((kids, next))
                && all_stand(out@, kids) && next == slice_cur(cursors@)),
        decreases count - i,
    {
        let ghost mid = cursors@;
        proof {
            lemma_times(i as nat, width, count as nat);
        }
        match read_part::<T>(cursors, base) {
            Ok(x) => {
                out.push(x);
                proof {
                    lemma_still_twice(start, mid, cursors@);
                }
            },
            Err(error) => {
                proof {
                    lemma_still_twice(start, mid, cursors@);
                    if T::sound() {
                        lemma_row_stuck::<T>(slice_cur(start), (i + 1) as nat, count as nat);
                    }
                }
                return Err(error);
            },
        }
        base = base + T::columns();
        i += 1;
    }
    Ok(out)
}

proof fn lemma_still_twice(
    a: Seq<ColumnCursor<'_>>,
    b: Seq<ColumnCursor<'_>>,
    c: Seq<ColumnCursor<'_>>,
)
    requires
        still_readable(a, b, nothing(a.len())),
        still_readable(b, c, nothing(b.len())),
        a.len() == b.len(),
    ensures
        still_readable(a, c, nothing(a.len())),
{
}

/// The reader past the first `k` columns of what an image says.
pub open spec fn half_passed(cur: Cur, image: Seq<Seq<u8>>, k: nat) -> Cur {
    Cur {
        pos: Seq::new(
            cur.pos.len(),
            |c: int|
                if c < k {
                    cur.pos[c] + image[c].len()
                } else {
                    cur.pos[c]
                },
        ),
        ..cur
    }
}

/// The columns of one value among the columns of all.
proof fn lemma_row_image_part<T: SerializeColumns>(items: Seq<T>, w: Walk, i: nat, m: nat)
    requires
        all_write(items),
        i <= m < items.len(),
    ensures
        row_images(items, w, i).subrange(
            ((m - i) * width_of(T::node())) as int,
            ((m - i) * width_of(T::node()) + width_of(T::node())) as int,
        ) == items[m as int].image(w.part(m as int)),
        (m - i) * width_of(T::node()) + width_of(T::node()) <= row_images(items, w, i).len(),
        (m - i) * width_of(T::node()) >= 0,
    decreases m - i,
{
    let width = width_of(T::node());
    lemma_row_images_len(items, w, i);
    assert(items[i as int].writes());
    lemma_image_len(&items[i as int], w.part(i as int));
    let all = row_images(items, w, i);
    let head = items[i as int].image(w.part(i as int));
    let rest = row_images(items, w, i + 1);
    if i == m {
        assert((m - i) * width == 0) by (nonlinear_arith)
            requires
                m - i == 0,
        ;
        lemma_times(0, width, (items.len() - i) as nat);
        assert(0 * width == 0) by (nonlinear_arith);
        assert(all.subrange(0, width as int) =~= head);
    } else {
        lemma_row_image_part(items, w, i + 1, m);
        assert((m - i) * width == (m - (i + 1)) * width + width) by (nonlinear_arith);
        let off = (m - (i + 1)) * width;
        assert(rest.subrange(off, off + width) =~= all.subrange(off + width, off + width + width));
    }
}

/// Equal values read back where they were written.
pub proof fn lemma_row_back<'de, T: RoundTrip<'de>>(items: Seq<T>, w: Walk, cur: Cur, n: nat)
    requires
        T::sound(),
        all_write(items),
        forall|i: int| 0 <= i < items.len() ==> readable(
            (#[trigger] items[i]).val(w.part(i)),
            T::node(),
        ),
        n <= items.len(),
        stands(cur, row_images(items, w, 0)),
    ensures
        read_row::<T>(cur, n) == Ok::<(Seq<Val>, Cur), Fault>(
            (
                item_vals(items, w).subrange(0, n as int),
                half_passed(cur, row_images(items, w, 0), n * width_of(T::node())),
            ),
        ),
    decreases n,
{
    let width = width_of(T::node());
    let image = row_images(items, w, 0);
    lemma_row_images_len(items, w, 0);
    if n == 0 {
        assert(0 * width == 0) by (nonlinear_arith);
        assert(half_passed(cur, image, 0).pos =~= cur.pos);
        assert(item_vals(items, w).subrange(0, 0) =~= seq![]);
    } else {
        let m = (n - 1) as nat;
        lemma_row_back(items, w, cur, m);
        lemma_times(m, width, items.len());
        let mid = half_passed(cur, image, m * width);
        let x = items[m as int];
        let u = w.part(m as int);
        assert(x.writes());
        lemma_image_len(&x, u);
        lemma_row_image_part(items, w, 0, m);
        lemma_stands_part(cur, mid, image, m * width, width);
        x.lemma_read_back(u, window(mid, m * width, width));
        let next = passed(window(mid, m * width, width), x.image(u));
        let end = rejoin(mid, m * width, next);
        assert(end.pos =~= half_passed(cur, image, n * width).pos) by {
            assert forall|c: int| 0 <= c < cur.pos.len() implies end.pos[c] == half_passed(
                cur,
                image,
                n * width,
            ).pos[c] by {
                if m * width <= c < n * width {
                    assert(x.image(u)[c - m * width] == image[c]);
                }
            }
        }
        assert(item_vals(items, w).subrange(0, n as int) =~= item_vals(items, w).subrange(
            0,
            m as int,
        ).push(x.val(u)));
    }
}

impl<'de, T: DeserializeColumns<'de>, const N: usize> DeserializeColumns<'de> for [T; N] {
    open spec fn sound() -> bool {
        T::sound()
    }

    open spec fn read(cur: Cur) -> std::result::Result<(Val, Cur), Fault> {
        match read_row::<T>(cur, N as nat) {
            Ok((kids, next)) => Ok((Val { head: Head::Tuple, kids }, next)),
            Err(fault) => Err(fault),
        }
    }

    proof fn lemma_read(base: nat, cur: Cur) {
        lemma_read_row::<T>(Self::node(), base, cur, N as nat, N as nat);
    }

    fn deserialize_columns(cursors: &mut [ColumnCursor<'de>]) -> (result: Result<Self>) {
        proof {
            lemma_copies_columns(Self::node(), T::node(), N as nat);
        }
        match read_components::<T>(cursors, N) {
            Ok(items) => match array_from_vec::<T, N>(items) {
                Some(array) => Ok(array),
                None => Err(Error::IncompleteRow),
            },
            Err(error) => Err(error),
        }
    }
}

impl<'de, T: RoundTrip<'de>, const N: usize> RoundTrip<'de> for [T; N] {
    proof fn lemma_read_back(&self, w: Walk, cur: Cur) {
        let v = self.val(w);
        let s = Self::node();
        let items = self@;
        assert forall|i: int| 0 <= i < items.len() implies readable(
            (#[trigger] items[i]).val(w.part(i)),
            T::node(),
        ) by {
            assert(v.kids[i] == items[i].val(w.part(i)));
            assert(part_shape(v, s, i) == T::node());
        }
        lemma_row_back::<T>(items, w, cur, N as nat);
        lemma_row_images_len(items, w, 0);
        assert(item_vals(items, w).subrange(0, N as int) =~= item_vals(items, w));
        assert(half_passed(cur, self.image(w), N as nat * width_of(T::node())).pos =~= passed(
            cur,
            self.image(w),
        ).pos);
    }
}

} // verus!
