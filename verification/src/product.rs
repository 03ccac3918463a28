//! Products of the same parts: what is written and read of them depends on
//! their parts alone, and a product is its first parts followed by the others.

use vstd::prelude::*;

use crate::error::Fault;
use crate::get::{get_fields, Cur};
use crate::put::{put_fields, put_named, Row};
use crate::roundtrip::{part_shape, readable};
use crate::shape::{columns_before, kid_base, own_columns, width_of, Shape};
use crate::value::Val;

verus! {

/// Products with the same parts have the same columns.
pub proof fn lemma_same_columns(s: Shape, t: Shape, n: nat)
    requires
        s.kids == t.kids,
    ensures
        columns_before(s, n) == columns_before(t, n),
    decreases n,
{
    if 0 < n && n <= s.kids.len() {
        lemma_same_columns(s, t, (n - 1) as nat);
    }
}

/// The parts of products with the same parts are read alike.
pub proof fn lemma_get_same(s: Shape, t: Shape, base: nat, cur: Cur, n: nat)
    requires
        s.kids == t.kids,
        own_columns(s.kind) == own_columns(t.kind),
    ensures
        get_fields(s, base, cur, n) == get_fields(t, base, cur, n),
    decreases n,
{
    if 0 < n && n <= s.kids.len() {
        lemma_get_same(s, t, base, cur, (n - 1) as nat);
        lemma_same_columns(s, t, (n - 1) as nat);
    }
}

/// A value whose labels are those of a struct is written as the product of its
/// parts.
pub proof fn lemma_put_labelled(v: Val, w: Val, s: Shape, t: Shape, base: nat, row: Row, n: nat)
    requires
        v.kids == w.kids,
        s.kids == t.kids,
        own_columns(s.kind) == own_columns(t.kind),
        n <= s.kids.len(),
    ensures
        put_named(v, s.labels, s, base, row, n) == put_fields(w, t, base, row, n),
    decreases n,
{
    if 0 < n && n <= v.kids.len() {
        lemma_put_labelled(v, w, s, t, base, row, (n - 1) as nat);
        lemma_same_columns(s, t, (n - 1) as nat);
    }
}

proof fn lemma_first_columns(s: Shape, a: Shape, n: nat)
    requires
        n <= a.kids.len() <= s.kids.len(),
        s.kids.subrange(0, a.kids.len() as int) == a.kids,
    ensures
        columns_before(s, n) == columns_before(a, n),
    decreases n,
{
    if n > 0 {
        lemma_first_columns(s, a, (n - 1) as nat);
        assert(s.kids.subrange(0, a.kids.len() as int)[n - 1] == s.kids[n - 1]);
    }
}

/// The columns of a product are those of its first parts and those of the
/// others.
pub proof fn lemma_joined_columns(s: Shape, a: Shape, b: Shape, n: nat)
    requires
        s.kids == a.kids + b.kids,
        n <= b.kids.len(),
    ensures
        columns_before(s, a.kids.len()) == columns_before(a, a.kids.len()),
        columns_before(s, a.kids.len() + n) == columns_before(a, a.kids.len()) + columns_before(
            b,
            n,
        ),
    decreases n,
{
    assert(s.kids.subrange(0, a.kids.len() as int) =~= a.kids);
    lemma_first_columns(s, a, a.kids.len());
    if n > 0 {
        lemma_joined_columns(s, a, b, (n - 1) as nat);
        assert(s.kids[a.kids.len() + n - 1] == b.kids[n - 1]);
    }
}

proof fn lemma_put_first(v: Val, x: Val, s: Shape, a: Shape, base: nat, row: Row, n: nat)
    requires
        n <= x.kids.len() == a.kids.len() <= s.kids.len() == v.kids.len(),
        s.kids.subrange(0, a.kids.len() as int) == a.kids,
        v.kids.subrange(0, a.kids.len() as int) == x.kids,
        own_columns(s.kind) == own_columns(a.kind),
    ensures
        put_fields(v, s, base, row, n) == put_fields(x, a, base, row, n),
    decreases n,
{
    if n > 0 {
        lemma_put_first(v, x, s, a, base, row, (n - 1) as nat);
        lemma_first_columns(s, a, (n - 1) as nat);
        assert(s.kids.subrange(0, a.kids.len() as int)[n - 1] == s.kids[n - 1]);
        assert(v.kids.subrange(0, a.kids.len() as int)[n - 1] == v.kids[n - 1]);
    }
}

/// A product is written as its first parts and then the others.
pub proof fn lemma_put_joined(
    v: Val,
    x: Val,
    y: Val,
    s: Shape,
    a: Shape,
    b: Shape,
    base: nat,
    row: Row,
    n: nat,
)
    requires
        s.kids == a.kids + b.kids,
        v.kids == x.kids + y.kids,
        x.kids.len() == a.kids.len(),
        y.kids.len() == b.kids.len(),
        own_columns(s.kind) == 0,
        own_columns(a.kind) == 0,
        own_columns(b.kind) == 0,
        n <= b.kids.len(),
    ensures
        put_fields(v, s, base, row, a.kids.len() + n) == match put_fields(
            x,
            a,
            base,
            row,
            a.kids.len(),
        ) {
            Ok(mid) => put_fields(y, b, base + width_of(a), mid, n),
            Err(fault) => Err(fault),
        },
    decreases n,
{
    assert(s.kids.subrange(0, a.kids.len() as int) =~= a.kids);
    assert(v.kids.subrange(0, a.kids.len() as int) =~= x.kids);
    if n == 0 {
        lemma_put_first(v, x, s, a, base, row, a.kids.len());
    } else {
        let m = (n - 1) as nat;
        lemma_put_joined(v, x, y, s, a, b, base, row, m);
        lemma_joined_columns(s, a, b, m);
        assert(s.kids[(a.kids.len() + m) as int] == b.kids[m as int]);
        assert(v.kids[(a.kids.len() + m) as int] == y.kids[m as int]);
        assert(kid_base(s, base, a.kids.len() + m) == kid_base(b, base + width_of(a), m));
    }
}

proof fn lemma_get_first(s: Shape, a: Shape, base: nat, cur: Cur, n: nat)
    requires
        n <= a.kids.len() <= s.kids.len(),
        s.kids.subrange(0, a.kids.len() as int) == a.kids,
        own_columns(s.kind) == own_columns(a.kind),
    ensures
        get_fields(s, base, cur, n) == get_fields(a, base, cur, n),
    decreases n,
{
    if n > 0 {
        lemma_get_first(s, a, base, cur, (n - 1) as nat);
        lemma_first_columns(s, a, (n - 1) as nat);
        assert(s.kids.subrange(0, a.kids.len() as int)[n - 1] == s.kids[n - 1]);
    }
}

/// Reads first parts and then others.
pub open spec fn get_both(a: Shape, b: Shape, base: nat, cur: Cur, n: nat) -> Result<
    (Seq<Val>, Cur),
    Fault,
> {
    match get_fields(a, base, cur, a.kids.len()) {
        Ok((first, mid)) => match get_fields(b, base + width_of(a), mid, n) {
            Ok((others, end)) => Ok((first + others, end)),
            Err(fault) => Err(fault),
        },
        Err(fault) => Err(fault),
    }
}

/// A product is read as its first parts and then the others.
pub proof fn lemma_get_joined(s: Shape, a: Shape, b: Shape, base: nat, cur: Cur, n: nat)
    requires
        s.kids == a.kids + b.kids,
        own_columns(s.kind) == 0,
        own_columns(a.kind) == 0,
        own_columns(b.kind) == 0,
        n <= b.kids.len(),
    ensures
        get_fields(s, base, cur, a.kids.len() + n) == get_both(a, b, base, cur, n),
    decreases n,
{
    assert(s.kids.subrange(0, a.kids.len() as int) =~= a.kids);
    if n == 0 {
        lemma_get_first(s, a, base, cur, a.kids.len());
        if let Ok((first, mid)) = get_fields(a, base, cur, a.kids.len()) {
            assert(first + Seq::<Val>::empty() =~= first);
        }
    } else {
        let m = (n - 1) as nat;
        lemma_get_joined(s, a, b, base, cur, m);
        lemma_joined_columns(s, a, b, m);
        assert(s.kids[(a.kids.len() + m) as int] == b.kids[m as int]);
        assert(kid_base(s, base, a.kids.len() + m) == kid_base(b, base + width_of(a), m));
        if let Ok((first, mid)) = get_fields(a, base, cur, a.kids.len()) {
            if let Ok((others, end)) = get_fields(b, base + width_of(a), mid, n) {
                let before = get_fields(b, base + width_of(a), mid, m)->Ok_0.0;
                assert(first + others =~= (first + before).push(others.last()));
            }
        }
    }
}

/// Some of the parts of a readable product, as a product of their own.
pub proof fn lemma_readable_part(v: Val, s: Shape, x: Val, a: Shape, start: nat)
    requires
        readable(v, s),
        s.kind is Tuple || s.kind is Struct,
        x.head is Tuple,
        a.kind is Tuple,
        start + x.kids.len() <= v.kids.len() == s.kids.len(),
        x.kids == v.kids.subrange(start as int, (start + x.kids.len()) as int),
        a.kids == s.kids.subrange(start as int, (start + x.kids.len()) as int),
    ensures
        readable(x, a),
{
    assert forall|j: int| 0 <= j < x.kids.len() implies readable(
        #[trigger] x.kids[j],
        part_shape(x, a, j),
    ) by {
        assert(x.kids[j] == v.kids[start + j]);
        assert(readable(v.kids[start + j], part_shape(v, s, start + j)));
    }
}

} // verus!
