//! The one order in which an ordered collection lists its items.

use vstd::laws_cmp::obeys_cmp;
use vstd::laws_eq::obeys_concrete_eq;
use vstd::prelude::*;
use vstd::std_specs::cmp::{OrdSpec, PartialOrdSpec};

verus! {

/// Every item is less than all that follow it.
pub open spec fn rises<T: Ord>(items: Seq<T>) -> bool {
    forall|i: int, j: int|
        #![trigger items[i], items[j]]
        0 <= i < j < items.len() ==> items[i].cmp_spec(&items[j]) is Less
}

/// The items of a set from the least to the greatest.
pub open spec fn in_order<T: Ord>(items: Set<T>) -> Seq<T> {
    choose|order: Seq<T>| #[trigger] rises(order) && order.to_set() == items
}

/// The entries of a map, by the order of the keys.
pub open spec fn entries_in_order<K: Ord, V>(map: Map<K, V>) -> Seq<(K, V)> {
    let keys = in_order(map.dom());
    Seq::new(keys.len(), |i: int| (keys[i], map[keys[i]]))
}

/// No item is less than itself or than one that is less than it.
proof fn lemma_less<T: Ord>(a: T, b: T)
    requires
        obeys_cmp::<T>(),
        a.cmp_spec(&b) is Less,
    ensures
        !(b.cmp_spec(&a) is Less),
{
    reveal(vstd::laws_cmp::obeys_partial_cmp_spec_properties);
    reveal(vstd::laws_cmp::obeys_cmp_partial_ord);
    reveal(vstd::laws_cmp::obeys_cmp_ord);
    assert(a.partial_cmp_spec(&b) == Some(a.cmp_spec(&b)));
    assert(b.partial_cmp_spec(&a) == Some(b.cmp_spec(&a)));
}

/// There is one order at most.
pub proof fn lemma_one_order<T: Ord>(a: Seq<T>, b: Seq<T>)
    requires
        obeys_cmp::<T>(),
        rises(a),
        rises(b),
        a.to_set() == b.to_set(),
    ensures
        a == b,
    decreases a.len(),
{
    if a.len() == 0 {
        if b.len() > 0 {
            assert(b.to_set().contains(b[0]));
            assert(a.contains(b[0]));
        }
        assert(a =~= b);
    } else {
        assert(a.to_set().contains(a[0]));
        assert(b.contains(a[0]));
        let j = b.index_of(a[0]);
        assert(b.to_set().contains(b[0]));
        assert(a.contains(b[0]));
        let i = a.index_of(b[0]);
        if j > 0 && i > 0 {
            assert(b[0].cmp_spec(&b[j]) is Less);
            assert(a[0].cmp_spec(&a[i]) is Less);
            lemma_less(a[0], b[0]);
        }
        assert(a[0] == b[0]);
        let (x, y) = (a.drop_first(), b.drop_first());
        assert forall|k: T| x.to_set().contains(k) == y.to_set().contains(k) by {
            lemma_tail(a, k);
            lemma_tail(b, k);
            assert(a.to_set().contains(k) == a.contains(k));
            assert(b.to_set().contains(k) == b.contains(k));
        }
        assert(x.to_set() =~= y.to_set());
        assert(rises(x)) by {
            assert forall|m: int, n: int|
                #![trigger x[m], x[n]]
                0 <= m < n < x.len() implies x[m].cmp_spec(&x[n]) is Less by {
                assert(x[m] == a[m + 1] && x[n] == a[n + 1]);
            }
        }
        assert(rises(y)) by {
            assert forall|m: int, n: int|
                #![trigger y[m], y[n]]
                0 <= m < n < y.len() implies y[m].cmp_spec(&y[n]) is Less by {
                assert(y[m] == b[m + 1] && y[n] == b[n + 1]);
            }
        }
        lemma_one_order(x, y);
        assert(a =~= seq![a[0]] + x);
        assert(b =~= seq![b[0]] + y);
    }
}

/// What follows the first item is the rest.
proof fn lemma_tail<T: Ord>(a: Seq<T>, k: T)
    requires
        obeys_cmp::<T>(),
        rises(a),
        a.len() > 0,
    ensures
        a.drop_first().contains(k) <==> a.contains(k) && k != a[0],
{
    let x = a.drop_first();
    if x.contains(k) {
        let i = x.index_of(k);
        assert(a[i + 1] == k);
        assert(a[0].cmp_spec(&a[i + 1]) is Less);
        if k == a[0] {
            lemma_less(a[0], k);
        }
    }
    if a.contains(k) && k != a[0] {
        let i = a.index_of(k);
        assert(x[i - 1] == k);
    }
}

/// A rising list is the order of its items.
pub proof fn lemma_in_order<T: Ord>(items: Seq<T>)
    requires
        obeys_cmp::<T>(),
        rises(items),
    ensures
        in_order(items.to_set()) == items,
{
    let order = in_order(items.to_set());
    assert(rises(order) && order.to_set() == items.to_set());
    lemma_one_order(order, items);
}

/// References are ordered as what they refer to.
pub proof fn lemma_refs_obey<T: Ord>()
    requires
        obeys_cmp::<T>(),
    ensures
        obeys_cmp::<&T>(),
{
    reveal(vstd::laws_cmp::obeys_partial_cmp_spec_properties);
    reveal(vstd::laws_cmp::obeys_cmp_partial_ord);
    reveal(vstd::laws_cmp::obeys_cmp_ord);
    reveal(vstd::laws_eq::obeys_eq_spec_properties);
}

/// Of two items that differ, one is less.
proof fn lemma_either<T: Ord>(a: T, b: T)
    requires
        obeys_cmp::<T>(),
        obeys_concrete_eq::<T>(),
        a != b,
    ensures
        a.cmp_spec(&b) is Less || b.cmp_spec(&a) is Less,
{
    reveal(vstd::laws_cmp::obeys_partial_cmp_spec_properties);
    reveal(vstd::laws_cmp::obeys_cmp_partial_ord);
    reveal(vstd::laws_cmp::obeys_cmp_ord);
    reveal(obeys_concrete_eq);
    assert(a.partial_cmp_spec(&b) == Some(a.cmp_spec(&b)));
    assert(b.partial_cmp_spec(&a) == Some(b.cmp_spec(&a)));
}

/// What is less than an item is less than all that are greater.
proof fn lemma_through<T: Ord>(a: T, b: T, c: T)
    requires
        obeys_cmp::<T>(),
        a.cmp_spec(&b) is Less,
        b.cmp_spec(&c) is Less,
    ensures
        a.cmp_spec(&c) is Less,
{
    reveal(vstd::laws_cmp::obeys_partial_cmp_spec_properties);
    reveal(vstd::laws_cmp::obeys_cmp_partial_ord);
    reveal(vstd::laws_cmp::obeys_cmp_ord);
    assert(a.partial_cmp_spec(&b) == Some(a.cmp_spec(&b)));
    assert(b.partial_cmp_spec(&c) == Some(b.cmp_spec(&c)));
    assert(a.partial_cmp_spec(&c) == Some(a.cmp_spec(&c)));
}

/// A rising list takes one more item in its place.
proof fn lemma_one_more<T: Ord>(order: Seq<T>, x: T, k: int) -> (longer: Seq<T>)
    requires
        obeys_cmp::<T>(),
        obeys_concrete_eq::<T>(),
        rises(order),
        !order.contains(x),
        0 <= k <= order.len(),
        forall|i: int| k <= i < order.len() ==> x.cmp_spec(&#[trigger] order[i]) is Less,
    ensures
        rises(longer),
        longer.to_set() == order.to_set().insert(x),
    decreases k,
{
    if k > 0 && x.cmp_spec(&order[k - 1]) is Less {
        lemma_one_more(order, x, k - 1)
    } else {
        let longer = order.insert(k, x);
        if k > 0 {
            lemma_either(x, order[k - 1]);
        }
        assert forall|i: int, j: int|
            #![trigger longer[i], longer[j]]
            0 <= i < j < longer.len() implies longer[i].cmp_spec(&longer[j]) is Less by {
            let a = if i < k {
                i
            } else {
                i - 1
            };
            let b = if j < k {
                j
            } else {
                j - 1
            };
            if i == k {
                assert(longer[j] == order[b]);
            } else if j == k {
                assert(longer[i] == order[a]);
                if i < k - 1 {
                    assert(order[i].cmp_spec(&order[k - 1]) is Less);
                    lemma_through(order[i], order[k - 1], x);
                }
            } else {
                assert(longer[i] == order[a] && longer[j] == order[b]);
            }
        }
        assert forall|a: T| longer.to_set().contains(a) == order.to_set().insert(x).contains(a) by {
            if longer.contains(a) {
                let i = longer.index_of(a);
                if i < k {
                    assert(order[i] == a);
                } else if i > k {
                    assert(order[i - 1] == a);
                }
            }
            if order.contains(a) {
                let i = order.index_of(a);
                if i < k {
                    assert(longer[i] == a);
                } else {
                    assert(longer[i + 1] == a);
                }
            }
            assert(longer[k] == x);
        }
        assert(longer.to_set() =~= order.to_set().insert(x));
        longer
    }
}

/// The items of a finite set have an order.
pub proof fn lemma_has_order<T: Ord>(items: Set<T>)
    requires
        obeys_cmp::<T>(),
        obeys_concrete_eq::<T>(),
        items.finite(),
    ensures
        rises(in_order(items)),
        in_order(items).to_set() == items,
    decreases items.len(),
{
    if items.len() == 0 {
        let none = Seq::<T>::empty();
        assert(items =~= Set::empty());
        assert(none.to_set() =~= items);
        assert(rises(none));
    } else {
        let x = items.choose();
        let rest = items.remove(x);
        lemma_has_order(rest);
        let order = in_order(rest);
        assert(order.contains(x) == order.to_set().contains(x));
        let longer = lemma_one_more(order, x, order.len() + 0int);
        assert(rest.insert(x) =~= items);
        assert(rises(longer) && longer.to_set() == items);
    }
}

/// No item of a rising list occurs twice.
pub proof fn lemma_rising_once<T: Ord>(order: Seq<T>)
    requires
        obeys_cmp::<T>(),
        rises(order),
    ensures
        order.no_duplicates(),
{
    assert forall|i: int, j: int|
        0 <= i < order.len() && 0 <= j < order.len() && i != j implies order[i] != order[j] by {
        let (a, b) = if i < j {
            (i, j)
        } else {
            (j, i)
        };
        assert(order[a].cmp_spec(&order[b]) is Less);
        lemma_less(order[a], order[b]);
    }
}

} // verus!
