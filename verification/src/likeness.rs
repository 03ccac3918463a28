//! What typed values look like: each part where its name or its place says,
//! two values that differ never alike, and each value written wherever its parts
//! can be.

use std::borrow::Cow;
use std::collections::{BTreeMap, BTreeSet, HashMap, HashSet, VecDeque};
use std::num::Wrapping;
use std::ops::{Bound, Range, RangeInclusive};
use std::rc::Rc;
use std::sync::Arc;

use vstd::prelude::*;

use crate::float::{Double, Single};
use crate::nonzero::{NonZero, Zeroable};
use crate::put::Row;
use crate::shape::width_of;
use crate::static_schema::{fixed, StaticSchema};
use crate::time::{Duration, SystemTime};
use crate::typed_ser::{
    blank, first_refusal, item_vals, stamped, Modeled, SerializeColumns, Walk,
};
use crate::typed_sets::told_apart;
use crate::value::{lemma_scalar_bytes, scalar_bytes, Head, Val};

verus! {

/// The value presents itself as this tree, on some walk.
pub open spec fn presents<T: Modeled>(x: T, v: Val) -> bool {
    exists|w: Walk| v == #[trigger] x.val(w)
}

/// The value stands at this place among the parts of a tree, whether the tree
/// is its own or one that it was read from.
pub open spec fn at_place<T: Modeled>(x: T, v: Val, i: int, own: bool) -> bool {
    &&& 0 <= i < v.kids.len()
    &&& if own {
        presents(x, v.kids[i])
    } else {
        x.stands_for(v.kids[i])
    }
}

/// The value stands under this name among the fields of a tree.
pub open spec fn under_name<T: Modeled>(x: T, v: Val, name: Seq<char>, own: bool) -> bool {
    exists|i: int| #[trigger]
        at_place(x, v, i, own) && (v.head matches Head::Struct(_, labels) && i < labels.len()
            && labels[i] == name)
}

/// A scalar fixes its tree and its tree fixes the scalar.
pub proof fn lemma_scalars_apart()
    ensures
        told_apart::<bool>(),
        told_apart::<i8>(),
        told_apart::<i16>(),
        told_apart::<i32>(),
        told_apart::<i64>(),
        told_apart::<i128>(),
        told_apart::<isize>(),
        told_apart::<u8>(),
        told_apart::<u16>(),
        told_apart::<u32>(),
        told_apart::<u64>(),
        told_apart::<u128>(),
        told_apart::<usize>(),
        told_apart::<char>(),
        told_apart::<()>(),
        told_apart::<Single>(),
        told_apart::<Double>(),
{
}

/// A scalar can always be written.
pub proof fn lemma_scalars_write()
    ensures
        forall|x: bool| #[trigger] x.writes(),
        forall|x: i8| #[trigger] x.writes(),
        forall|x: i16| #[trigger] x.writes(),
        forall|x: i32| #[trigger] x.writes(),
        forall|x: i64| #[trigger] x.writes(),
        forall|x: i128| #[trigger] x.writes(),
        forall|x: isize| #[trigger] x.writes(),
        forall|x: u8| #[trigger] x.writes(),
        forall|x: u16| #[trigger] x.writes(),
        forall|x: u32| #[trigger] x.writes(),
        forall|x: u64| #[trigger] x.writes(),
        forall|x: u128| #[trigger] x.writes(),
        forall|x: usize| #[trigger] x.writes(),
        forall|x: char| #[trigger] x.writes(),
        forall|x: ()| #[trigger] x.writes(),
        forall|x: Single| #[trigger] x.writes(),
        forall|x: Double| #[trigger] x.writes(),
        forall|x: String| #[trigger] x.writes(),
{
}

/// A string fixes its tree and its tree fixes the text.
pub proof fn lemma_texts_apart(a: String, b: String, w: Walk)
    requires
        a.stands_for(b.val(w)),
    ensures
        a@ == b@,
{
}

/// A type that says its values have a fixed width has one column, and every
/// value puts that many bytes there.
pub proof fn lemma_fixed_width<T: SerializeColumns>(x: T, w: Walk)
    requires
        x.writes(),
        fixed(T::node()) is Some,
    ensures
        x.image(w).len() == 1,
        x.image(w)[0].len() == fixed(T::node())->0,
{
    let s = T::node();
    T::lemma_node();
    let row = Row { cols: blank(width_of(s)), book: Seq::new(width_of(s), |c: int| seq![]) };
    x.lemma_image(w, 0, row);
    let image = x.image(w);
    let made = stamped(row, 0, image);
    assert(made.cols[0] =~= image[0]);
    match x.val(w).head {
        Head::Scalar(scalar) => {
            lemma_scalar_bytes(scalar);
            assert(row.append(0, scalar_bytes(scalar)).cols[0] =~= scalar_bytes(scalar));
        },
        _ => {},
    }
}

/// Values that are there or not are told apart where the values are.
pub proof fn lemma_options_apart<T: Modeled>()
    requires
        told_apart::<T>(),
    ensures
        told_apart::<Option<T>>(),
{
    assert forall|a: Option<T>, b: Option<T>, w: Walk| #[trigger] a.stands_for(
        b.val(w),
    ) implies a == b by {
        match (a, b) {
            (Some(x), Some(y)) => {
                assert(x.stands_for(y.val(w)));
            },
            _ => {},
        }
    }
}

/// Results are told apart where both kinds of value are; the name of the variant
/// says which kind it is.
pub proof fn lemma_results_apart<T: Modeled, E: Modeled>(r: Result<T, E>, w: Walk)
    requires
        told_apart::<T>(),
        told_apart::<E>(),
    ensures
        told_apart::<Result<T, E>>(),
        r.val(w).head matches Head::NewtypeVariant(_, name) && name == (if r is Ok {
            "Ok"@
        } else {
            "Err"@
        }),
{
    reveal_strlit("Ok");
    reveal_strlit("Err");
    assert forall|a: Result<T, E>, b: Result<T, E>, u: Walk| #[trigger] a.stands_for(
        b.val(u),
    ) implies a == b by {
        match (a, b) {
            (Ok(x), Ok(y)) => {
                assert(x.stands_for(y.val(u)));
            },
            (Err(x), Err(y)) => {
                assert(x.stands_for(y.val(u)));
            },
            _ => {},
        }
    }
}

/// Bounds are told apart where what they hold is; the name of the variant says
/// which kind of bound it is.
pub proof fn lemma_bounds_apart<T: Modeled>(bound: Bound<T>, w: Walk)
    requires
        told_apart::<T>(),
    ensures
        told_apart::<Bound<T>>(),
        bound is Unbounded <==> (bound.val(w).head matches Head::UnitVariant(_, name) && name
            == "Unbounded"@),
        bound is Included <==> (bound.val(w).head matches Head::NewtypeVariant(_, name) && name
            == "Included"@),
        bound is Excluded <==> (bound.val(w).head matches Head::NewtypeVariant(_, name) && name
            == "Excluded"@),
{
    reveal_strlit("Included");
    reveal_strlit("Excluded");
    assert("Included"@[0] != "Excluded"@[0]);
    assert forall|a: Bound<T>, b: Bound<T>, u: Walk| #[trigger] a.stands_for(
        b.val(u),
    ) implies a == b by {
        match (a, b) {
            (Bound::Included(x), Bound::Included(y)) => {
                assert(x.stands_for(y.val(u)));
            },
            (Bound::Excluded(x), Bound::Excluded(y)) => {
                assert(x.stands_for(y.val(u)));
            },
            _ => {},
        }
    }
}

/// Items that are told apart make lists that are, item by item and in order.
proof fn lemma_items_apart<T: Modeled>(a: Seq<T>, b: Seq<T>, w: Walk)
    requires
        told_apart::<T>(),
        crate::typed_ser::all_stand(a, item_vals(b, w)),
    ensures
        a == b,
{
    assert forall|i: int| 0 <= i < a.len() implies a[i] == b[i] by {
        assert(a[i].stands_for(b[i].val(w.part(i))));
    }
    assert(a =~= b);
}

/// Lists are told apart where their items are: the same items, in order.
pub proof fn lemma_lists_apart<T: Modeled, const N: usize>(w: Walk)
    requires
        told_apart::<T>(),
    ensures
        forall|a: Vec<T>, b: Vec<T>| #[trigger] a.stands_for(b.val(w)) ==> a@ == b@,
        forall|a: VecDeque<T>, b: VecDeque<T>| #[trigger] a.stands_for(b.val(w)) ==> a@ == b@,
        forall|a: [T; N], b: [T; N]| #[trigger] a.stands_for(b.val(w)) ==> a@ == b@,
{
    assert forall|a: Vec<T>, b: Vec<T>| #[trigger] a.stands_for(b.val(w)) implies a@ == b@ by {
        lemma_items_apart(a@, b@, w);
    }
    assert forall|a: VecDeque<T>, b: VecDeque<T>| #[trigger] a.stands_for(b.val(w)) implies a@
        == b@ by {
        lemma_items_apart(a@, b@, w);
    }
    assert forall|a: [T; N], b: [T; N]| #[trigger] a.stands_for(b.val(w)) implies a@ == b@ by {
        lemma_items_apart(a@, b@, w);
    }
}

/// A list has its items where they stand in it, and can be written exactly if
/// each of them can.
pub proof fn lemma_list_places<T: SerializeColumns>(list: Vec<T>, w: Walk)
    ensures
        list.val(w).kids.len() == list@.len(),
        forall|i: int| 0 <= i < list@.len() ==> at_place(#[trigger] list@[i], list.val(w), i, true),
        list.writes() <==> forall|i: int| 0 <= i < list@.len() ==> (#[trigger] list@[i]).writes(),
{
    assert forall|i: int| 0 <= i < list@.len() implies at_place(
        #[trigger] list@[i],
        list.val(w),
        i,
        true,
    ) by {
        assert(list.val(w).kids[i] == list@[i].val(w.part(i)));
    }
}

proof fn lemma_field<T: Modeled>(x: T, v: Val, i: int, name: Seq<char>, own: bool)
    requires
        at_place(x, v, i, own),
        v.head matches Head::Struct(_, labels) && i < labels.len() && labels[i] == name,
    ensures
        under_name(x, v, name, own),
{
}

proof fn lemma_presents<T: Modeled>(x: T, w: Walk)
    ensures
        presents(x, x.val(w)),
{
}

/// A range has its bounds under their names.
pub proof fn lemma_range_fields<T: StaticSchema + Modeled>(x: Range<T>, v: Val, w: Walk)
    ensures
        under_name(x.start, x.val(w), "start"@, true),
        under_name(x.end, x.val(w), "end"@, true),
        x.stands_for(v) ==> under_name(x.start, v, "start"@, false) && under_name(x.end, v, "end"@, false),
{
    let own = x.val(w);
    lemma_presents(x.start, w.part(0));
    lemma_presents(x.end, w.part(1));
    lemma_field(x.start, own, 0, "start"@, true);
    lemma_field(x.end, own, 1, "end"@, true);
    if x.stands_for(v) {
        lemma_field(x.start, v, 0, "start"@, false);
        lemma_field(x.end, v, 1, "end"@, false);
    }
}

/// An inclusive range has its bounds under their names.
pub proof fn lemma_range_inclusive_fields<T: StaticSchema + Modeled>(x: RangeInclusive<T>, v: Val, w: Walk)
    ensures
        under_name(x@.start, x.val(w), "start"@, true),
        under_name(x@.end, x.val(w), "end"@, true),
        x.stands_for(v) ==> under_name(x@.start, v, "start"@, false) && under_name(x@.end, v, "end"@, false),
{
    let own = x.val(w);
    lemma_presents(x@.start, w.part(0));
    lemma_presents(x@.end, w.part(1));
    lemma_field(x@.start, own, 0, "start"@, true);
    lemma_field(x@.end, own, 1, "end"@, true);
    if x.stands_for(v) {
        lemma_field(x@.start, v, 0, "start"@, false);
        lemma_field(x@.end, v, 1, "end"@, false);
    }
}

/// A span of time has its seconds and nanoseconds under their names.
pub proof fn lemma_duration_fields(x: Duration, v: Val, w: Walk)
    ensures
        under_name(x.seconds(), x.val(w), "secs"@, true),
        under_name(x.nanoseconds(), x.val(w), "nanos"@, true),
        x.stands_for(v) ==> under_name(x.seconds(), v, "secs"@, false) && under_name(x.nanoseconds(), v, "nanos"@, false),
{
    let own = x.val(w);
    lemma_presents(x.seconds(), w.part(0));
    lemma_presents(x.nanoseconds(), w.part(1));
    lemma_field(x.seconds(), own, 0, "secs"@, true);
    lemma_field(x.nanoseconds(), own, 1, "nanos"@, true);
    if x.stands_for(v) {
        lemma_field(x.seconds(), v, 0, "secs"@, false);
        lemma_field(x.nanoseconds(), v, 1, "nanos"@, false);
    }
}

/// A moment has its seconds and nanoseconds under their names.
pub proof fn lemma_moment_fields(x: SystemTime, v: Val, w: Walk)
    ensures
        under_name((x.seconds() as u64), x.val(w), "secs_since_epoch"@, true),
        under_name(x.nanoseconds(), x.val(w), "nanos_since_epoch"@, true),
        x.stands_for(v) ==> under_name((x.seconds() as u64), v, "secs_since_epoch"@, false) && under_name(x.nanoseconds(), v, "nanos_since_epoch"@, false),
{
    let own = x.val(w);
    lemma_presents((x.seconds() as u64), w.part(0));
    lemma_presents(x.nanoseconds(), w.part(1));
    lemma_field((x.seconds() as u64), own, 0, "secs_since_epoch"@, true);
    lemma_field(x.nanoseconds(), own, 1, "nanos_since_epoch"@, true);
    if x.stands_for(v) {
        lemma_field((x.seconds() as u64), v, 0, "secs_since_epoch"@, false);
        lemma_field(x.nanoseconds(), v, 1, "nanos_since_epoch"@, false);
    }
}

/// A value looks the same behind a pointer or in a wrapper that adds nothing:
/// whether it is written, what it looks like, and what it is read from.
pub proof fn lemma_pointers_alike<T: SerializeColumns + Clone>(x: T, v: Val, w: Walk)
    ensures
        Box::new(x).val(w) == x.val(w),
        Box::new(x).stands_for(v) <==> x.stands_for(v),
        Box::new(x).writes() <==> x.writes(),
        (&x).val(w) == x.val(w),
        (&x).stands_for(v) <==> x.stands_for(v),
        (&x).writes() <==> x.writes(),
        Wrapping(x).val(w) == x.val(w),
        Wrapping(x).stands_for(v) <==> x.stands_for(v),
        Wrapping(x).writes() <==> x.writes(),
        Cow::Owned::<'_, T>(x).val(w) == x.val(w),
        Cow::Owned::<'_, T>(x).stands_for(v) <==> x.stands_for(v),
        Cow::Owned::<'_, T>(x).writes() <==> x.writes(),
        Cow::Borrowed(&x).val(w) == x.val(w),
        Cow::Borrowed(&x).stands_for(v) <==> x.stands_for(v),
        Cow::Borrowed(&x).writes() <==> x.writes(),
{
}

/// Types that differ only in how a program holds their values have one schema,
/// so that each reads what the others wrote.
pub proof fn lemma_interchangeable<T: StaticSchema + Clone, K: StaticSchema, S, R>()
    ensures
        <Box<T>>::node() == T::node(),
        <Rc<T>>::node() == T::node(),
        <Arc<T>>::node() == T::node(),
        <&T>::node() == T::node(),
        <Cow<'_, T>>::node() == T::node(),
        <Wrapping<T>>::node() == T::node(),
        <VecDeque<T>>::node() == <Vec<T>>::node(),
        <[T]>::node() == <Vec<T>>::node(),
        <Cow<'_, [T]>>::node() == <Vec<T>>::node(),
        <BTreeSet<T>>::node() == <Vec<T>>::node(),
        <HashSet<T, S>>::node() == <Vec<T>>::node(),
        <HashMap<K, T, S>>::node() == <BTreeMap<K, T>>::node(),
        <HashMap<K, T, R>>::node() == <HashMap<K, T, S>>::node(),
        <str>::node() == <String>::node(),
        <Cow<'_, str>>::node() == <String>::node(),
        <std::path::PathBuf>::node() == <std::path::Path>::node(),
        <std::path::PathBuf>::node() == <String>::node(),
        <isize>::node() == <i64>::node(),
        <usize>::node() == <u64>::node(),
{
}

/// What items are refused with is what the first that cannot be written is
/// refused with; where each can be written it is nothing.
pub proof fn lemma_first_refusal<T: SerializeColumns>(items: Seq<T>, i: nat)
    ensures
        (forall|k: int| i <= k < items.len() ==> (#[trigger] items[k]).writes()) ==> first_refusal(
            items,
            i,
        ) is None,
        forall|k: int|
            i <= k < items.len() && !(#[trigger] items[k]).writes() && (forall|j: int|
                i <= j < k ==> (#[trigger] items[j]).writes()) ==> first_refusal(items, i)
                == items[k].refusal(),
    decreases items.len() - i,
{
    if i < items.len() {
        lemma_first_refusal(items, i + 1);
    }
}

/// A range can be written exactly if both its bounds can.
pub proof fn lemma_range_writes<T: SerializeColumns>(x: Range<T>)
    ensures
        x.writes() <==> x.start.writes() && x.end.writes(),
{
}

/// An integer that is not zero looks like the integer.
pub proof fn lemma_nonzero_alike<T: Zeroable>(x: NonZero<T>, v: Val, w: Walk)
    ensures
        x.val(w) == x.held().val(w),
        x.stands_for(v) <==> x.held().stands_for(v),
{
}

/// A tuple of one has its parts in order, and can be written exactly if each can.
pub proof fn lemma_places_1<
    T0: SerializeColumns,
>(x: (T0,), v: Val, w: Walk)
    ensures
        x.val(w).kids.len() == 1,
        at_place(x.0, x.val(w), 0, true),
        x.stands_for(v) ==> {
            &&& v.kids.len() == 1
            &&& at_place(x.0, v, 0, false)
        },
        x.writes() <==> {
            &&& x.0.writes()
        },
{
    lemma_presents(x.0, w.part(0));
}

/// A tuple has its parts in order, and can be written exactly if each can.
pub proof fn lemma_places_2<
    T0: SerializeColumns,
    T1: SerializeColumns,
>(x: (T0, T1), v: Val, w: Walk)
    ensures
        x.val(w).kids.len() == 2,
        at_place(x.0, x.val(w), 0, true),
        at_place(x.1, x.val(w), 1, true),
        x.stands_for(v) ==> {
            &&& v.kids.len() == 2
            &&& at_place(x.0, v, 0, false)
            &&& at_place(x.1, v, 1, false)
        },
        x.writes() <==> {
            &&& x.0.writes()
            &&& x.1.writes()
        },
{
    lemma_presents(x.0, w.part(0));
    lemma_presents(x.1, w.part(1));
}

/// A tuple has its parts in order, and can be written exactly if each can.
pub proof fn lemma_places_3<
    T0: SerializeColumns,
    T1: SerializeColumns,
    T2: SerializeColumns,
>(x: (T0, T1, T2), v: Val, w: Walk)
    ensures
        x.val(w).kids.len() == 3,
        at_place(x.0, x.val(w), 0, true),
        at_place(x.1, x.val(w), 1, true),
        at_place(x.2, x.val(w), 2, true),
        x.stands_for(v) ==> {
            &&& v.kids.len() == 3
            &&& at_place(x.0, v, 0, false)
            &&& at_place(x.1, v, 1, false)
            &&& at_place(x.2, v, 2, false)
        },
        x.writes() <==> {
            &&& x.0.writes()
            &&& x.1.writes()
            &&& x.2.writes()
        },
{
    lemma_presents(x.0, w.part(0));
    lemma_presents(x.1, w.part(1));
    lemma_presents(x.2, w.part(2));
}

/// A tuple has its parts in order, and can be written exactly if each can.
pub proof fn lemma_places_4<
    T0: SerializeColumns,
    T1: SerializeColumns,
    T2: SerializeColumns,
    T3: SerializeColumns,
>(x: (T0, T1, T2, T3), v: Val, w: Walk)
    ensures
        x.val(w).kids.len() == 4,
        at_place(x.0, x.val(w), 0, true),
        at_place(x.1, x.val(w), 1, true),
        at_place(x.2, x.val(w), 2, true),
        at_place(x.3, x.val(w), 3, true),
        x.stands_for(v) ==> {
            &&& v.kids.len() == 4
            &&& at_place(x.0, v, 0, false)
            &&& at_place(x.1, v, 1, false)
            &&& at_place(x.2, v, 2, false)
            &&& at_place(x.3, v, 3, false)
        },
        x.writes() <==> {
            &&& x.0.writes()
            &&& x.1.writes()
            &&& x.2.writes()
            &&& x.3.writes()
        },
{
    lemma_presents(x.0, w.part(0));
    lemma_presents(x.1, w.part(1));
    lemma_presents(x.2, w.part(2));
    lemma_presents(x.3, w.part(3));
}

/// A tuple has its parts in order, and can be written exactly if each can.
pub proof fn lemma_places_5<
    T0: SerializeColumns,
    T1: SerializeColumns,
    T2: SerializeColumns,
    T3: SerializeColumns,
    T4: SerializeColumns,
>(x: (T0, T1, T2, T3, T4), v: Val, w: Walk)
    ensures
        x.val(w).kids.len() == 5,
        at_place(x.0, x.val(w), 0, true),
        at_place(x.1, x.val(w), 1, true),
        at_place(x.2, x.val(w), 2, true),
        at_place(x.3, x.val(w), 3, true),
        at_place(x.4, x.val(w), 4, true),
        x.stands_for(v) ==> {
            &&& v.kids.len() == 5
            &&& at_place(x.0, v, 0, false)
            &&& at_place(x.1, v, 1, false)
            &&& at_place(x.2, v, 2, false)
            &&& at_place(x.3, v, 3, false)
            &&& at_place(x.4, v, 4, false)
        },
        x.writes() <==> {
            &&& x.0.writes()
            &&& x.1.writes()
            &&& x.2.writes()
            &&& x.3.writes()
            &&& x.4.writes()
        },
{
    lemma_presents(x.0, w.part(0).part(0));
    lemma_presents(x.1, w.part(0).part(1));
    lemma_presents(x.2, w.part(0).part(2));
    lemma_presents(x.3, w.part(0).part(3));
    lemma_presents(x.4, w.part(1));
}

/// A tuple has its parts in order, and can be written exactly if each can.
pub proof fn lemma_places_6<
    T0: SerializeColumns,
    T1: SerializeColumns,
    T2: SerializeColumns,
    T3: SerializeColumns,
    T4: SerializeColumns,
    T5: SerializeColumns,
>(x: (T0, T1, T2, T3, T4, T5), v: Val, w: Walk)
    ensures
        x.val(w).kids.len() == 6,
        at_place(x.0, x.val(w), 0, true),
        at_place(x.1, x.val(w), 1, true),
        at_place(x.2, x.val(w), 2, true),
        at_place(x.3, x.val(w), 3, true),
        at_place(x.4, x.val(w), 4, true),
        at_place(x.5, x.val(w), 5, true),
        x.stands_for(v) ==> {
            &&& v.kids.len() == 6
            &&& at_place(x.0, v, 0, false)
            &&& at_place(x.1, v, 1, false)
            &&& at_place(x.2, v, 2, false)
            &&& at_place(x.3, v, 3, false)
            &&& at_place(x.4, v, 4, false)
            &&& at_place(x.5, v, 5, false)
        },
        x.writes() <==> {
            &&& x.0.writes()
            &&& x.1.writes()
            &&& x.2.writes()
            &&& x.3.writes()
            &&& x.4.writes()
            &&& x.5.writes()
        },
{
    lemma_presents(x.0, w.part(0).part(0));
    lemma_presents(x.1, w.part(0).part(1));
    lemma_presents(x.2, w.part(0).part(2));
    lemma_presents(x.3, w.part(0).part(3));
    lemma_presents(x.4, w.part(1).part(0));
    lemma_presents(x.5, w.part(1).part(1));
}

/// A tuple has its parts in order, and can be written exactly if each can.
pub proof fn lemma_places_7<
    T0: SerializeColumns,
    T1: SerializeColumns,
    T2: SerializeColumns,
    T3: SerializeColumns,
    T4: SerializeColumns,
    T5: SerializeColumns,
    T6: SerializeColumns,
>(x: (T0, T1, T2, T3, T4, T5, T6), v: Val, w: Walk)
    ensures
        x.val(w).kids.len() == 7,
        at_place(x.0, x.val(w), 0, true),
        at_place(x.1, x.val(w), 1, true),
        at_place(x.2, x.val(w), 2, true),
        at_place(x.3, x.val(w), 3, true),
        at_place(x.4, x.val(w), 4, true),
        at_place(x.5, x.val(w), 5, true),
        at_place(x.6, x.val(w), 6, true),
        x.stands_for(v) ==> {
            &&& v.kids.len() == 7
            &&& at_place(x.0, v, 0, false)
            &&& at_place(x.1, v, 1, false)
            &&& at_place(x.2, v, 2, false)
            &&& at_place(x.3, v, 3, false)
            &&& at_place(x.4, v, 4, false)
            &&& at_place(x.5, v, 5, false)
            &&& at_place(x.6, v, 6, false)
        },
        x.writes() <==> {
            &&& x.0.writes()
            &&& x.1.writes()
            &&& x.2.writes()
            &&& x.3.writes()
            &&& x.4.writes()
            &&& x.5.writes()
            &&& x.6.writes()
        },
{
    lemma_presents(x.0, w.part(0).part(0).part(0));
    lemma_presents(x.1, w.part(0).part(0).part(1));
    lemma_presents(x.2, w.part(0).part(0).part(2));
    lemma_presents(x.3, w.part(0).part(0).part(3));
    lemma_presents(x.4, w.part(0).part(1).part(0));
    lemma_presents(x.5, w.part(0).part(1).part(1));
    lemma_presents(x.6, w.part(1).part(0));
}

/// A tuple has its parts in order, and can be written exactly if each can.
pub proof fn lemma_places_8<
    T0: SerializeColumns,
    T1: SerializeColumns,
    T2: SerializeColumns,
    T3: SerializeColumns,
    T4: SerializeColumns,
    T5: SerializeColumns,
    T6: SerializeColumns,
    T7: SerializeColumns,
>(x: (T0, T1, T2, T3, T4, T5, T6, T7), v: Val, w: Walk)
    ensures
        x.val(w).kids.len() == 8,
        at_place(x.0, x.val(w), 0, true),
        at_place(x.1, x.val(w), 1, true),
        at_place(x.2, x.val(w), 2, true),
        at_place(x.3, x.val(w), 3, true),
        at_place(x.4, x.val(w), 4, true),
        at_place(x.5, x.val(w), 5, true),
        at_place(x.6, x.val(w), 6, true),
        at_place(x.7, x.val(w), 7, true),
        x.stands_for(v) ==> {
            &&& v.kids.len() == 8
            &&& at_place(x.0, v, 0, false)
            &&& at_place(x.1, v, 1, false)
            &&& at_place(x.2, v, 2, false)
            &&& at_place(x.3, v, 3, false)
            &&& at_place(x.4, v, 4, false)
            &&& at_place(x.5, v, 5, false)
            &&& at_place(x.6, v, 6, false)
            &&& at_place(x.7, v, 7, false)
        },
        x.writes() <==> {
            &&& x.0.writes()
            &&& x.1.writes()
            &&& x.2.writes()
            &&& x.3.writes()
            &&& x.4.writes()
            &&& x.5.writes()
            &&& x.6.writes()
            &&& x.7.writes()
        },
{
    lemma_presents(x.0, w.part(0).part(0).part(0));
    lemma_presents(x.1, w.part(0).part(0).part(1));
    lemma_presents(x.2, w.part(0).part(0).part(2));
    lemma_presents(x.3, w.part(0).part(0).part(3));
    lemma_presents(x.4, w.part(0).part(1).part(0));
    lemma_presents(x.5, w.part(0).part(1).part(1));
    lemma_presents(x.6, w.part(1).part(0));
    lemma_presents(x.7, w.part(1).part(1));
}

/// A tuple has its parts in order, and can be written exactly if each can.
pub proof fn lemma_places_9<
    T0: SerializeColumns,
    T1: SerializeColumns,
    T2: SerializeColumns,
    T3: SerializeColumns,
    T4: SerializeColumns,
    T5: SerializeColumns,
    T6: SerializeColumns,
    T7: SerializeColumns,
    T8: SerializeColumns,
>(x: (T0, T1, T2, T3, T4, T5, T6, T7, T8), v: Val, w: Walk)
    ensures
        x.val(w).kids.len() == 9,
        at_place(x.0, x.val(w), 0, true),
        at_place(x.1, x.val(w), 1, true),
        at_place(x.2, x.val(w), 2, true),
        at_place(x.3, x.val(w), 3, true),
        at_place(x.4, x.val(w), 4, true),
        at_place(x.5, x.val(w), 5, true),
        at_place(x.6, x.val(w), 6, true),
        at_place(x.7, x.val(w), 7, true),
        at_place(x.8, x.val(w), 8, true),
        x.stands_for(v) ==> {
            &&& v.kids.len() == 9
            &&& at_place(x.0, v, 0, false)
            &&& at_place(x.1, v, 1, false)
            &&& at_place(x.2, v, 2, false)
            &&& at_place(x.3, v, 3, false)
            &&& at_place(x.4, v, 4, false)
            &&& at_place(x.5, v, 5, false)
            &&& at_place(x.6, v, 6, false)
            &&& at_place(x.7, v, 7, false)
            &&& at_place(x.8, v, 8, false)
        },
        x.writes() <==> {
            &&& x.0.writes()
            &&& x.1.writes()
            &&& x.2.writes()
            &&& x.3.writes()
            &&& x.4.writes()
            &&& x.5.writes()
            &&& x.6.writes()
            &&& x.7.writes()
            &&& x.8.writes()
        },
{
    lemma_presents(x.0, w.part(0).part(0).part(0));
    lemma_presents(x.1, w.part(0).part(0).part(1));
    lemma_presents(x.2, w.part(0).part(0).part(2));
    lemma_presents(x.3, w.part(0).part(0).part(3));
    lemma_presents(x.4, w.part(0).part(1).part(0));
    lemma_presents(x.5, w.part(0).part(1).part(1));
    lemma_presents(x.6, w.part(1).part(0));
    lemma_presents(x.7, w.part(1).part(1));
    lemma_presents(x.8, w.part(1).part(2));
}

/// A tuple has its parts in order, and can be written exactly if each can.
pub proof fn lemma_places_10<
    T0: SerializeColumns,
    T1: SerializeColumns,
    T2: SerializeColumns,
    T3: SerializeColumns,
    T4: SerializeColumns,
    T5: SerializeColumns,
    T6: SerializeColumns,
    T7: SerializeColumns,
    T8: SerializeColumns,
    T9: SerializeColumns,
>(x: (T0, T1, T2, T3, T4, T5, T6, T7, T8, T9), v: Val, w: Walk)
    ensures
        x.val(w).kids.len() == 10,
        at_place(x.0, x.val(w), 0, true),
        at_place(x.1, x.val(w), 1, true),
        at_place(x.2, x.val(w), 2, true),
        at_place(x.3, x.val(w), 3, true),
        at_place(x.4, x.val(w), 4, true),
        at_place(x.5, x.val(w), 5, true),
        at_place(x.6, x.val(w), 6, true),
        at_place(x.7, x.val(w), 7, true),
        at_place(x.8, x.val(w), 8, true),
        at_place(x.9, x.val(w), 9, true),
        x.stands_for(v) ==> {
            &&& v.kids.len() == 10
            &&& at_place(x.0, v, 0, false)
            &&& at_place(x.1, v, 1, false)
            &&& at_place(x.2, v, 2, false)
            &&& at_place(x.3, v, 3, false)
            &&& at_place(x.4, v, 4, false)
            &&& at_place(x.5, v, 5, false)
            &&& at_place(x.6, v, 6, false)
            &&& at_place(x.7, v, 7, false)
            &&& at_place(x.8, v, 8, false)
            &&& at_place(x.9, v, 9, false)
        },
        x.writes() <==> {
            &&& x.0.writes()
            &&& x.1.writes()
            &&& x.2.writes()
            &&& x.3.writes()
            &&& x.4.writes()
            &&& x.5.writes()
            &&& x.6.writes()
            &&& x.7.writes()
            &&& x.8.writes()
            &&& x.9.writes()
        },
{
    lemma_presents(x.0, w.part(0).part(0).part(0));
    lemma_presents(x.1, w.part(0).part(0).part(1));
    lemma_presents(x.2, w.part(0).part(0).part(2));
    lemma_presents(x.3, w.part(0).part(0).part(3));
    lemma_presents(x.4, w.part(0).part(1).part(0));
    lemma_presents(x.5, w.part(0).part(1).part(1));
    lemma_presents(x.6, w.part(1).part(0));
    lemma_presents(x.7, w.part(1).part(1));
    lemma_presents(x.8, w.part(1).part(2));
    lemma_presents(x.9, w.part(1).part(3));
}

/// A tuple has its parts in order, and can be written exactly if each can.
pub proof fn lemma_places_11<
    T0: SerializeColumns,
    T1: SerializeColumns,
    T2: SerializeColumns,
    T3: SerializeColumns,
    T4: SerializeColumns,
    T5: SerializeColumns,
    T6: SerializeColumns,
    T7: SerializeColumns,
    T8: SerializeColumns,
    T9: SerializeColumns,
    T10: SerializeColumns,
>(x: (T0, T1, T2, T3, T4, T5, T6, T7, T8, T9, T10), v: Val, w: Walk)
    ensures
        x.val(w).kids.len() == 11,
        at_place(x.0, x.val(w), 0, true),
        at_place(x.1, x.val(w), 1, true),
        at_place(x.2, x.val(w), 2, true),
        at_place(x.3, x.val(w), 3, true),
        at_place(x.4, x.val(w), 4, true),
        at_place(x.5, x.val(w), 5, true),
        at_place(x.6, x.val(w), 6, true),
        at_place(x.7, x.val(w), 7, true),
        at_place(x.8, x.val(w), 8, true),
        at_place(x.9, x.val(w), 9, true),
        at_place(x.10, x.val(w), 10, true),
        x.stands_for(v) ==> {
            &&& v.kids.len() == 11
            &&& at_place(x.0, v, 0, false)
            &&& at_place(x.1, v, 1, false)
            &&& at_place(x.2, v, 2, false)
            &&& at_place(x.3, v, 3, false)
            &&& at_place(x.4, v, 4, false)
            &&& at_place(x.5, v, 5, false)
            &&& at_place(x.6, v, 6, false)
            &&& at_place(x.7, v, 7, false)
            &&& at_place(x.8, v, 8, false)
            &&& at_place(x.9, v, 9, false)
            &&& at_place(x.10, v, 10, false)
        },
        x.writes() <==> {
            &&& x.0.writes()
            &&& x.1.writes()
            &&& x.2.writes()
            &&& x.3.writes()
            &&& x.4.writes()
            &&& x.5.writes()
            &&& x.6.writes()
            &&& x.7.writes()
            &&& x.8.writes()
            &&& x.9.writes()
            &&& x.10.writes()
        },
{
    lemma_presents(x.0, w.part(0).part(0).part(0));
    lemma_presents(x.1, w.part(0).part(0).part(1));
    lemma_presents(x.2, w.part(0).part(0).part(2));
    lemma_presents(x.3, w.part(0).part(0).part(3));
    lemma_presents(x.4, w.part(0).part(1).part(0));
    lemma_presents(x.5, w.part(0).part(1).part(1));
    lemma_presents(x.6, w.part(1).part(0).part(0));
    lemma_presents(x.7, w.part(1).part(0).part(1));
    lemma_presents(x.8, w.part(1).part(0).part(2));
    lemma_presents(x.9, w.part(1).part(0).part(3));
    lemma_presents(x.10, w.part(1).part(1));
}

/// A tuple has its parts in order, and can be written exactly if each can.
pub proof fn lemma_places_12<
    T0: SerializeColumns,
    T1: SerializeColumns,
    T2: SerializeColumns,
    T3: SerializeColumns,
    T4: SerializeColumns,
    T5: SerializeColumns,
    T6: SerializeColumns,
    T7: SerializeColumns,
    T8: SerializeColumns,
    T9: SerializeColumns,
    T10: SerializeColumns,
    T11: SerializeColumns,
>(x: (T0, T1, T2, T3, T4, T5, T6, T7, T8, T9, T10, T11), v: Val, w: Walk)
    ensures
        x.val(w).kids.len() == 12,
        at_place(x.0, x.val(w), 0, true),
        at_place(x.1, x.val(w), 1, true),
        at_place(x.2, x.val(w), 2, true),
        at_place(x.3, x.val(w), 3, true),
        at_place(x.4, x.val(w), 4, true),
        at_place(x.5, x.val(w), 5, true),
        at_place(x.6, x.val(w), 6, true),
        at_place(x.7, x.val(w), 7, true),
        at_place(x.8, x.val(w), 8, true),
        at_place(x.9, x.val(w), 9, true),
        at_place(x.10, x.val(w), 10, true),
        at_place(x.11, x.val(w), 11, true),
        x.stands_for(v) ==> {
            &&& v.kids.len() == 12
            &&& at_place(x.0, v, 0, false)
            &&& at_place(x.1, v, 1, false)
            &&& at_place(x.2, v, 2, false)
            &&& at_place(x.3, v, 3, false)
            &&& at_place(x.4, v, 4, false)
            &&& at_place(x.5, v, 5, false)
            &&& at_place(x.6, v, 6, false)
            &&& at_place(x.7, v, 7, false)
            &&& at_place(x.8, v, 8, false)
            &&& at_place(x.9, v, 9, false)
            &&& at_place(x.10, v, 10, false)
            &&& at_place(x.11, v, 11, false)
        },
        x.writes() <==> {
            &&& x.0.writes()
            &&& x.1.writes()
            &&& x.2.writes()
            &&& x.3.writes()
            &&& x.4.writes()
            &&& x.5.writes()
            &&& x.6.writes()
            &&& x.7.writes()
            &&& x.8.writes()
            &&& x.9.writes()
            &&& x.10.writes()
            &&& x.11.writes()
        },
{
    lemma_presents(x.0, w.part(0).part(0).part(0));
    lemma_presents(x.1, w.part(0).part(0).part(1));
    lemma_presents(x.2, w.part(0).part(0).part(2));
    lemma_presents(x.3, w.part(0).part(0).part(3));
    lemma_presents(x.4, w.part(0).part(1).part(0));
    lemma_presents(x.5, w.part(0).part(1).part(1));
    lemma_presents(x.6, w.part(1).part(0).part(0));
    lemma_presents(x.7, w.part(1).part(0).part(1));
    lemma_presents(x.8, w.part(1).part(0).part(2));
    lemma_presents(x.9, w.part(1).part(0).part(3));
    lemma_presents(x.10, w.part(1).part(1).part(0));
    lemma_presents(x.11, w.part(1).part(1).part(1));
}

/// A tuple has its parts in order, and can be written exactly if each can.
pub proof fn lemma_places_13<
    T0: SerializeColumns,
    T1: SerializeColumns,
    T2: SerializeColumns,
    T3: SerializeColumns,
    T4: SerializeColumns,
    T5: SerializeColumns,
    T6: SerializeColumns,
    T7: SerializeColumns,
    T8: SerializeColumns,
    T9: SerializeColumns,
    T10: SerializeColumns,
    T11: SerializeColumns,
    T12: SerializeColumns,
>(x: (T0, T1, T2, T3, T4, T5, T6, T7, T8, T9, T10, T11, T12), v: Val, w: Walk)
    ensures
        x.val(w).kids.len() == 13,
        at_place(x.0, x.val(w), 0, true),
        at_place(x.1, x.val(w), 1, true),
        at_place(x.2, x.val(w), 2, true),
        at_place(x.3, x.val(w), 3, true),
        at_place(x.4, x.val(w), 4, true),
        at_place(x.5, x.val(w), 5, true),
        at_place(x.6, x.val(w), 6, true),
        at_place(x.7, x.val(w), 7, true),
        at_place(x.8, x.val(w), 8, true),
        at_place(x.9, x.val(w), 9, true),
        at_place(x.10, x.val(w), 10, true),
        at_place(x.11, x.val(w), 11, true),
        at_place(x.12, x.val(w), 12, true),
        x.stands_for(v) ==> {
            &&& v.kids.len() == 13
            &&& at_place(x.0, v, 0, false)
            &&& at_place(x.1, v, 1, false)
            &&& at_place(x.2, v, 2, false)
            &&& at_place(x.3, v, 3, false)
            &&& at_place(x.4, v, 4, false)
            &&& at_place(x.5, v, 5, false)
            &&& at_place(x.6, v, 6, false)
            &&& at_place(x.7, v, 7, false)
            &&& at_place(x.8, v, 8, false)
            &&& at_place(x.9, v, 9, false)
            &&& at_place(x.10, v, 10, false)
            &&& at_place(x.11, v, 11, false)
            &&& at_place(x.12, v, 12, false)
        },
        x.writes() <==> {
            &&& x.0.writes()
            &&& x.1.writes()
            &&& x.2.writes()
            &&& x.3.writes()
            &&& x.4.writes()
            &&& x.5.writes()
            &&& x.6.writes()
            &&& x.7.writes()
            &&& x.8.writes()
            &&& x.9.writes()
            &&& x.10.writes()
            &&& x.11.writes()
            &&& x.12.writes()
        },
{
    lemma_presents(x.0, w.part(0).part(0).part(0).part(0));
    lemma_presents(x.1, w.part(0).part(0).part(0).part(1));
    lemma_presents(x.2, w.part(0).part(0).part(0).part(2));
    lemma_presents(x.3, w.part(0).part(0).part(0).part(3));
    lemma_presents(x.4, w.part(0).part(0).part(1).part(0));
    lemma_presents(x.5, w.part(0).part(0).part(1).part(1));
    lemma_presents(x.6, w.part(0).part(1).part(0).part(0));
    lemma_presents(x.7, w.part(0).part(1).part(0).part(1));
    lemma_presents(x.8, w.part(0).part(1).part(0).part(2));
    lemma_presents(x.9, w.part(0).part(1).part(0).part(3));
    lemma_presents(x.10, w.part(0).part(1).part(1).part(0));
    lemma_presents(x.11, w.part(0).part(1).part(1).part(1));
    lemma_presents(x.12, w.part(1).part(0));
}

/// A tuple has its parts in order, and can be written exactly if each can.
pub proof fn lemma_places_14<
    T0: SerializeColumns,
    T1: SerializeColumns,
    T2: SerializeColumns,
    T3: SerializeColumns,
    T4: SerializeColumns,
    T5: SerializeColumns,
    T6: SerializeColumns,
    T7: SerializeColumns,
    T8: SerializeColumns,
    T9: SerializeColumns,
    T10: SerializeColumns,
    T11: SerializeColumns,
    T12: SerializeColumns,
    T13: SerializeColumns,
>(x: (T0, T1, T2, T3, T4, T5, T6, T7, T8, T9, T10, T11, T12, T13), v: Val, w: Walk)
    ensures
        x.val(w).kids.len() == 14,
        at_place(x.0, x.val(w), 0, true),
        at_place(x.1, x.val(w), 1, true),
        at_place(x.2, x.val(w), 2, true),
        at_place(x.3, x.val(w), 3, true),
        at_place(x.4, x.val(w), 4, true),
        at_place(x.5, x.val(w), 5, true),
        at_place(x.6, x.val(w), 6, true),
        at_place(x.7, x.val(w), 7, true),
        at_place(x.8, x.val(w), 8, true),
        at_place(x.9, x.val(w), 9, true),
        at_place(x.10, x.val(w), 10, true),
        at_place(x.11, x.val(w), 11, true),
        at_place(x.12, x.val(w), 12, true),
        at_place(x.13, x.val(w), 13, true),
        x.stands_for(v) ==> {
            &&& v.kids.len() == 14
            &&& at_place(x.0, v, 0, false)
            &&& at_place(x.1, v, 1, false)
            &&& at_place(x.2, v, 2, false)
            &&& at_place(x.3, v, 3, false)
            &&& at_place(x.4, v, 4, false)
            &&& at_place(x.5, v, 5, false)
            &&& at_place(x.6, v, 6, false)
            &&& at_place(x.7, v, 7, false)
            &&& at_place(x.8, v, 8, false)
            &&& at_place(x.9, v, 9, false)
            &&& at_place(x.10, v, 10, false)
            &&& at_place(x.11, v, 11, false)
            &&& at_place(x.12, v, 12, false)
            &&& at_place(x.13, v, 13, false)
        },
        x.writes() <==> {
            &&& x.0.writes()
            &&& x.1.writes()
            &&& x.2.writes()
            &&& x.3.writes()
            &&& x.4.writes()
            &&& x.5.writes()
            &&& x.6.writes()
            &&& x.7.writes()
            &&& x.8.writes()
            &&& x.9.writes()
            &&& x.10.writes()
            &&& x.11.writes()
            &&& x.12.writes()
            &&& x.13.writes()
        },
{
    lemma_presents(x.0, w.part(0).part(0).part(0).part(0));
    lemma_presents(x.1, w.part(0).part(0).part(0).part(1));
    lemma_presents(x.2, w.part(0).part(0).part(0).part(2));
    lemma_presents(x.3, w.part(0).part(0).part(0).part(3));
    lemma_presents(x.4, w.part(0).part(0).part(1).part(0));
    lemma_presents(x.5, w.part(0).part(0).part(1).part(1));
    lemma_presents(x.6, w.part(0).part(1).part(0).part(0));
    lemma_presents(x.7, w.part(0).part(1).part(0).part(1));
    lemma_presents(x.8, w.part(0).part(1).part(0).part(2));
    lemma_presents(x.9, w.part(0).part(1).part(0).part(3));
    lemma_presents(x.10, w.part(0).part(1).part(1).part(0));
    lemma_presents(x.11, w.part(0).part(1).part(1).part(1));
    lemma_presents(x.12, w.part(1).part(0));
    lemma_presents(x.13, w.part(1).part(1));
}

/// A tuple has its parts in order, and can be written exactly if each can.
pub proof fn lemma_places_15<
    T0: SerializeColumns,
    T1: SerializeColumns,
    T2: SerializeColumns,
    T3: SerializeColumns,
    T4: SerializeColumns,
    T5: SerializeColumns,
    T6: SerializeColumns,
    T7: SerializeColumns,
    T8: SerializeColumns,
    T9: SerializeColumns,
    T10: SerializeColumns,
    T11: SerializeColumns,
    T12: SerializeColumns,
    T13: SerializeColumns,
    T14: SerializeColumns,
>(x: (T0, T1, T2, T3, T4, T5, T6, T7, T8, T9, T10, T11, T12, T13, T14), v: Val, w: Walk)
    ensures
        x.val(w).kids.len() == 15,
        at_place(x.0, x.val(w), 0, true),
        at_place(x.1, x.val(w), 1, true),
        at_place(x.2, x.val(w), 2, true),
        at_place(x.3, x.val(w), 3, true),
        at_place(x.4, x.val(w), 4, true),
        at_place(x.5, x.val(w), 5, true),
        at_place(x.6, x.val(w), 6, true),
        at_place(x.7, x.val(w), 7, true),
        at_place(x.8, x.val(w), 8, true),
        at_place(x.9, x.val(w), 9, true),
        at_place(x.10, x.val(w), 10, true),
        at_place(x.11, x.val(w), 11, true),
        at_place(x.12, x.val(w), 12, true),
        at_place(x.13, x.val(w), 13, true),
        at_place(x.14, x.val(w), 14, true),
        x.stands_for(v) ==> {
            &&& v.kids.len() == 15
            &&& at_place(x.0, v, 0, false)
            &&& at_place(x.1, v, 1, false)
            &&& at_place(x.2, v, 2, false)
            &&& at_place(x.3, v, 3, false)
            &&& at_place(x.4, v, 4, false)
            &&& at_place(x.5, v, 5, false)
            &&& at_place(x.6, v, 6, false)
            &&& at_place(x.7, v, 7, false)
            &&& at_place(x.8, v, 8, false)
            &&& at_place(x.9, v, 9, false)
            &&& at_place(x.10, v, 10, false)
            &&& at_place(x.11, v, 11, false)
            &&& at_place(x.12, v, 12, false)
            &&& at_place(x.13, v, 13, false)
            &&& at_place(x.14, v, 14, false)
        },
        x.writes() <==> {
            &&& x.0.writes()
            &&& x.1.writes()
            &&& x.2.writes()
            &&& x.3.writes()
            &&& x.4.writes()
            &&& x.5.writes()
            &&& x.6.writes()
            &&& x.7.writes()
            &&& x.8.writes()
            &&& x.9.writes()
            &&& x.10.writes()
            &&& x.11.writes()
            &&& x.12.writes()
            &&& x.13.writes()
            &&& x.14.writes()
        },
{
    lemma_presents(x.0, w.part(0).part(0).part(0).part(0));
    lemma_presents(x.1, w.part(0).part(0).part(0).part(1));
    lemma_presents(x.2, w.part(0).part(0).part(0).part(2));
    lemma_presents(x.3, w.part(0).part(0).part(0).part(3));
    lemma_presents(x.4, w.part(0).part(0).part(1).part(0));
    lemma_presents(x.5, w.part(0).part(0).part(1).part(1));
    lemma_presents(x.6, w.part(0).part(1).part(0).part(0));
    lemma_presents(x.7, w.part(0).part(1).part(0).part(1));
    lemma_presents(x.8, w.part(0).part(1).part(0).part(2));
    lemma_presents(x.9, w.part(0).part(1).part(0).part(3));
    lemma_presents(x.10, w.part(0).part(1).part(1).part(0));
    lemma_presents(x.11, w.part(0).part(1).part(1).part(1));
    lemma_presents(x.12, w.part(1).part(0));
    lemma_presents(x.13, w.part(1).part(1));
    lemma_presents(x.14, w.part(1).part(2));
}

/// A tuple has its parts in order, and can be written exactly if each can.
pub proof fn lemma_places_16<
    T0: SerializeColumns,
    T1: SerializeColumns,
    T2: SerializeColumns,
    T3: SerializeColumns,
    T4: SerializeColumns,
    T5: SerializeColumns,
    T6: SerializeColumns,
    T7: SerializeColumns,
    T8: SerializeColumns,
    T9: SerializeColumns,
    T10: SerializeColumns,
    T11: SerializeColumns,
    T12: SerializeColumns,
    T13: SerializeColumns,
    T14: SerializeColumns,
    T15: SerializeColumns,
>(x: (T0, T1, T2, T3, T4, T5, T6, T7, T8, T9, T10, T11, T12, T13, T14, T15), v: Val, w: Walk)
    ensures
        x.val(w).kids.len() == 16,
        at_place(x.0, x.val(w), 0, true),
        at_place(x.1, x.val(w), 1, true),
        at_place(x.2, x.val(w), 2, true),
        at_place(x.3, x.val(w), 3, true),
        at_place(x.4, x.val(w), 4, true),
        at_place(x.5, x.val(w), 5, true),
        at_place(x.6, x.val(w), 6, true),
        at_place(x.7, x.val(w), 7, true),
        at_place(x.8, x.val(w), 8, true),
        at_place(x.9, x.val(w), 9, true),
        at_place(x.10, x.val(w), 10, true),
        at_place(x.11, x.val(w), 11, true),
        at_place(x.12, x.val(w), 12, true),
        at_place(x.13, x.val(w), 13, true),
        at_place(x.14, x.val(w), 14, true),
        at_place(x.15, x.val(w), 15, true),
        x.stands_for(v) ==> {
            &&& v.kids.len() == 16
            &&& at_place(x.0, v, 0, false)
            &&& at_place(x.1, v, 1, false)
            &&& at_place(x.2, v, 2, false)
            &&& at_place(x.3, v, 3, false)
            &&& at_place(x.4, v, 4, false)
            &&& at_place(x.5, v, 5, false)
            &&& at_place(x.6, v, 6, false)
            &&& at_place(x.7, v, 7, false)
            &&& at_place(x.8, v, 8, false)
            &&& at_place(x.9, v, 9, false)
            &&& at_place(x.10, v, 10, false)
            &&& at_place(x.11, v, 11, false)
            &&& at_place(x.12, v, 12, false)
            &&& at_place(x.13, v, 13, false)
            &&& at_place(x.14, v, 14, false)
            &&& at_place(x.15, v, 15, false)
        },
        x.writes() <==> {
            &&& x.0.writes()
            &&& x.1.writes()
            &&& x.2.writes()
            &&& x.3.writes()
            &&& x.4.writes()
            &&& x.5.writes()
            &&& x.6.writes()
            &&& x.7.writes()
            &&& x.8.writes()
            &&& x.9.writes()
            &&& x.10.writes()
            &&& x.11.writes()
            &&& x.12.writes()
            &&& x.13.writes()
            &&& x.14.writes()
            &&& x.15.writes()
        },
{
    lemma_presents(x.0, w.part(0).part(0).part(0).part(0));
    lemma_presents(x.1, w.part(0).part(0).part(0).part(1));
    lemma_presents(x.2, w.part(0).part(0).part(0).part(2));
    lemma_presents(x.3, w.part(0).part(0).part(0).part(3));
    lemma_presents(x.4, w.part(0).part(0).part(1).part(0));
    lemma_presents(x.5, w.part(0).part(0).part(1).part(1));
    lemma_presents(x.6, w.part(0).part(1).part(0).part(0));
    lemma_presents(x.7, w.part(0).part(1).part(0).part(1));
    lemma_presents(x.8, w.part(0).part(1).part(0).part(2));
    lemma_presents(x.9, w.part(0).part(1).part(0).part(3));
    lemma_presents(x.10, w.part(0).part(1).part(1).part(0));
    lemma_presents(x.11, w.part(0).part(1).part(1).part(1));
    lemma_presents(x.12, w.part(1).part(0));
    lemma_presents(x.13, w.part(1).part(1));
    lemma_presents(x.14, w.part(1).part(2));
    lemma_presents(x.15, w.part(1).part(3));
}

} // verus!
