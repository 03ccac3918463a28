//! What a comparison of two schemas finds: every pair of positions that lines up
//! is looked at, and what is reported is exactly the leaves whose range shrank.

use vstd::prelude::*;

use crate::compat::{
    finding, integer_kind, matched, range, scoped_path, survives, walked, walked_kid, zipped,
};
use crate::conform::lemma_first_named;
use crate::put::first_named;
use crate::schema::Primitive;
use crate::shape::{primitive_name, primitive_width, Kind, Shape};
use crate::text::decimal;

verus! {

/// One step from a pair of positions that line up to a pair of parts that do.
pub enum Step {
    /// To the only part of each.
    Only,
    /// Into a newtype wrapper that only the writer had.
    Dropped,
    /// Into a newtype wrapper that only the reader has.
    Gained,
    /// Into an option that only the reader has.
    Optional,
    /// To the keys of two maps.
    Key,
    /// To the values of two maps.
    Held,
    /// To the parts in one place.
    Place(nat),
    /// To the parts of one name: the writer's number and the reader's.
    Name(nat, nat),
}

/// Kinds with a single part that both sides have in the same way.
pub open spec fn is_single(kind: Kind) -> bool {
    kind is Option || kind is Sequence || kind is Shared || kind is NewtypeStruct
        || kind is NewtypeVariant
}

/// Kinds whose parts go by their places.
pub open spec fn is_placed(w: Kind, r: Kind) -> bool {
    ||| (w is Tuple || w is TupleStruct) && (r is Tuple || r is TupleStruct)
    ||| w is TupleVariant && r is TupleVariant
}

/// Kinds whose parts go by their names.
pub open spec fn is_named(w: Kind, r: Kind) -> bool {
    ||| w is Struct && r is Struct
    ||| w is Enum && r is Enum
    ||| w is StructVariant && r is StructVariant
}

/// Where a step leads, and what it adds to the path, if it can be taken.
pub open spec fn taken(w: Shape, r: Shape, step: Step) -> Option<(Shape, Shape, Option<Seq<char>>)> {
    match step {
        Step::Only => if w.kind == r.kind && is_single(w.kind) && w.kids.len() == 1
            && r.kids.len() == 1 {
            Some((w.kids[0], r.kids[0], None))
        } else {
            None
        },
        Step::Dropped => if w.kind is NewtypeStruct && !(r.kind is NewtypeStruct) && w.kids.len()
            == 1 {
            Some((w.kids[0], r, None))
        } else {
            None
        },
        Step::Gained => if r.kind is NewtypeStruct && !(w.kind is NewtypeStruct) && r.kids.len()
            == 1 {
            Some((w, r.kids[0], None))
        } else {
            None
        },
        Step::Optional => if r.kind is Option && !(w.kind is Option) && !(w.kind is NewtypeStruct)
            && r.kids.len() == 1 {
            Some((w, r.kids[0], None))
        } else {
            None
        },
        Step::Key => if w.kind is Mapping && r.kind is Mapping && w.kids.len() == 2 && r.kids.len()
            == 2 {
            Some((w.kids[0], r.kids[0], Some("key"@)))
        } else {
            None
        },
        Step::Held => if w.kind is Mapping && r.kind is Mapping && w.kids.len() == 2
            && r.kids.len() == 2 {
            Some((w.kids[1], r.kids[1], Some("value"@)))
        } else {
            None
        },
        Step::Place(i) => if is_placed(w.kind, r.kind) && i < w.kids.len() && i < r.kids.len() {
            Some((w.kids[i as int], r.kids[i as int], Some(decimal(i))))
        } else {
            None
        },
        Step::Name(i, j) => if is_named(w.kind, r.kind) && i < w.kids.len() && j < r.kids.len() && j
            < r.labels.len() && r.labels[j as int] == w.labels[i as int] && (forall|k: int|
            0 <= k < j ==> #[trigger] r.labels[k] != w.labels[i as int]) {
            Some((w.kids[i as int], r.kids[j as int], Some(w.labels[i as int])))
        } else {
            None
        },
    }
}

/// A path with what a step adds to it.
pub open spec fn led(path: Seq<char>, segment: Option<Seq<char>>) -> Seq<char> {
    match segment {
        None => path,
        Some(text) => if path.len() == 0 {
            text
        } else {
            path + "."@ + text
        },
    }
}

/// Integers, whose values can be compared.
pub open spec fn is_integer(p: Primitive) -> bool {
    !(p is Bool || p is F32 || p is F64 || p is Char)
}

/// Whether an integer type has a value.
pub open spec fn holds(p: Primitive, n: int) -> bool {
    match p {
        Primitive::U8 => u8::MIN <= n <= u8::MAX,
        Primitive::U16 => u16::MIN <= n <= u16::MAX,
        Primitive::U32 => u32::MIN <= n <= u32::MAX,
        Primitive::U64 => u64::MIN <= n <= u64::MAX,
        Primitive::U128 => u128::MIN <= n <= u128::MAX,
        Primitive::I8 => i8::MIN <= n <= i8::MAX,
        Primitive::I16 => i16::MIN <= n <= i16::MAX,
        Primitive::I32 => i32::MIN <= n <= i32::MAX,
        Primitive::I64 => i64::MIN <= n <= i64::MAX,
        Primitive::I128 => i128::MIN <= n <= i128::MAX,
        _ => false,
    }
}

/// Some value of the writer's integer is none of the reader's.
pub open spec fn shrunk(a: Primitive, b: Primitive) -> bool {
    &&& is_integer(a)
    &&& is_integer(b)
    &&& exists|n: int| #[trigger] holds(a, n) && !holds(b, n)
}

/// What is to be reported of the pair of positions that these steps lead to, if
/// anything is.
pub open spec fn reported(w: Shape, r: Shape, path: Seq<char>, steps: Seq<Step>) -> Option<
    Seq<char>,
>
    decreases steps.len(),
{
    if steps.len() == 0 {
        match (w.kind, r.kind) {
            (Kind::Primitive(a), Kind::Primitive(b)) => if shrunk(a, b) {
                Some(finding(a, b, path))
            } else {
                None
            },
            _ => None,
        }
    } else {
        match taken(w, r, steps[0]) {
            Some((a, b, segment)) => reported(a, b, led(path, segment), steps.drop_first()),
            None => None,
        }
    }
}

/// The findings are those of these ways, one for each, and these are all the
/// ways with a finding that start with one of the given steps.
spec fn lists(
    w: Shape,
    r: Shape,
    path: Seq<char>,
    found: Seq<Seq<char>>,
    ways: Seq<Seq<Step>>,
    first: Set<Step>,
) -> bool {
    &&& ways.len() == found.len()
    &&& forall|i: int|
        0 <= i < ways.len() ==> {
            &&& (#[trigger] ways[i]).len() > 0
            &&& first.contains(ways[i][0])
            &&& reported(w, r, path, ways[i]) == Some(found[i])
        }
    &&& ways.no_duplicates()
    &&& forall|steps: Seq<Step>|
        steps.len() > 0 && first.contains(steps[0]) && #[trigger] reported(w, r, path, steps)
            is Some ==> ways.contains(steps)
}

/// The findings are those of these ways, one for each, and these are all the
/// ways with a finding.
pub open spec fn finds(
    w: Shape,
    r: Shape,
    path: Seq<char>,
    found: Seq<Seq<char>>,
    ways: Seq<Seq<Step>>,
) -> bool {
    &&& ways.len() == found.len()
    &&& forall|i: int|
        0 <= i < ways.len() ==> reported(w, r, path, #[trigger] ways[i]) == Some(found[i])
    &&& ways.no_duplicates()
    &&& forall|steps: Seq<Step>|
        #[trigger] reported(w, r, path, steps) is Some ==> ways.contains(steps)
}

/// These ways, each one step later.
spec fn after(step: Step, ways: Seq<Seq<Step>>) -> Seq<Seq<Step>> {
    Seq::new(ways.len(), |i: int| seq![step] + ways[i])
}

proof fn lemma_after(
    w: Shape,
    r: Shape,
    path: Seq<char>,
    step: Step,
    found: Seq<Seq<char>>,
    ways: Seq<Seq<Step>>,
)
    requires
        taken(w, r, step) matches Some((a, b, segment)) && finds(
            a,
            b,
            led(path, segment),
            found,
            ways,
        ),
    ensures
        lists(w, r, path, found, after(step, ways), set![step]),
{
    let (a, b, segment) = taken(w, r, step)->0;
    let all = after(step, ways);
    assert forall|i: int| 0 <= i < all.len() implies {
        &&& (#[trigger] all[i]).len() > 0
        &&& set![step].contains(all[i][0])
        &&& reported(w, r, path, all[i]) == Some(found[i])
    } by {
        assert(all[i].drop_first() =~= ways[i]);
        assert(reported(a, b, led(path, segment), ways[i]) == Some(found[i]));
    }
    assert forall|i: int, j: int| 0 <= i < all.len() && 0 <= j < all.len() && i != j implies all[i]
        != all[j] by {
        assert(all[i].drop_first() =~= ways[i]);
        assert(all[j].drop_first() =~= ways[j]);
    }
    assert forall|steps: Seq<Step>|
        steps.len() > 0 && set![step].contains(steps[0]) && #[trigger] reported(
            w,
            r,
            path,
            steps,
        ) is Some implies all.contains(steps) by {
        let rest = steps.drop_first();
        assert(reported(a, b, led(path, segment), rest) is Some);
        let i = ways.index_of(rest);
        assert(steps =~= seq![step] + rest);
        assert(all[i] == steps);
    }
}

proof fn lemma_join(
    w: Shape,
    r: Shape,
    path: Seq<char>,
    found: Seq<Seq<char>>,
    ways: Seq<Seq<Step>>,
    first: Set<Step>,
    more: Seq<Seq<char>>,
    others: Seq<Seq<Step>>,
    second: Set<Step>,
)
    requires
        lists(w, r, path, found, ways, first),
        lists(w, r, path, more, others, second),
        first.disjoint(second),
    ensures
        lists(w, r, path, found + more, ways + others, first.union(second)),
{
    let all = ways + others;
    assert forall|i: int, j: int| 0 <= i < all.len() && 0 <= j < all.len() && i != j implies all[i]
        != all[j] by {
        if i < ways.len() && j >= ways.len() {
            assert(first.contains(ways[i][0]));
            assert(second.contains(others[j - ways.len()][0]));
        } else if j < ways.len() && i >= ways.len() {
            assert(first.contains(ways[j][0]));
            assert(second.contains(others[i - ways.len()][0]));
        }
    }
    assert forall|i: int| 0 <= i < all.len() implies {
        &&& (#[trigger] all[i]).len() > 0
        &&& first.union(second).contains(all[i][0])
        &&& reported(w, r, path, all[i]) == Some((found + more)[i])
    } by {
        if i < ways.len() {
            assert(all[i] == ways[i]);
        } else {
            assert(all[i] == others[i - ways.len()]);
        }
    }
    assert forall|steps: Seq<Step>|
        steps.len() > 0 && first.union(second).contains(steps[0]) && #[trigger] reported(
            w,
            r,
            path,
            steps,
        ) is Some implies all.contains(steps) by {
        if first.contains(steps[0]) {
            let i = ways.index_of(steps);
            assert(all[i] == steps);
        } else {
            let i = others.index_of(steps);
            assert(all[ways.len() + i] == steps);
        }
    }
}

/// No way starts with one of these steps.
proof fn lemma_none(w: Shape, r: Shape, path: Seq<char>, first: Set<Step>)
    requires
        forall|step: Step| #[trigger] first.contains(step) ==> taken(w, r, step) is None,
    ensures
        lists(w, r, path, seq![], seq![], first),
{
    assert forall|steps: Seq<Step>|
        steps.len() > 0 && first.contains(steps[0]) && #[trigger] reported(
            w,
            r,
            path,
            steps,
        ) is Some implies Seq::<Seq<Step>>::empty().contains(steps) by {
        assert(taken(w, r, steps[0]) is None);
    }
}

/// Every way that leads anywhere starts with one of the steps.
proof fn lemma_whole(
    w: Shape,
    r: Shape,
    path: Seq<char>,
    found: Seq<Seq<char>>,
    ways: Seq<Seq<Step>>,
    first: Set<Step>,
)
    requires
        lists(w, r, path, found, ways, first),
        forall|step: Step| #[trigger] taken(w, r, step) is Some ==> first.contains(step),
        !(w.kind is Primitive && r.kind is Primitive),
    ensures
        finds(w, r, path, found, ways),
{
    assert forall|steps: Seq<Step>| #[trigger] reported(w, r, path, steps) is Some implies ways.contains(
        steps,
    ) by {
        assert(steps.len() > 0);
        assert(taken(w, r, steps[0]) is Some);
    }
}

/// The steps to the parts in the first `n` places.
spec fn first_places(n: nat) -> Set<Step> {
    Set::new(|step: Step| step matches Step::Place(i) && i < n)
}

/// The steps to the first `n` parts of the writer by name.
spec fn first_names(n: nat) -> Set<Step> {
    Set::new(|step: Step| step matches Step::Name(i, _) && i < n)
}

proof fn lemma_zipped(w: Shape, r: Shape, path: Seq<char>, n: nat) -> (ways: Seq<Seq<Step>>)
    requires
        is_placed(w.kind, r.kind),
        n <= w.kids.len(),
    ensures
        lists(w, r, path, zipped(w, r, path, n), ways, first_places(n)),
    decreases w, r, 0nat, n,
{
    if n == 0 {
        assert(zipped(w, r, path, 0) =~= seq![]);
        lemma_none(w, r, path, first_places(0));
        seq![]
    } else {
        let m = (n - 1) as nat;
        let before = lemma_zipped(w, r, path, m);
        let step = Step::Place(m);
        let one = set![step];
        assert(first_places(n) =~= first_places(m).union(one));
        assert(first_places(m).disjoint(one));
        if m < r.kids.len() {
            let at = scoped_path(path, decimal(m));
            let inside = lemma_findings(w.kids[m as int], r.kids[m as int], at);
            let found = walked(w.kids[m as int], r.kids[m as int], at);
            assert(at == led(path, Some(decimal(m))));
            lemma_after(w, r, path, step, found, inside);
            let ways = after(step, inside);
            lemma_join(
                w,
                r,
                path,
                zipped(w, r, path, m),
                before,
                first_places(m),
                found,
                ways,
                one,
            );
            before + ways
        } else {
            lemma_none(w, r, path, one);
            lemma_join(
                w,
                r,
                path,
                zipped(w, r, path, m),
                before,
                first_places(m),
                seq![],
                seq![],
                one,
            );
            before + seq![]
        }
    }
}

proof fn lemma_matched(w: Shape, r: Shape, path: Seq<char>, n: nat) -> (ways: Seq<Seq<Step>>)
    requires
        is_named(w.kind, r.kind),
        n <= w.kids.len(),
    ensures
        lists(w, r, path, matched(w, r, path, n), ways, first_names(n)),
    decreases w, r, 0nat, n,
{
    if n == 0 {
        assert(matched(w, r, path, 0) =~= seq![]);
        lemma_none(w, r, path, first_names(0));
        seq![]
    } else {
        let m = (n - 1) as nat;
        let before = lemma_matched(w, r, path, m);
        let name = w.labels[m as int];
        lemma_first_named(r.labels, name, 0);
        let these = Set::new(|step: Step| step matches Step::Name(i, _) && i == m);
        assert(first_names(n) =~= first_names(m).union(these));
        assert(first_names(m).disjoint(these));
        let place = first_named(r.labels, name, 0);
        if place is Some && place->0 < r.kids.len() {
            let j = place->0;
            let step = Step::Name(m, j);
            let at = scoped_path(path, name);
            let inside = lemma_findings(w.kids[m as int], r.kids[j as int], at);
            let found = walked(w.kids[m as int], r.kids[j as int], at);
            assert(at == led(path, Some(name)));
            assert(taken(w, r, step) is Some);
            lemma_after(w, r, path, step, found, inside);
            let ways = after(step, inside);
            assert(lists(w, r, path, found, ways, these)) by {
                assert forall|steps: Seq<Step>|
                    steps.len() > 0 && these.contains(steps[0]) && #[trigger] reported(
                        w,
                        r,
                        path,
                        steps,
                    ) is Some implies ways.contains(steps) by {
                    lemma_one_namesake(w, r, steps[0], step);
                    assert(set![step].contains(steps[0]));
                }
                assert forall|i: int| 0 <= i < ways.len() implies {
                    &&& (#[trigger] ways[i]).len() > 0
                    &&& these.contains(ways[i][0])
                    &&& reported(w, r, path, ways[i]) == Some(found[i])
                } by {
                    assert(set![step].contains(ways[i][0]));
                }
            }
            lemma_join(
                w,
                r,
                path,
                matched(w, r, path, m),
                before,
                first_names(m),
                found,
                ways,
                these,
            );
            before + ways
        } else {
            assert forall|step: Step| #[trigger] these.contains(step) implies taken(w, r, step)
                is None by {
                if taken(w, r, step) is Some {
                    let j = step->Name_1;
                    assert(r.labels[j as int] == name);
                    if place is Some && place->0 < j {
                        assert(r.labels[place->0 as int] != name);
                    }
                }
            }
            lemma_none(w, r, path, these);
            lemma_join(
                w,
                r,
                path,
                matched(w, r, path, m),
                before,
                first_names(m),
                seq![],
                seq![],
                these,
            );
            before + seq![]
        }
    }
}

/// A part has one namesake.
proof fn lemma_one_namesake(w: Shape, r: Shape, a: Step, b: Step)
    requires
        taken(w, r, a) is Some,
        taken(w, r, b) is Some,
        a is Name,
        b is Name,
        a->Name_0 == b->Name_0,
    ensures
        a == b,
{
    let (j, k) = (a->Name_1, b->Name_1);
    let name = w.labels[a->Name_0 as int];
    if j < k {
        assert(r.labels[j as int] != name);
    } else if k < j {
        assert(r.labels[k as int] != name);
    }
}

/// The step that is taken where there is but one.
proof fn lemma_single_step(
    w: Shape,
    r: Shape,
    path: Seq<char>,
    step: Step,
    found: Seq<Seq<char>>,
    ways: Seq<Seq<Step>>,
)
    requires
        taken(w, r, step) matches Some((a, b, segment)) && segment is None && finds(
            a,
            b,
            path,
            found,
            ways,
        ),
        forall|other: Step| #[trigger] taken(w, r, other) is Some ==> other == step,
        !(w.kind is Primitive && r.kind is Primitive),
    ensures
        finds(w, r, path, found, after(step, ways)),
{
    lemma_after(w, r, path, step, found, ways);
    lemma_whole(w, r, path, found, after(step, ways), set![step]);
}

/// The comparison is complete and says nothing else: its findings are, one for
/// one, those of the ways by which the two schemas line up down to a pair of
/// integers of which the writer's holds values that the reader's does not.
pub proof fn lemma_findings(w: Shape, r: Shape, path: Seq<char>) -> (ways: Seq<Seq<Step>>)
    ensures
        finds(w, r, path, walked(w, r, path), ways),
    decreases w, r, 1nat, 0nat,
{
    let found = walked(w, r, path);
    if w.kind is Primitive && r.kind is Primitive {
        let (a, b) = (w.kind->Primitive_0, r.kind->Primitive_0);
        lemma_shrunk(a, b);
        assert forall|steps: Seq<Step>| #[trigger] reported(w, r, path, steps) is Some implies steps
            =~= seq![] by {
            if steps.len() > 0 {
                assert(taken(w, r, steps[0]) is None);
            }
        }
        if shrunk(a, b) {
            let ways: Seq<Seq<Step>> = seq![seq![]];
            assert(ways[0] == Seq::<Step>::empty());
            ways
        } else {
            seq![]
        }
    } else if w.kind is NewtypeStruct && !(r.kind is NewtypeStruct) && w.kids.len() == 1 {
        let inside = lemma_findings(w.kids[0], r, path);
        lemma_single_step(w, r, path, Step::Dropped, found, inside);
        after(Step::Dropped, inside)
    } else if r.kind is NewtypeStruct && !(w.kind is NewtypeStruct) && r.kids.len() == 1 {
        let inside = lemma_findings(w, r.kids[0], path);
        lemma_single_step(w, r, path, Step::Gained, found, inside);
        after(Step::Gained, inside)
    } else if w.kind == r.kind && is_single(w.kind) && w.kids.len() == 1 && r.kids.len() == 1 {
        let inside = lemma_findings(w.kids[0], r.kids[0], path);
        assert(walked_kid(w, r, path) == walked(w.kids[0], r.kids[0], path));
        lemma_single_step(w, r, path, Step::Only, found, inside);
        after(Step::Only, inside)
    } else if r.kind is Option && !(w.kind is Option) && !(w.kind is NewtypeStruct)
        && r.kids.len() == 1 {
        let inside = lemma_findings(w, r.kids[0], path);
        lemma_single_step(w, r, path, Step::Optional, found, inside);
        after(Step::Optional, inside)
    } else if w.kind is Mapping && r.kind is Mapping && w.kids.len() == 2 && r.kids.len() == 2 {
        let (at_key, at_held) = (scoped_path(path, "key"@), scoped_path(path, "value"@));
        assert(at_key == led(path, Some("key"@)) && at_held == led(path, Some("value"@)));
        let keys = lemma_findings(w.kids[0], r.kids[0], at_key);
        let helds = lemma_findings(w.kids[1], r.kids[1], at_held);
        let (a, b) = (
            walked(w.kids[0], r.kids[0], at_key),
            walked(w.kids[1], r.kids[1], at_held),
        );
        lemma_after(w, r, path, Step::Key, a, keys);
        lemma_after(w, r, path, Step::Held, b, helds);
        let (x, y) = (after(Step::Key, keys), after(Step::Held, helds));
        let (p, q) = (set![Step::Key], set![Step::Held]);
        lemma_join(w, r, path, a, x, p, b, y, q);
        assert(found == a + b);
        lemma_whole(w, r, path, found, x + y, p.union(q));
        x + y
    } else if is_placed(w.kind, r.kind) {
        let ways = lemma_zipped(w, r, path, w.kids.len());
        assert(found == zipped(w, r, path, w.kids.len()));
        lemma_whole(w, r, path, found, ways, first_places(w.kids.len()));
        ways
    } else if is_named(w.kind, r.kind) {
        let ways = lemma_matched(w, r, path, w.kids.len());
        assert(found == matched(w, r, path, w.kids.len()));
        lemma_whole(w, r, path, found, ways, first_names(w.kids.len()));
        ways
    } else {
        assert(walked_kid(w, r, path) =~= seq![] || (w.kids.len() == 1 && r.kids.len() == 1));
        assert(found =~= seq![]);
        let none = Set::<Step>::empty();
        lemma_none(w, r, path, none);
        lemma_whole(w, r, path, found, seq![], none);
        seq![]
    }
}

/// An integer survives exactly if the other type has all its values, and what
/// is no integer is left to the reader.
pub proof fn lemma_shrunk(a: Primitive, b: Primitive)
    ensures
        survives(a, b) == !shrunk(a, b),
{
    if is_integer(a) && is_integer(b) && !survives(a, b) {
        assert(holds(a, range(a).0) && holds(a, range(a).1));
    }
}

/// A number type is called by a letter for its family and by its bits, and its
/// width is those bits.
pub proof fn lemma_number_names(p: Primitive)
    ensures
        is_integer(p) ==> primitive_name(p) == (if holds(p, -1) {
            "i"@
        } else {
            "u"@
        }) + decimal(8 * primitive_width(p)),
        p is F32 || p is F64 ==> primitive_name(p) == "f"@ + decimal(8 * primitive_width(p)),
        is_integer(p) ==> integer_kind(p) == Some(
            (holds(p, -1), (8 * primitive_width(p)) as u32),
        ),
{
    reveal_with_fuel(decimal, 3);
    reveal_strlit("i");
    reveal_strlit("u");
    reveal_strlit("f");
    reveal_strlit("i8");
    reveal_strlit("i16");
    reveal_strlit("i32");
    reveal_strlit("i64");
    reveal_strlit("i128");
    reveal_strlit("u8");
    reveal_strlit("u16");
    reveal_strlit("u32");
    reveal_strlit("u64");
    reveal_strlit("u128");
    reveal_strlit("f32");
    reveal_strlit("f64");
    let bits = decimal(8 * primitive_width(p));
    assert(decimal(8) =~= seq!['8']);
    assert(decimal(16) =~= seq!['1', '6']);
    assert(decimal(32) =~= seq!['3', '2']);
    assert(decimal(64) =~= seq!['6', '4']);
    assert(decimal(128) =~= seq!['1', '2', '8']);
    if is_integer(p) {
        assert(primitive_name(p) =~= (if holds(p, -1) {
            "i"@
        } else {
            "u"@
        }) + bits);
    } else if p is F32 || p is F64 {
        assert(primitive_name(p) =~= "f"@ + bits);
    }
}

} // verus!
