//! What uniting passes is: the least that holds all that either has seen.

use vstd::prelude::*;

use crate::shape::Shape;
use crate::trace::{united, Sketch};

verus! {

/// The second pass has seen all that the first has.
pub open spec fn within(a: Sketch, b: Sketch) -> bool
    decreases a,
{
    &&& a.kind == b.kind
    &&& a.name == b.name
    &&& a.labels == b.labels
    &&& a.kids.len() == b.kids.len()
    &&& forall|i: int|
        0 <= i < a.kids.len() && (#[trigger] a.kids[i]) is Some ==> b.kids[i] is Some && within(
            a.kids[i]->0,
            b.kids[i]->0,
        )
}

/// A pass has seen all that it has seen.
pub proof fn lemma_within_self(a: Sketch)
    ensures
        within(a, a),
    decreases a,
{
    assert forall|i: int| 0 <= i < a.kids.len() && (#[trigger] a.kids[i]) is Some implies within(
        a.kids[i]->0,
        a.kids[i]->0,
    ) by {
        lemma_within_self(a.kids[i]->0);
    }
}

/// Two passes unite to what holds all that either has seen, and nothing else.
pub proof fn lemma_united_least(a: Sketch, b: Sketch, d: Sketch)
    requires
        united(a, b) is Some,
    ensures
        within(a, united(a, b)->0),
        within(b, united(a, b)->0),
        within(a, d) && within(b, d) ==> within(united(a, b)->0, d),
    decreases a,
{
    let c = united(a, b)->0;
    assert forall|i: int| 0 <= i < a.kids.len() && (#[trigger] a.kids[i]) is Some implies c.kids[i]
        is Some && within(a.kids[i]->0, c.kids[i]->0) by {
        if b.kids[i] is Some {
            lemma_united_least(a.kids[i]->0, b.kids[i]->0, d);
        } else {
            lemma_within_self(a.kids[i]->0);
        }
    }
    assert forall|i: int| 0 <= i < b.kids.len() && (#[trigger] b.kids[i]) is Some implies c.kids[i]
        is Some && within(b.kids[i]->0, c.kids[i]->0) by {
        if a.kids[i] is Some {
            lemma_united_least(a.kids[i]->0, b.kids[i]->0, d);
        } else {
            lemma_within_self(b.kids[i]->0);
        }
    }
    if within(a, d) && within(b, d) {
        assert forall|i: int|
            0 <= i < c.kids.len() && (#[trigger] c.kids[i]) is Some implies d.kids[i] is Some
            && within(c.kids[i]->0, d.kids[i]->0) by {
            if a.kids[i] is Some && b.kids[i] is Some {
                lemma_united_least(a.kids[i]->0, b.kids[i]->0, d.kids[i]->0);
            }
        }
    }
}

/// Two passes disagree exactly if no pass could have seen what both have.
pub proof fn lemma_united_refused(a: Sketch, b: Sketch, d: Sketch)
    requires
        within(a, d),
        within(b, d),
    ensures
        united(a, b) is Some,
    decreases a,
{
    assert forall|i: int|
        0 <= i < a.kids.len() && (#[trigger] a.kids[i]) is Some && b.kids[i] is Some implies united(
        a.kids[i]->0,
        b.kids[i]->0,
    ) is Some by {
        lemma_united_refused(a.kids[i]->0, b.kids[i]->0, d.kids[i]->0);
    }
}

/// Whether a way down leads to something that no pass has seen.
pub open spec fn leads_to_hole(s: Sketch, path: Seq<nat>) -> bool
    decreases path.len(),
{
    &&& path.len() > 0
    &&& path[0] < s.kids.len()
    &&& match s.kids[path[0] as int] {
        None => path.len() == 1,
        Some(kid) => leads_to_hole(kid, path.skip(1)),
    }
}

/// A pass has seen everything exactly if no way down leads to what it has not
/// seen.
pub proof fn lemma_explored(s: Sketch)
    ensures
        s.explored() <==> forall|path: Seq<nat>| !#[trigger] leads_to_hole(s, path),
{
    if s.explored() {
        assert forall|path: Seq<nat>| !#[trigger] leads_to_hole(s, path) by {
            lemma_no_hole(s, path);
        }
    } else {
        let path = lemma_hole(s);
        assert(leads_to_hole(s, path));
    }
}

proof fn lemma_no_hole(s: Sketch, path: Seq<nat>)
    requires
        s.explored(),
    ensures
        !leads_to_hole(s, path),
    decreases path.len(),
{
    if path.len() > 0 && path[0] < s.kids.len() {
        assert(s.kids[path[0] as int] is Some);
        lemma_no_hole(s.kids[path[0] as int]->0, path.skip(1));
    }
}

proof fn lemma_hole(s: Sketch) -> (path: Seq<nat>)
    requires
        !s.explored(),
    ensures
        leads_to_hole(s, path),
    decreases s,
{
    let i = choose|i: int|
        0 <= i < s.kids.len() && !((#[trigger] s.kids[i]) is Some && s.kids[i]->0.explored());
    if s.kids[i] is None {
        seq![i as nat]
    } else {
        let rest = lemma_hole(s.kids[i]->0);
        let path = seq![i as nat] + rest;
        assert(path.skip(1) =~= rest);
        path
    }
}

/// What a schema looks like to a pass that has seen all of it.
pub open spec fn outline(t: Shape) -> Sketch
    decreases t,
{
    Sketch {
        kind: t.kind,
        name: t.name,
        labels: t.labels,
        kids: Seq::new(
            t.kids.len(),
            |i: int|
                if 0 <= i < t.kids.len() {
                    Some(outline(t.kids[i]))
                } else {
                    None
                },
        ),
    }
}

/// A schema is what a pass that has seen all of it amounts to, and such a pass
/// has no more to see.
pub proof fn lemma_outline(t: Shape)
    ensures
        outline(t).explored(),
        outline(t).shape() == t,
    decreases t,
{
    assert forall|i: int| 0 <= i < t.kids.len() implies (#[trigger] outline(t).kids[i]) is Some
        && outline(t).kids[i]->0.explored() && outline(t).kids[i]->0.shape() == t.kids[i] by {
        lemma_outline(t.kids[i]);
    }
    assert(outline(t).shape().kids =~= t.kids);
}

/// A pass that has seen everything is fixed by the schema that it amounts to.
pub proof fn lemma_outline_of(s: Sketch)
    requires
        s.explored(),
    ensures
        outline(s.shape()) == s,
    decreases s,
{
    assert forall|i: int| 0 <= i < s.kids.len() implies outline(s.shape()).kids[i]
        == #[trigger] s.kids[i] by {
        assert(s.kids[i] is Some);
        lemma_outline_of(s.kids[i]->0);
    }
    assert(outline(s.shape()).kids =~= s.kids);
}

} // verus!
