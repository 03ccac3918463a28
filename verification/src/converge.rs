//! Tracing converges: every pass over a type explores something new, the passes
//! always agree, and what they find in the end is the type's schema.

use vstd::prelude::*;

use crate::error::Fault;
use crate::request::known_parts;
use crate::shape::{Kind, Shape};
use crate::trace::{lemma_united_keeps, united, Sketch};
use crate::tracer::{absorbed, lemma_steered, one_explored, pass_bound, steered};

verus! {

/// What is known of part `i` of a position that turns out to be of `kind`.
pub open spec fn prior_part(prior: Option<Sketch>, kind: Kind, i: int) -> Option<Sketch> {
    let parts = known_parts(prior, kind);
    if 0 <= i < parts.len() {
        parts[i]
    } else {
        None
    }
}

/// What a pass over a type whose schema is `t` finds, steered by what was known:
/// every part, but of the variants of an enum only the one it is steered to.
pub open spec fn passed(t: Shape, prior: Option<Sketch>) -> Sketch
    decreases t,
{
    if t.kind is Enum && t.kids.len() > 0 {
        let chosen = steered(prior, t.kids.len());
        if chosen < t.kids.len() {
            one_explored(
                t.name,
                t.labels,
                chosen,
                passed(t.kids[chosen as int], prior_part(prior, t.kind, chosen as int)),
            )
        } else {
            one_explored(t.name, t.labels, chosen, Sketch {
                kind: Kind::UnitVariant,
                name: seq![],
                labels: seq![],
                kids: seq![],
            })
        }
    } else {
        Sketch {
            kind: t.kind,
            name: t.name,
            labels: t.labels,
            kids: Seq::new(
                t.kids.len(),
                |i: int|
                    if 0 <= i < t.kids.len() {
                        Some(passed(t.kids[i], prior_part(prior, t.kind, i)))
                    } else {
                        None
                    },
            ),
        }
    }
}

/// Everything in the sketch is as in the schema, and only variants are missing.
pub open spec fn part_of(s: Sketch, t: Shape) -> bool
    decreases s,
{
    &&& s.kind == t.kind
    &&& s.name == t.name
    &&& s.labels == t.labels
    &&& s.kids.len() == t.kids.len()
    &&& forall|i: int|
        0 <= i < s.kids.len() ==> match #[trigger] s.kids[i] {
            Some(kid) => part_of(kid, t.kids[i]),
            None => t.kind is Enum,
        }
}

/// The variants that have been explored.
pub open spec fn seen(s: Sketch) -> nat
    decreases s, s.kids.len() + 1,
{
    seen_below(s, s.kids.len())
}

/// The variants that have been explored in the first `n` parts.
pub open spec fn seen_below(s: Sketch, n: nat) -> nat
    decreases s, n,
{
    if n == 0 || n > s.kids.len() {
        0
    } else {
        seen_below(s, (n - 1) as nat) + match s.kids[n - 1] {
            Some(kid) => seen(kid) + if s.kind is Enum {
                1nat
            } else {
                0
            },
            None => 0,
        }
    }
}

/// The variants of a schema.
pub open spec fn variants_of(t: Shape) -> nat
    decreases t, t.kids.len() + 1,
{
    variants_among(t, t.kids.len())
}

/// The variants among the first `n` parts of a schema.
pub open spec fn variants_among(t: Shape, n: nat) -> nat
    decreases t, n,
{
    if n == 0 || n > t.kids.len() {
        0
    } else {
        variants_among(t, (n - 1) as nat) + variants_of(t.kids[n - 1]) + if t.kind is Enum {
            1nat
        } else {
            0
        }
    }
}

proof fn lemma_steered_within(prior: Option<Sketch>, t: Shape)
    requires
        t.kids.len() > 0,
    ensures
        steered(prior, t.kids.len()) < t.kids.len(),
{
    if prior is Some {
        let s = prior->0;
        if s.kind is Enum && s.kids.len() == t.kids.len() && !s.explored() {
            lemma_steered(s);
        } else if s.kind is Enum && s.kids.len() == t.kids.len() {
            lemma_no_hole(s.kids, 0);
        }
    }
}

proof fn lemma_no_hole(kids: Seq<Option<Sketch>>, i: nat)
    requires
        forall|j: int| 0 <= j < kids.len() ==> (#[trigger] kids[j]) is Some && kids[j]->0.explored(),
    ensures
        crate::tracer::first_hole(kids, i) is None,
        crate::tracer::first_open(kids, i) is None,
    decreases kids.len() - i,
{
    if i < kids.len() {
        assert(kids[i as int] is Some);
        lemma_no_hole(kids, i + 1);
    }
}

/// A pass finds nothing that is not in the type.
pub proof fn lemma_pass_part(t: Shape, prior: Option<Sketch>)
    requires
        t.well_formed(),
    ensures
        part_of(passed(t, prior), t),
    decreases t,
{
    let s = passed(t, prior);
    if t.kind is Enum && t.kids.len() > 0 {
        lemma_steered_within(prior, t);
        let k = steered(prior, t.kids.len());
        assert(t.kids[k as int].well_formed());
        lemma_pass_part(t.kids[k as int], prior_part(prior, t.kind, k as int));
    } else {
        assert forall|i: int| 0 <= i < s.kids.len() implies match #[trigger] s.kids[i] {
            Some(kid) => part_of(kid, t.kids[i]),
            None => t.kind is Enum,
        } by {
            assert(t.kids[i].well_formed());
            lemma_pass_part(t.kids[i], prior_part(prior, t.kind, i));
        }
    }
}

/// Passes over one type always agree, and nothing is made up by uniting them.
pub proof fn lemma_passes_agree(a: Sketch, b: Sketch, t: Shape)
    requires
        part_of(a, t),
        part_of(b, t),
    ensures
        united(a, b) is Some,
        part_of(united(a, b)->0, t),
    decreases a,
{
    assert forall|i: int|
        0 <= i < a.kids.len() && (#[trigger] a.kids[i]) is Some && b.kids[i] is Some implies united(
        a.kids[i]->0,
        b.kids[i]->0,
    ) is Some && part_of(united(a.kids[i]->0, b.kids[i]->0)->0, t.kids[i]) by {
        lemma_passes_agree(a.kids[i]->0, b.kids[i]->0, t.kids[i]);
    }
    let c = united(a, b)->0;
    assert forall|i: int| 0 <= i < c.kids.len() implies match #[trigger] c.kids[i] {
        Some(kid) => part_of(kid, t.kids[i]),
        None => t.kind is Enum,
    } by {
        assert(a.kids[i] is Some || b.kids[i] is Some || t.kind is Enum);
    }
}

/// What one part adds to the variants that have been explored.
spec fn share(s: Sketch, i: int) -> nat {
    match s.kids[i] {
        Some(kid) => seen(kid) + if s.kind is Enum {
            1nat
        } else {
            0
        },
        None => 0,
    }
}

proof fn lemma_shares(a: Sketch, c: Sketch, n: nat, at: int)
    requires
        n <= a.kids.len() == c.kids.len(),
        forall|i: int| 0 <= i < n ==> #[trigger] share(a, i) <= share(c, i),
        0 <= at < n ==> share(a, at) < share(c, at),
    ensures
        seen_below(a, n) <= seen_below(c, n),
        0 <= at < n ==> seen_below(a, n) < seen_below(c, n),
    decreases n,
{
    if n > 0 {
        lemma_shares(a, c, (n - 1) as nat, at);
        assert(share(a, n - 1) <= share(c, n - 1));
    }
}

/// Nothing that was explored is lost.
proof fn lemma_seen_kept(a: Sketch, b: Sketch, t: Shape)
    requires
        part_of(a, t),
        part_of(b, t),
    ensures
        seen(a) <= seen(united(a, b)->0),
    decreases a,
{
    lemma_passes_agree(a, b, t);
    let c = united(a, b)->0;
    assert forall|i: int| 0 <= i < a.kids.len() implies #[trigger] share(a, i) <= share(c, i) by {
        if a.kids[i] is Some && b.kids[i] is Some {
            lemma_seen_kept(a.kids[i]->0, b.kids[i]->0, t.kids[i]);
        }
    }
    lemma_shares(a, c, a.kids.len(), -1);
}

/// Every pass makes progress: as long as something is unexplored, a pass that is
/// steered by what is known explores at least one more variant.
pub proof fn lemma_pass_explores(a: Sketch, t: Shape)
    requires
        t.well_formed(),
        part_of(a, t),
        !a.explored(),
    ensures
        united(a, passed(t, Some(a))) is Some,
        seen(a) < seen(united(a, passed(t, Some(a)))->0),
    decreases a,
{
    let b = passed(t, Some(a));
    lemma_pass_part(t, Some(a));
    lemma_passes_agree(a, b, t);
    let c = united(a, b)->0;
    assert forall|i: int| 0 <= i < a.kids.len() implies #[trigger] share(a, i) <= share(c, i) by {
        if a.kids[i] is Some && b.kids[i] is Some {
            lemma_seen_kept(a.kids[i]->0, b.kids[i]->0, t.kids[i]);
        }
    }
    assert(known_parts(Some(a), t.kind) == a.kids);
    let at = if t.kind is Enum {
        lemma_steered(a);
        steered(Some(a), a.kids.len()) as int
    } else {
        choose|i: int|
            0 <= i < a.kids.len() && !((#[trigger] a.kids[i]) is Some && a.kids[i]->0.explored())
    };
    assert(0 <= at < a.kids.len());
    assert(t.kids[at].well_formed());
    assert(b.kids[at] == Some(passed(t.kids[at], a.kids[at])));
    if a.kids[at] is Some {
        lemma_pass_explores(a.kids[at]->0, t.kids[at]);
    } else {
        assert(t.kind is Enum);
        assert(c.kids[at] == b.kids[at]);
    }
    assert(share(a, at) < share(c, at));
    lemma_shares(a, c, a.kids.len(), at);
}

/// A pass that leaves something unexplored has explored something.
proof fn lemma_pass_starts(t: Shape, prior: Option<Sketch>)
    requires
        t.well_formed(),
        !passed(t, prior).explored(),
    ensures
        seen(passed(t, prior)) > 0,
    decreases t,
{
    let s = passed(t, prior);
    lemma_pass_part(t, prior);
    let none = Sketch { kids: Seq::new(s.kids.len(), |i: int| None::<Sketch>), ..s };
    let at = if t.kind is Enum {
        lemma_steered_within(prior, t);
        steered(prior, t.kids.len()) as int
    } else {
        choose|i: int|
            0 <= i < s.kids.len() && !((#[trigger] s.kids[i]) is Some && s.kids[i]->0.explored())
    };
    if !(t.kind is Enum) {
        assert(t.kids[at].well_formed());
        lemma_pass_starts(t.kids[at], prior_part(prior, t.kind, at));
    }
    assert(share(none, at) < share(s, at));
    lemma_shares(none, s, s.kids.len(), at);
}

/// The count of variants is that of the variants explored and of those known to
/// be missing: it is no less than what has been explored, it is more as long as
/// something is missing, and no more than the type has.
pub proof fn lemma_count(s: Sketch, t: Shape)
    requires
        part_of(s, t),
    ensures
        seen(s) <= s.variants() <= variants_of(t),
        !s.explored() ==> seen(s) < s.variants(),
        s.explored() ==> s.variants() == variants_of(t),
    decreases s, s.kids.len() + 1,
{
    lemma_count_below(s, t, s.kids.len());
}

proof fn lemma_count_below(s: Sketch, t: Shape, n: nat)
    requires
        part_of(s, t),
        n <= s.kids.len(),
    ensures
        ({
            let known = s.variants_below(n) + if s.kind is Enum {
                n
            } else {
                0
            };
            &&& seen_below(s, n) <= known <= variants_among(t, n)
            &&& (exists|i: int|
                0 <= i < n && !((#[trigger] s.kids[i]) is Some && s.kids[i]->0.explored()))
                ==> seen_below(s, n) < known
            &&& (forall|i: int|
                0 <= i < n ==> (#[trigger] s.kids[i]) is Some && s.kids[i]->0.explored())
                ==> known == variants_among(t, n)
        }),
    decreases s, n,
{
    if n > 0 {
        lemma_count_below(s, t, (n - 1) as nat);
        if s.kids[n - 1] is Some {
            lemma_count(s.kids[n - 1]->0, t.kids[n - 1]);
        }
        if exists|i: int|
            0 <= i < n && !((#[trigger] s.kids[i]) is Some && s.kids[i]->0.explored()) {
            let i = choose|i: int|
                0 <= i < n && !((#[trigger] s.kids[i]) is Some && s.kids[i]->0.explored());
            assert(i < n - 1 || i == n - 1);
        }
    }
}

/// What is known of a type after so many passes, each steered by what was known
/// before it.
pub open spec fn known_after(t: Shape, passes: nat) -> Sketch
    decreases passes,
{
    if passes <= 1 {
        passed(t, None)
    } else {
        let before = known_after(t, (passes - 1) as nat);
        united(before, passed(t, Some(before)))->0
    }
}

/// Tracing a type whose passes are steered as they should be never fails to
/// converge: what a pass finds is taken in, the passes never outnumber their
/// bound while something is unexplored, and there are no more of them than the
/// type has variants, and one.
pub proof fn lemma_converges(t: Shape, passes: nat)
    requires
        t.well_formed(),
        passes > 0,
    ensures
        part_of(known_after(t, passes), t),
        absorbed(
            if passes == 1 {
                None
            } else {
                Some(known_after(t, (passes - 1) as nat))
            },
            passed(
                t,
                if passes == 1 {
                    None
                } else {
                    Some(known_after(t, (passes - 1) as nat))
                },
            ),
        ) == Ok::<Sketch, Fault>(known_after(t, passes)),
        !known_after(t, passes).explored() && passes <= usize::MAX ==> passes <= pass_bound(
            known_after(t, passes),
        ),
        passes > variants_of(t) ==> known_after(t, passes).explored(),
{
    lemma_progress(t, passes);
    lemma_count(known_after(t, passes), t);
    if passes > 1 {
        let before = known_after(t, (passes - 1) as nat);
        lemma_progress(t, (passes - 1) as nat);
        lemma_pass_part(t, Some(before));
        lemma_passes_agree(before, passed(t, Some(before)), t);
    }
}

proof fn lemma_progress(t: Shape, passes: nat)
    requires
        t.well_formed(),
        passes > 0,
    ensures
        part_of(known_after(t, passes), t),
        !known_after(t, passes).explored() ==> seen(known_after(t, passes)) >= passes,
    decreases passes,
{
    if passes == 1 {
        lemma_pass_part(t, None);
        if !passed(t, None).explored() {
            lemma_pass_starts(t, None);
        }
    } else {
        let before = known_after(t, (passes - 1) as nat);
        lemma_progress(t, (passes - 1) as nat);
        lemma_pass_part(t, Some(before));
        lemma_passes_agree(before, passed(t, Some(before)), t);
        lemma_united_keeps(before, passed(t, Some(before)));
        if !known_after(t, passes).explored() {
            lemma_pass_explores(before, t);
        }
    }
}

/// Once nothing is unexplored, what is known is the type's schema, nothing more
/// and nothing less.
pub proof fn lemma_explored_type(s: Sketch, t: Shape)
    requires
        part_of(s, t),
        s.explored(),
    ensures
        s.shape() == t,
    decreases s,
{
    assert forall|i: int| 0 <= i < s.kids.len() implies s.shape().kids[i] == t.kids[i] by {
        assert(s.kids[i] is Some);
        lemma_explored_type(s.kids[i]->0, t.kids[i]);
    }
    assert(s.shape().kids =~= t.kids);
}

} // verus!
