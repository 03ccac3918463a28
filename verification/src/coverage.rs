//! What sampled rows and traced values are good for: a sample shows every part
//! of a schema, and no more rows are taken than the enums in it call for.

use vstd::prelude::*;

use crate::get::variant_head;
use crate::narrowing::{holds, is_integer};
use crate::probe::{
    inhabited, leads_down, lemma_span_covers, sample_rows, sample_scalar, span, widest, writes,
    MAX_PROBE_ROWS,
};
use crate::request::synthetic_scalar;
use crate::sampled::{part_values, sample_value};
use crate::schema::Primitive;
use crate::shape::{is_variant, Shape};
use crate::value::{scalar_type, Scalar, Val};

verus! {

/// Whether a span is the greatest among those of the parts; one where there
/// are no parts.
pub open spec fn greatest(s: Shape, w: nat) -> bool {
    if s.kids.len() == 0 {
        w == 1
    } else {
        &&& forall|i: int| 0 <= i < s.kids.len() ==> span(#[trigger] s.kids[i]) <= w
        &&& exists|i: int| 0 <= i < s.kids.len() && span(#[trigger] s.kids[i]) == w
    }
}

proof fn lemma_greatest(s: Shape, n: nat)
    requires
        0 < n <= s.kids.len(),
    ensures
        forall|i: int| 0 <= i < n ==> span(#[trigger] s.kids[i]) <= widest(s, n),
        exists|i: int| 0 <= i < n && span(#[trigger] s.kids[i]) == widest(s, n),
    decreases n,
{
    if n > 1 {
        lemma_greatest(s, (n - 1) as nat);
        if widest(s, n) == widest(s, (n - 1) as nat) {
            let i = choose|i: int|
                0 <= i < n - 1 && span(#[trigger] s.kids[i]) == widest(s, (n - 1) as nat);
            assert(span(s.kids[i]) == widest(s, n));
        } else {
            assert(span(s.kids[n - 1]) == widest(s, n));
        }
    } else {
        assert(span(s.kids[0]) == widest(s, 1));
    }
}

/// Parts that stand side by side share their rows, so a position takes as many
/// as the part that takes most; only an enum multiplies, by its variants.
pub proof fn lemma_span(s: Shape)
    ensures
        !(s.kind is Enum) ==> greatest(s, span(s)),
        s.kind is Enum ==> exists|w: nat| #[trigger]
            greatest(s, w) && span(s) == s.kids.len() * w,
{
    let w = widest(s, s.kids.len());
    if s.kids.len() > 0 {
        lemma_greatest(s, s.kids.len());
    }
    assert(greatest(s, w));
}

/// What a way down leads to.
pub open spec fn below(s: Shape, path: Seq<nat>) -> Shape
    decreases path.len(),
{
    if path.len() == 0 {
        s
    } else {
        below(s.kids[path[0] as int], path.subrange(1, path.len() as int))
    }
}

/// Whether a way down leads to an enum without variants.
pub open spec fn leads_nowhere(s: Shape, path: Seq<nat>) -> bool {
    leads_down(s, path) && below(s, path).kind is Enum && below(s, path).kids.len() == 0
}

/// A schema can be sampled exactly if no way down leads to an enum without
/// variants.
pub proof fn lemma_inhabited(s: Shape)
    ensures
        inhabited(s) <==> forall|path: Seq<nat>| !#[trigger] leads_nowhere(s, path),
{
    if inhabited(s) {
        assert forall|path: Seq<nat>| !#[trigger] leads_nowhere(s, path) by {
            lemma_somewhere(s, path);
        }
    } else {
        let path = lemma_nowhere(s);
        assert(leads_nowhere(s, path));
    }
}

proof fn lemma_somewhere(s: Shape, path: Seq<nat>)
    requires
        inhabited(s),
    ensures
        !leads_nowhere(s, path),
    decreases path.len(),
{
    if path.len() > 0 && path[0] < s.kids.len() {
        assert(inhabited(s.kids[path[0] as int]));
        lemma_somewhere(s.kids[path[0] as int], path.subrange(1, path.len() as int));
    }
}

proof fn lemma_nowhere(s: Shape) -> (path: Seq<nat>)
    requires
        !inhabited(s),
    ensures
        leads_nowhere(s, path),
    decreases s,
{
    if s.kind is Enum && s.kids.len() == 0 {
        seq![]
    } else {
        let i = choose|i: int| 0 <= i < s.kids.len() && !inhabited(#[trigger] s.kids[i]);
        let rest = lemma_nowhere(s.kids[i]);
        let path = seq![i as nat] + rest;
        assert(path.subrange(1, path.len() as int) =~= rest);
        path
    }
}

/// Whether a value of the schema shows what a way down leads to: where the way
/// goes through a variant the value is of that variant, and where it goes
/// through another part the value has that part.
pub open spec fn shows(v: Val, s: Shape, path: Seq<nat>) -> bool
    decreases path.len(),
{
    path.len() == 0 || {
        let rest = path.subrange(1, path.len() as int);
        let i = path[0] as int;
        if s.kind is Enum {
            &&& v.head == variant_head(s, path[0])
            &&& rest.len() == 0 || {
                let variant = s.kids[i];
                let j = rest[0] as int;
                &&& j < v.kids.len()
                &&& shows(v.kids[j], variant.kids[j], rest.subrange(1, rest.len() as int))
            }
        } else if s.kind is Mapping {
            &&& v.kids.len() > 0
            &&& i < v.kids[0].kids.len()
            &&& shows(v.kids[0].kids[i], s.kids[i], rest)
        } else {
            &&& i < v.kids.len()
            &&& shows(v.kids[i], s.kids[i], rest)
        }
    }
}

proof fn lemma_shows(s: Shape, pick: nat, path: Seq<nat>)
    requires
        s.well_formed(),
        !is_variant(s.kind),
        inhabited(s),
        leads_down(s, path),
        writes(s, pick, path),
    ensures
        shows(sample_value(s, pick), s, path),
    decreases path.len(),
{
    if path.len() > 0 {
        let rest = path.subrange(1, path.len() as int);
        let i = path[0] as int;
        let kid = s.kids[i];
        assert(kid.well_formed());
        assert(inhabited(kid));
        if s.kind is Enum {
            let n = s.kids.len();
            let v = sample_value(s, pick);
            assert(pick % n == path[0]);
            assert(v.head == variant_head(s, path[0]));
            if rest.len() > 0 {
                let j = rest[0] as int;
                let last = rest.subrange(1, rest.len() as int);
                assert(leads_down(kid, rest));
                assert(is_variant(kid.kind));
                assert(writes(kid, pick / n, rest));
                assert(kid.kids[j].well_formed());
                assert(inhabited(kid.kids[j]));
                assert(!is_variant(kid.kids[j].kind));
                lemma_shows(kid.kids[j], pick / n, last);
                assert(part_values(kid, pick / n)[j] == sample_value(kid.kids[j], pick / n));
            }
        } else {
            lemma_shows(kid, pick, rest);
            assert(part_values(s, pick)[i] == sample_value(kid, pick));
        }
    }
}

/// Whatever stands in a schema, one of the sampled rows holds a value that shows
/// it.
pub proof fn lemma_sampled(s: Shape, path: Seq<nat>)
    requires
        s.well_formed(),
        !is_variant(s.kind),
        inhabited(s),
        leads_down(s, path),
    ensures
        exists|pick: nat| pick < span(s) && #[trigger] shows(sample_value(s, pick), s, path),
{
    lemma_span_covers(s, path);
    let pick = choose|pick: nat| pick < span(s) && #[trigger] writes(s, pick, path);
    lemma_shows(s, pick, path);
}

/// Whatever stands in a schema is shown by a row of the sample itself, unless
/// the enums in it call for more rows than a sample may have.
pub proof fn lemma_sample_shows(s: Shape, path: Seq<nat>)
    requires
        s.well_formed(),
        !is_variant(s.kind),
        inhabited(s),
        leads_down(s, path),
        span(s) <= MAX_PROBE_ROWS,
    ensures
        exists|pick: nat|
            pick < sample_rows(s) && #[trigger] shows(sample_value(s, pick), s, path),
{
    lemma_sampled(s, path);
}

/// A sample has no more rows than it may, nor than the enums call for, and fewer
/// than those only where it has all that it may.
pub proof fn lemma_sample_rows(s: Shape)
    ensures
        sample_rows(s) <= MAX_PROBE_ROWS,
        sample_rows(s) <= span(s),
        sample_rows(s) < span(s) ==> sample_rows(s) == MAX_PROBE_ROWS,
{
}

/// The whole number that a scalar is, where it is one.
pub open spec fn whole(x: Scalar) -> Option<int> {
    match x {
        Scalar::I8(v) => Some(v as int),
        Scalar::I16(v) => Some(v as int),
        Scalar::I32(v) => Some(v as int),
        Scalar::I64(v) => Some(v as int),
        Scalar::I128(v) => Some(v as int),
        Scalar::U8(v) => Some(v as int),
        Scalar::U16(v) => Some(v as int),
        Scalar::U32(v) => Some(v as int),
        Scalar::U64(v) => Some(v as int),
        Scalar::U128(v) => Some(v as int),
        _ => None,
    }
}

/// What is made up for a primitive is of its type. A whole number is not zero,
/// and every integer type has it, so that none is too narrow for it.
pub proof fn lemma_made_up(p: Primitive, q: Primitive)
    ensures
        scalar_type(sample_scalar(p)) == p,
        scalar_type(synthetic_scalar(p)) == p,
        is_integer(p) && is_integer(q) ==> {
            &&& whole(sample_scalar(p)) matches Some(n) && n != 0 && holds(q, n)
            &&& whole(synthetic_scalar(p)) matches Some(n) && n != 0 && holds(q, n)
        },
{
}

} // verus!
