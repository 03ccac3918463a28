//! Tracing a type, one decision at a time: how deep it may go, which variant
//! each enum is steered to, what the parts that were read make up, and when
//! the passes are done.

use vstd::prelude::*;

use crate::error::{message, Error, Fault, Result};
use crate::schema::{labels, SchemaNode, MAX_DEPTH};
use crate::shape::Kind;
use crate::text;
use crate::trace::{
    capped, count_variants, data_dependent, maybe, merge, named_sketches, node_has_unexplored, over,
    sketches, united, untraceable, variant_sketches, Sketch, TNode, TVariant,
};
use crate::value::SHARED_TOKEN;

verus! {

/// One level deeper, unless that is too deep.
pub fn deeper(depth: usize) -> (result: Result<usize>)
    requires
        depth <= MAX_DEPTH,
    ensures
        match result {
            Ok(next) => next == depth + 1 && next <= MAX_DEPTH,
            Err(error) => depth == MAX_DEPTH && error@ == Fault::DepthLimitExceeded,
        },
{
    let next: usize = depth + 1;
    if next > MAX_DEPTH {
        Err(Error::DepthLimitExceeded)
    } else {
        Ok(next)
    }
}

/// The report of a type with an aliased field or variant.
pub open spec fn aliased(name: Seq<char>, what: Seq<char>) -> Fault {
    Fault::Untraceable(
        "`"@ + name + "` has a "@ + what
            + " with #[serde(alias = \"...\")]. serde reports aliases and the real "@ + what
            + " name in one list, so tracing cannot tell which name the type writes. Put #[derive(carbonite::Schema)] on `"@
            + name + "` and use StaticSchema::schema() instead of Schema::new()"@,
    )
}

fn aliased_part(name: &str, what: &str) -> (result: Error)
    ensures
        result@ == aliased(name@, what@),
{
    let mut reason = String::new();
    reason.append("`");
    reason.append(name);
    reason.append("` has a ");
    reason.append(what);
    reason.append(" with #[serde(alias = \"...\")]. serde reports aliases and the real ");
    reason.append(what);
    reason.append(
        " name in one list, so tracing cannot tell which name the type writes. Put #[derive(carbonite::Schema)] on `",
    );
    reason.append(name);
    reason.append("` and use StaticSchema::schema() instead of Schema::new()");
    let result = Error::Untraceable { reason };
    assert(result@ =~= aliased(name@, what@)) by {
        assert(result@->Untraceable_0 =~= aliased(name@, what@)->Untraceable_0);
    }
    result
}

/// A type hands over one entry per alias alongside the real name, in a single
/// flat list, with nothing marking which entry is which. The schema has to
/// record the name the type *writes*, and that name cannot be picked out of
/// the list, so an aliased type is untraceable rather than
/// traceable-but-wrong.
pub fn aliased_fields(name: &str) -> (result: Error)
    ensures
        result@ == aliased(name@, "field"@),
{
    aliased_part(name, "field")
}

/// The variant-level counterpart of [`aliased_fields`].
pub fn aliased_variants(name: &str) -> (result: Error)
    ensures
        result@ == aliased(name@, "variant"@),
{
    aliased_part(name, "variant")
}

/// What an error raised during a pass is reported as.
pub open spec fn annotated(fault: Fault) -> Fault {
    match fault {
        Fault::Untraceable(_) | Fault::DepthLimitExceeded => fault,
        _ => Fault::Untraceable(
            "the type's Deserialize impl rejected the synthetic trace values: "@ + message(fault),
        ),
    }
}

/// Wraps errors raised *by the type* (e.g. validation of synthetic values) so
/// the failure mode is clear.
pub fn annotate(err: Error) -> (result: Error)
    ensures
        result@ == annotated(err@),
{
    match err {
        Error::Untraceable { reason } => Error::Untraceable { reason },
        Error::DepthLimitExceeded => Error::DepthLimitExceeded,
        other => {
            let mut reason = String::new();
            reason.append("the type's Deserialize impl rejected the synthetic trace values: ");
            reason.append(other.to_string().as_str());
            let result = Error::Untraceable { reason };
            assert(result@->Untraceable_0 =~= annotated(other@)->Untraceable_0);
            result
        },
    }
}

/// What a previous pass knows of a position.
pub open spec fn known(prior: Option<&TNode>) -> Option<Sketch> {
    match prior {
        Some(node) => Some(node@),
        None => None,
    }
}

/// The first variant from `i` on that no pass has explored.
pub open spec fn first_hole(kids: Seq<Option<Sketch>>, i: nat) -> Option<nat>
    decreases kids.len() - i,
{
    if i >= kids.len() {
        None
    } else if kids[i as int] is None {
        Some(i)
    } else {
        first_hole(kids, i + 1)
    }
}

/// The first variant from `i` on below which something is unexplored.
pub open spec fn first_open(kids: Seq<Option<Sketch>>, i: nat) -> Option<nat>
    decreases kids.len() - i,
{
    if i >= kids.len() {
        None
    } else if kids[i as int] is Some && !kids[i as int]->0.explored() {
        Some(i)
    } else {
        first_open(kids, i + 1)
    }
}

/// Which variant a pass explores at an enum position of `count` variants: the
/// first unexplored one, else the first below which something is unexplored,
/// else the first.
pub open spec fn steered(prior: Option<Sketch>, count: nat) -> nat {
    match prior {
        Some(s) => if s.kind is Enum && s.kids.len() == count {
            match first_hole(s.kids, 0) {
                Some(i) => i,
                None => match first_open(s.kids, 0) {
                    Some(i) => i,
                    None => 0,
                },
            }
        } else {
            0
        },
        None => 0,
    }
}

proof fn lemma_first_hole(kids: Seq<Option<Sketch>>, i: nat)
    ensures
        match first_hole(kids, i) {
            Some(k) => i <= k < kids.len() && kids[k as int] is None,
            None => forall|j: int| i <= j < kids.len() ==> (#[trigger] kids[j]) is Some,
        },
    decreases kids.len() - i,
{
    if i < kids.len() && kids[i as int] is Some {
        lemma_first_hole(kids, i + 1);
    }
}

proof fn lemma_first_open(kids: Seq<Option<Sketch>>, i: nat)
    ensures
        match first_open(kids, i) {
            Some(k) => i <= k < kids.len() && kids[k as int] is Some
                && !kids[k as int]->0.explored(),
            None => forall|j: int|
                i <= j < kids.len() && (#[trigger] kids[j]) is Some ==> kids[j]->0.explored(),
        },
    decreases kids.len() - i,
{
    if i < kids.len() && !(kids[i as int] is Some && !kids[i as int]->0.explored()) {
        lemma_first_open(kids, i + 1);
    }
}

/// Steering makes progress: as long as something below an enum is unexplored,
/// the variant that a pass is steered to is unexplored, or something below it
/// is.
pub proof fn lemma_steered(s: Sketch)
    requires
        s.kind is Enum,
        !s.explored(),
    ensures
        steered(Some(s), s.kids.len()) < s.kids.len(),
        ({
            let kid = s.kids[steered(Some(s), s.kids.len()) as int];
            kid is None || !kid->0.explored()
        }),
{
    lemma_first_hole(s.kids, 0);
    lemma_first_open(s.kids, 0);
}

/// A pass is steered to a variant that the type has, whatever previous passes
/// took the type for.
pub proof fn lemma_steered_there(prior: Option<Sketch>, count: nat)
    requires
        count > 0,
    ensures
        steered(prior, count) < count,
{
    match prior {
        Some(s) => {
            lemma_first_hole(s.kids, 0);
            lemma_first_open(s.kids, 0);
        },
        None => {},
    }
}

/// A variant that no pass has explored comes before one that is only open below,
/// and of either kind the first comes first.
pub proof fn lemma_steered_first(s: Sketch, k: nat)
    requires
        s.kind is Enum,
        k < steered(Some(s), s.kids.len()),
    ensures
        s.kids[k as int] is Some,
        s.kids[steered(Some(s), s.kids.len()) as int] matches Some(kid) ==> {
            &&& !kid.explored()
            &&& s.kids[k as int]->0.explored()
            &&& forall|j: int| 0 <= j < s.kids.len() ==> (#[trigger] s.kids[j]) is Some
        },
{
    lemma_first_hole(s.kids, 0);
    lemma_first_open(s.kids, 0);
    lemma_before_hole(s.kids, 0, k);
    if first_hole(s.kids, 0) is None {
        lemma_before_open(s.kids, 0, k);
    }
}

proof fn lemma_before_hole(kids: Seq<Option<Sketch>>, i: nat, k: nat)
    requires
        first_hole(kids, i) matches Some(at) ==> k < at,
        i <= k < kids.len(),
    ensures
        kids[k as int] is Some,
    decreases k - i,
{
    if i < k {
        lemma_before_hole(kids, i + 1, k);
    }
}

proof fn lemma_before_open(kids: Seq<Option<Sketch>>, i: nat, k: nat)
    requires
        first_open(kids, i) matches Some(at) ==> k < at,
        i <= k < kids.len(),
        kids[k as int] is Some,
    ensures
        kids[k as int]->0.explored(),
    decreases k - i,
{
    if i < k {
        lemma_before_open(kids, i + 1, k);
    }
}

/// What a pass fails with is reported once: what says how the tracing failed is
/// left as it is, and anything else is reported with its own words.
pub proof fn lemma_annotated(fault: Fault)
    ensures
        annotated(annotated(fault)) == annotated(fault),
        annotated(fault) is Untraceable || annotated(fault) is DepthLimitExceeded,
        annotated(fault) is DepthLimitExceeded <==> fault is DepthLimitExceeded,
        annotated(fault) != fault ==> (annotated(fault) matches Fault::Untraceable(reason)
            && reason.len() >= message(fault).len() && reason.skip(
            reason.len() - message(fault).len(),
        ) == message(fault)),
{
    if annotated(fault) != fault {
        let reason = annotated(fault)->Untraceable_0;
        assert(reason.skip(reason.len() - message(fault).len()) =~= message(fault));
    }
}

/// Picks which variant this pass should explore at an enum position.
pub fn choose_variant(prior: Option<&TNode>, variant_count: usize) -> (result: usize)
    ensures
        result == steered(known(prior), variant_count as nat),
{
    match prior {
        Some(TNode::Enum(name, variants)) => {
            let ghost s = prior->0@;
            assert(s.kids == variant_sketches(variants@));
            if variants.len() != variant_count {
                return 0;
            }
            let mut i: usize = 0;
            while i < variants.len()
                invariant
                    i <= variants@.len(),
                    known(prior) == Some(s),
                    s.kind is Enum,
                    variants@.len() == variant_count,
                    s.kids == variant_sketches(variants@),
                    first_hole(s.kids, 0) == first_hole(s.kids, i as nat),
                ensures
                    first_hole(s.kids, 0) is None,
                decreases variants@.len() - i,
            {
                if variants[i].1.is_none() {
                    assert(s.kids[i as int] is None);
                    return i;
                }
                assert(s.kids[i as int] is Some);
                i += 1;
            }
            i = 0;
            while i < variants.len()
                invariant
                    i <= variants@.len(),
                    known(prior) == Some(s),
                    s.kind is Enum,
                    variants@.len() == variant_count,
                    s.kids == variant_sketches(variants@),
                    first_hole(s.kids, 0) is None,
                    first_open(s.kids, 0) == first_open(s.kids, i as nat),
                decreases variants@.len() - i,
            {
                if let Some(variant) = &variants[i].1 {
                    assert(s.kids[i as int] == Some(variant@));
                    if crate::trace::variant_has_unexplored(variant) {
                        return i;
                    }
                }
                i += 1;
            }
            0
        },
        Some(other) => {
            assert(!(other@.kind is Enum));
            0
        },
        None => 0,
    }
}

/// What previous passes know of the variant in place `index`.
pub fn prior_variant(prior: Option<&TNode>, index: usize) -> (result: Option<&TVariant>)
    ensures
        match result {
            Some(variant) => {
                &&& known(prior) matches Some(s)
                &&& s.kind is Enum
                &&& index < s.kids.len()
                &&& s.kids[index as int] == Some(variant@)
            },
            None => known(prior) matches Some(s) ==> !(s.kind is Enum) || index >= s.kids.len()
                || s.kids[index as int] is None,
        },
{
    match prior {
        Some(TNode::Enum(name, variants)) => {
            let ghost s = prior->0@;
            assert(s.kids == variant_sketches(variants@));
            if index < variants.len() {
                match &variants[index].1 {
                    Some(variant) => {
                        assert(s.kids[index as int] == Some(variant@));
                        Some(variant)
                    },
                    None => {
                        assert(s.kids[index as int] is None);
                        None
                    },
                }
            } else {
                None
            }
        },
        Some(other) => {
            assert(!(other@.kind is Enum));
            None
        },
        None => None,
    }
}

/// What previous passes know of the parts of a position.
pub enum Priors<'p> {
    Nothing,
    One(&'p TNode),
    List(&'p Vec<TNode>),
    Named(&'p Vec<(String, TNode)>),
}

impl<'p> Priors<'p> {
    /// The parts, as far as they are known.
    pub open spec fn parts(&self) -> Seq<Option<Sketch>> {
        match *self {
            Priors::Nothing => seq![],
            Priors::One(node) => seq![Some(node@)],
            Priors::List(nodes) => sketches(nodes@),
            Priors::Named(fields) => named_sketches(fields@),
        }
    }

    /// What is known of one part.
    pub fn get(&self, index: usize) -> (result: Option<&'p TNode>)
        ensures
            match result {
                Some(node) => index < self.parts().len() && self.parts()[index as int] == Some(node@),
                None => index >= self.parts().len(),
            },
    {
        match self {
            Priors::Nothing => None,
            Priors::One(node) => if index == 0 {
                Some(*node)
            } else {
                None
            },
            Priors::List(nodes) => if index < nodes.len() {
                Some(&nodes[index])
            } else {
                None
            },
            Priors::Named(fields) => if index < fields.len() {
                Some(&fields[index].1)
            } else {
                None
            },
        }
    }
}

/// The parts that a visitor reads one by one, up to a limit: one for a
/// sequence, the arity for a tuple.
#[derive(Debug)]
pub struct TraceSeq {
    nodes: Vec<TNode>,
    limit: usize,
}

impl TraceSeq {
    /// The parts read so far.
    pub closed spec fn read(&self) -> Seq<TNode> {
        self.nodes@
    }

    /// How many can be read.
    pub closed spec fn limit(&self) -> nat {
        self.limit as nat
    }

    /// No more than the limit was read.
    pub open spec fn well_formed(&self) -> bool {
        self.read().len() <= self.limit()
    }

    /// Nothing read yet.
    pub fn new(limit: usize) -> (result: Self)
        ensures
            result.well_formed(),
            result.read() == Seq::<TNode>::empty(),
            result.limit() == limit,
    {
        TraceSeq { nodes: Vec::new(), limit }
    }

    /// The number of the part to be read next, if there is one.
    pub fn next_index(&self) -> (result: Option<usize>)
        requires
            self.well_formed(),
        ensures
            result == if self.read().len() < self.limit() {
                Some(self.read().len() as usize)
            } else {
                None
            },
    {
        let index: usize = self.nodes.len();
        if index >= self.limit {
            None
        } else {
            Some(index)
        }
    }

    /// Records a part. Parts past the limit are dropped.
    pub fn record(&mut self, node: TNode)
        requires
            old(self).well_formed(),
        ensures
            final(self).well_formed(),
            final(self).limit() == old(self).limit(),
            final(self).read() == if old(self).read().len() < old(self).limit() {
                old(self).read().push(node)
            } else {
                old(self).read()
            },
    {
        if self.nodes.len() < self.limit {
            self.nodes.push(node);
        }
    }

    /// How many parts can still be read.
    pub fn size_hint(&self) -> (result: usize)
        requires
            self.well_formed(),
        ensures
            result == self.limit() - self.read().len(),
    {
        self.limit - self.nodes.len()
    }

    /// The parts, once all of them have been read; `what` says who did not.
    pub fn finish(self, what: &str) -> (result: Result<Vec<TNode>>)
        requires
            self.well_formed(),
        ensures
            match result {
                Ok(nodes) => self.read().len() == self.limit() && nodes@ == self.read(),
                Err(error) => self.read().len() < self.limit() && error@ == Fault::Untraceable(
                    what@,
                ),
            },
    {
        if self.nodes.len() != self.limit {
            return Err(untraceable(what));
        }
        Ok(self.nodes)
    }
}

/// The fields that a struct visitor reads, name by name.
#[derive(Debug)]
pub struct TraceStruct {
    fields: Vec<String>,
    nodes: Vec<TNode>,
    /// Set while a key has been handed over but its value not yet requested.
    pending: bool,
}

impl TraceStruct {
    /// The names that are handed over.
    pub closed spec fn names(&self) -> Seq<Seq<char>> {
        self.fields@.map_values(|field: String| field@)
    }

    /// The fields read so far.
    pub closed spec fn read(&self) -> Seq<TNode> {
        self.nodes@
    }

    /// A key was handed over whose value was not requested.
    pub closed spec fn pending(&self) -> bool {
        self.pending
    }

    /// No more fields were read than there are names.
    pub open spec fn well_formed(&self) -> bool {
        &&& self.read().len() <= self.names().len()
        &&& self.pending() ==> self.read().len() < self.names().len()
    }

    /// Nothing read yet.
    pub fn new(fields: Vec<String>) -> (result: Self)
        ensures
            result.well_formed(),
            result.names() == fields@.map_values(|field: String| field@),
            result.read() == Seq::<TNode>::empty(),
            !result.pending(),
    {
        TraceStruct { fields, nodes: Vec::new(), pending: false }
    }

    /// Whether a key was handed over whose value was not requested. A visitor
    /// that fails there was handed an alias.
    pub fn is_pending(&self) -> (result: bool)
        ensures
            result == self.pending(),
    {
        self.pending
    }

    /// The next key, if there is one.
    pub fn next_key(&mut self) -> (result: Result<Option<String>>)
        requires
            old(self).well_formed(),
        ensures
            final(self).well_formed(),
            final(self).names() == old(self).names(),
            final(self).read() == old(self).read(),
            match result {
                Ok(Some(key)) => {
                    &&& !old(self).pending()
                    &&& final(self).pending()
                    &&& old(self).read().len() < old(self).names().len()
                    &&& key@ == old(self).names()[old(self).read().len() as int]
                },
                Ok(None) => {
                    &&& !old(self).pending()
                    &&& !final(self).pending()
                    &&& old(self).read().len() == old(self).names().len()
                },
                Err(error) => {
                    &&& old(self).pending()
                    &&& final(self).pending()
                    &&& error@ == Fault::Untraceable("a struct visitor requested two keys in a row"@)
                },
            },
    {
        if self.pending {
            return Err(untraceable("a struct visitor requested two keys in a row"));
        }
        let index: usize = self.nodes.len();
        if index >= self.fields.len() {
            return Ok(None);
        }
        self.pending = true;
        Ok(Some(self.fields[index].clone()))
    }

    /// The number of the field whose value is requested.
    pub fn next_value(&mut self) -> (result: Result<usize>)
        requires
            old(self).well_formed(),
        ensures
            final(self).well_formed(),
            final(self).names() == old(self).names(),
            final(self).read() == old(self).read(),
            !final(self).pending(),
            match result {
                Ok(index) => old(self).pending() && index == old(self).read().len(),
                Err(error) => !old(self).pending() && error@ == Fault::Untraceable(
                    "a struct visitor requested a value without a key"@,
                ),
            },
    {
        if !self.pending {
            return Err(untraceable("a struct visitor requested a value without a key"));
        }
        self.pending = false;
        Ok(self.nodes.len())
    }

    /// Records a field. Fields past the last name are dropped.
    pub fn record(&mut self, node: TNode)
        requires
            old(self).well_formed(),
            !old(self).pending(),
        ensures
            final(self).well_formed(),
            final(self).names() == old(self).names(),
            final(self).pending() == old(self).pending(),
            final(self).read() == if old(self).read().len() < old(self).names().len() {
                old(self).read().push(node)
            } else {
                old(self).read()
            },
    {
        if self.nodes.len() < self.fields.len() {
            self.nodes.push(node);
        }
    }

    /// How many fields can still be read.
    pub fn size_hint(&self) -> (result: usize)
        requires
            self.well_formed(),
        ensures
            result == self.names().len() - self.read().len(),
    {
        self.fields.len() - self.nodes.len()
    }

    /// The fields, once all of them have been read; `what` says who did not.
    pub fn finish(self, what: &str) -> (result: Result<Vec<(String, TNode)>>)
        requires
            self.well_formed(),
        ensures
            match result {
                Ok(fields) => {
                    &&& self.read().len() == self.names().len()
                    &&& labels(fields@) == self.names()
                    &&& named_sketches(fields@) == sketches(self.read())
                },
                Err(error) => self.read().len() < self.names().len() && error@
                    == Fault::Untraceable(what@),
            },
    {
        if self.nodes.len() != self.fields.len() {
            return Err(untraceable(what));
        }
        let mut out: Vec<(String, TNode)> = Vec::new();
        let mut i: usize = 0;
        while i < self.nodes.len()
            invariant
                i <= self.nodes@.len(),
                self.nodes@.len() == self.fields@.len(),
                out@.len() == i,
                forall|k: int| 0 <= k < i ==> (#[trigger] out@[k]).0@ == self.fields@[k]@,
                forall|k: int| 0 <= k < i ==> (#[trigger] out@[k]).1@ == self.nodes@[k]@,
            decreases self.nodes@.len() - i,
        {
            out.push((self.fields[i].clone(), self.nodes[i].clone()));
            i += 1;
        }
        assert(labels(out@) =~= self.names());
        assert(named_sketches(out@) =~= sketches(self.read()));
        Ok(out)
    }
}

/// How far a map visitor has come with its only entry.
#[derive(Clone, Copy, Debug, PartialEq, Eq, Structural)]
pub enum Stage {
    BeforeKey,
    BeforeValue,
    Done,
}

/// Exactly one map entry.
#[derive(Debug)]
pub struct TraceMap {
    pub stage: Stage,
}

impl TraceMap {
    /// Nothing read yet.
    pub fn new() -> (result: Self)
        ensures
            result.stage == Stage::BeforeKey,
    {
        TraceMap { stage: Stage::BeforeKey }
    }

    /// Whether there is a key to be read.
    pub fn next_key(&mut self) -> (result: Result<bool>)
        ensures
            match result {
                Ok(true) => old(self).stage == Stage::BeforeKey && final(self).stage
                    == Stage::BeforeValue,
                Ok(false) => old(self).stage == Stage::Done && final(self).stage == Stage::Done,
                Err(error) => {
                    &&& old(self).stage == Stage::BeforeValue
                    &&& final(self).stage == Stage::BeforeValue
                    &&& error@ == Fault::Untraceable("a map visitor requested two keys in a row"@)
                },
            },
    {
        match self.stage {
            Stage::BeforeKey => {
                self.stage = Stage::BeforeValue;
                Ok(true)
            },
            Stage::Done => Ok(false),
            Stage::BeforeValue => Err(untraceable("a map visitor requested two keys in a row")),
        }
    }

    /// The value of the entry is requested.
    pub fn next_value(&mut self) -> (result: Result<()>)
        ensures
            match result {
                Ok(_) => old(self).stage == Stage::BeforeValue && final(self).stage == Stage::Done,
                Err(error) => {
                    &&& old(self).stage != Stage::BeforeValue
                    &&& final(self).stage == old(self).stage
                    &&& error@ == Fault::Untraceable(
                        "a map visitor requested a value without a key"@,
                    )
                },
            },
    {
        if self.stage != Stage::BeforeValue {
            return Err(untraceable("a map visitor requested a value without a key"));
        }
        self.stage = Stage::Done;
        Ok(())
    }

    /// How many entries can still be read.
    pub fn size_hint(&self) -> (result: usize)
        ensures
            result == if self.stage == Stage::BeforeKey {
                1usize
            } else {
                0
            },
    {
        if self.stage == Stage::BeforeKey {
            1
        } else {
            0
        }
    }
}

/// An enum of which one variant was explored.
pub open spec fn one_explored(
    name: Seq<char>,
    variants: Seq<Seq<char>>,
    chosen: nat,
    variant: Sketch,
) -> Sketch {
    Sketch {
        kind: Kind::Enum,
        name,
        labels: variants,
        kids: Seq::new(
            variants.len(),
            |i: int|
                if i == chosen {
                    Some(variant)
                } else {
                    None
                },
        ),
    }
}

/// What a pass found at an enum position: the variant it was steered to,
/// among variants that it did not see.
pub fn record_enum(
    name: &str,
    variants: Vec<String>,
    chosen: usize,
    shape: Option<TVariant>,
) -> (result: Result<TNode>)
    ensures
        match result {
            Ok(node) => shape is Some && node@ == one_explored(
                name@,
                variants@.map_values(|variant: String| variant@),
                chosen as nat,
                shape->0@,
            ),
            Err(error) => shape is None && error@ == Fault::Untraceable(
                "an enum visitor did not inspect its variant"@,
            ),
        },
{
    match shape {
        Some(variant) => {
            let mut list: Vec<(String, Option<TVariant>)> = Vec::new();
            let mut i: usize = 0;
            while i < variants.len()
                invariant
                    i <= variants@.len(),
                    list@.len() == i,
                    forall|k: int| 0 <= k < i ==> (#[trigger] list@[k]).0@ == variants@[k]@,
                    forall|k: int|
                        0 <= k < i ==> maybe((#[trigger] list@[k]).1) == if k == chosen {
                            Some(variant@)
                        } else {
                            None
                        },
                decreases variants@.len() - i,
            {
                if i == chosen {
                    list.push((variants[i].clone(), Some(variant.clone())));
                } else {
                    list.push((variants[i].clone(), None));
                }
                i += 1;
            }
            proof {
                let want = one_explored(
                    name@,
                    variants@.map_values(|variant: String| variant@),
                    chosen as nat,
                    variant@,
                );
                assert(labels(list@) =~= want.labels);
                assert(variant_sketches(list@) =~= want.kids) by {
                    assert forall|k: int| 0 <= k < list@.len() implies variant_sketches(list@)[k]
                        == want.kids[k] by {
                        assert(maybe(list@[k].1) == want.kids[k]);
                    }
                }
            }
            Ok(TNode::Enum(name.to_owned(), list))
        },
        None => Err(untraceable("an enum visitor did not inspect its variant")),
    }
}

/// Whether a newtype name announces a shared value.
pub fn is_shared_name(name: &str) -> (result: bool)
    ensures
        result == (name@ == SHARED_TOKEN@),
{
    text::same(name, SHARED_TOKEN)
}

/// The state of tracing a type: what the passes so far have found.
#[derive(Debug)]
pub struct Tracing {
    merged: Option<TNode>,
    passes: usize,
}

/// What one more pass makes of what was known. Err where the passes disagree.
pub open spec fn absorbed(known: Option<Sketch>, pass: Sketch) -> std::result::Result<
    Sketch,
    Fault,
> {
    match known {
        None => Ok(pass),
        Some(before) => match united(before, pass) {
            Some(s) => Ok(s),
            None => Err(data_dependent()),
        },
    }
}

/// How many passes there may be: one for each variant known, and one more.
pub open spec fn pass_bound(s: Sketch) -> usize {
    capped(s.variants() + 1)
}

impl Tracing {
    /// What is known.
    pub closed spec fn known(&self) -> Option<Sketch> {
        match self.merged {
            Some(node) => Some(node@),
            None => None,
        }
    }

    /// The number of passes made.
    pub closed spec fn passes(&self) -> nat {
        self.passes as nat
    }

    /// Before the first pass.
    pub fn new() -> (result: Self)
        ensures
            result.known() is None,
            result.passes() == 0,
    {
        Tracing { merged: None, passes: 0 }
    }

    /// What is known, to steer the next pass by.
    pub fn prior(&self) -> (result: Option<&TNode>)
        ensures
            known(result) == self.known(),
    {
        match &self.merged {
            Some(node) => Some(node),
            None => None,
        }
    }

    /// Takes in what a pass has found, and says whether the passes are done.
    /// There are at most as many passes as there are variants, and one more.
    pub fn absorb(&mut self, pass: Option<TNode>) -> (result: Result<bool>)
        requires
            old(self).passes() < usize::MAX,
        ensures
            final(self).passes() <= old(self).passes() + 1,
            match pass {
                None => result matches Err(error) && error@ == Fault::Untraceable(
                    "the Deserialize impl returned without consuming input"@,
                ),
                Some(node) => match absorbed(old(self).known(), node@) {
                    Err(fault) => result matches Err(error) && error@ == fault,
                    Ok(s) => {
                        &&& final(self).known() == Some(s)
                        &&& final(self).passes() == old(self).passes() + 1
                        &&& match result {
                            Ok(done) => {
                                &&& done == s.explored()
                                &&& done || final(self).passes() <= pass_bound(s)
                            },
                            Err(error) => {
                                &&& !s.explored()
                                &&& final(self).passes() > pass_bound(s)
                                &&& error@ == Fault::Untraceable(
                                    "enum variant exploration did not converge; deserialization appears to be data-dependent"@,
                                )
                            },
                        }
                    },
                },
            },
    {
        let pass = match pass {
            Some(pass) => pass,
            None => return Err(
                untraceable("the Deserialize impl returned without consuming input"),
            ),
        };
        let next = match &self.merged {
            None => pass,
            Some(before) => match merge(before, &pass) {
                Ok(next) => next,
                Err(error) => return Err(error),
            },
        };
        let done = !node_has_unexplored(&next);
        self.passes = self.passes + 1;
        let count = count_variants(&next);
        let bound: usize = if count < usize::MAX {
            count + 1
        } else {
            usize::MAX
        };
        self.merged = Some(next);
        if !done && self.passes > bound {
            return Err(
                untraceable(
                    "enum variant exploration did not converge; deserialization appears to be data-dependent",
                ),
            );
        }
        Ok(done)
    }

    /// The schema that was found, once nothing is unexplored.
    pub fn schema(&self) -> (result: Option<SchemaNode>)
        ensures
            match result {
                Some(node) => self.known() matches Some(s) && s.explored() && node@ == s.shape(),
                None => self.known() matches Some(s) ==> !s.explored(),
            },
    {
        match &self.merged {
            Some(node) => if node_has_unexplored(node) {
                None
            } else {
                Some(node.into_schema())
            },
            None => None,
        }
    }
}

} // verus!
