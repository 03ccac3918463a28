//! Schema discovery by tracing: the tree that passes over a type build up.
//!
//! A tracer feeds a type synthetic values and notes every shape the type asks
//! for. Enums are discovered over several passes: each pass steers every enum
//! it meets toward its first unexplored variant (or toward a subtree that
//! still contains one), and passes repeat until none remains. What is here is
//! the tree, the steering, and the rules by which passes are united; see
//! [`Tracing`].
//!
//! Tracing assumes that the shape a type asks for does not depend on the
//! values it reads.

use vstd::prelude::*;

use crate::error::{Error, Fault, Result};
use crate::schema::{
    labels, named_shapes, shapes, variant_shapes, Primitive, SchemaNode, VariantNode,
};
use crate::shape::{leaf, node, Kind, Shape};

verus! {

/// A schema in which variants may still be unexplored.
pub struct Sketch {
    pub kind: Kind,
    pub name: Seq<char>,
    pub labels: Seq<Seq<char>>,
    /// The parts. Only a variant of an enum can be missing.
    pub kids: Seq<Option<Sketch>>,
}

impl Sketch {
    /// Nothing is missing.
    pub open spec fn explored(self) -> bool
        decreases self,
    {
        forall|i: int|
            0 <= i < self.kids.len() ==> (#[trigger] self.kids[i]) is Some
                && self.kids[i]->0.explored()
    }

    /// The schema that a sketch without holes is.
    pub open spec fn shape(self) -> Shape
        decreases self,
    {
        Shape {
            kind: self.kind,
            name: self.name,
            labels: self.labels,
            kids: Seq::new(
                self.kids.len(),
                |i: int|
                    if 0 <= i < self.kids.len() && self.kids[i] is Some {
                        self.kids[i]->0.shape()
                    } else {
                        leaf(Kind::Unit, seq![])
                    },
            ),
        }
    }

    /// The enum variants known so far.
    pub open spec fn variants(self) -> nat
        decreases self, self.kids.len() + 1,
    {
        (if self.kind is Enum {
            self.kids.len()
        } else {
            0
        }) + self.variants_below(self.kids.len())
    }

    /// The enum variants known in the first `n` parts.
    pub open spec fn variants_below(self, n: nat) -> nat
        decreases self, n,
    {
        if n == 0 || n > self.kids.len() {
            0
        } else {
            self.variants_below((n - 1) as nat) + match self.kids[n - 1] {
                Some(kid) => kid.variants(),
                None => 0,
            }
        }
    }
}

/// A sketch without parts.
pub open spec fn dot(kind: Kind, name: Seq<char>) -> Sketch {
    Sketch { kind, name, labels: seq![], kids: seq![] }
}

/// A sketch of one part.
pub open spec fn over(kind: Kind, name: Seq<char>, kid: Sketch) -> Sketch {
    Sketch { kind, name, labels: seq![], kids: seq![Some(kid)] }
}

/// Two passes united. Everything must agree; variants fill in wherever either
/// pass explored them. `None` where the passes disagree.
pub open spec fn united(a: Sketch, b: Sketch) -> Option<Sketch>
    decreases a,
{
    if a.kind == b.kind && a.name == b.name && a.labels == b.labels && a.kids.len() == b.kids.len()
        && forall|i: int|
        0 <= i < a.kids.len() && (#[trigger] a.kids[i]) is Some && b.kids[i] is Some ==> united(
            a.kids[i]->0,
            b.kids[i]->0,
        ) is Some {
        Some(
            Sketch {
                kids: Seq::new(
                    a.kids.len(),
                    |i: int|
                        if 0 <= i < a.kids.len() && a.kids[i] is Some && b.kids[i] is Some {
                            united(a.kids[i]->0, b.kids[i]->0)
                        } else if a.kids[i] is Some {
                            a.kids[i]
                        } else {
                            b.kids[i]
                        },
                ),
                ..a
            },
        )
    } else {
        None
    }
}

/// Uniting a pass with itself changes nothing.
pub proof fn lemma_united_self(a: Sketch)
    ensures
        united(a, a) == Some(a),
    decreases a,
{
    assert forall|i: int| 0 <= i < a.kids.len() && (#[trigger] a.kids[i]) is Some implies united(
        a.kids[i]->0,
        a.kids[i]->0,
    ) == a.kids[i] by {
        lemma_united_self(a.kids[i]->0);
    }
    assert(united(a, a)->0.kids =~= a.kids);
}

/// The order of the passes does not matter.
pub proof fn lemma_united_commutes(a: Sketch, b: Sketch)
    ensures
        united(a, b) == united(b, a),
    decreases a,
{
    if a.kind == b.kind && a.name == b.name && a.labels == b.labels && a.kids.len()
        == b.kids.len() {
        assert forall|i: int|
            0 <= i < a.kids.len() && (#[trigger] a.kids[i]) is Some && b.kids[i] is Some implies united(
            a.kids[i]->0,
            b.kids[i]->0,
        ) == united(b.kids[i]->0, a.kids[i]->0) by {
            lemma_united_commutes(a.kids[i]->0, b.kids[i]->0);
        }
        if united(a, b) is Some {
            assert forall|i: int|
                0 <= i < b.kids.len() && (#[trigger] b.kids[i]) is Some && a.kids[i] is Some implies united(
                b.kids[i]->0,
                a.kids[i]->0,
            ) is Some by {
                assert(a.kids[i] is Some);
            }
            assert(united(a, b)->0.kids =~= united(b, a)->0.kids);
        } else if united(b, a) is Some {
            assert forall|i: int|
                0 <= i < a.kids.len() && (#[trigger] a.kids[i]) is Some && b.kids[i] is Some implies united(
                a.kids[i]->0,
                b.kids[i]->0,
            ) is Some by {
                assert(b.kids[i] is Some);
            }
        }
    }
}

/// A pass that has been united adds nothing a second time: nothing that was
/// explored is lost.
pub proof fn lemma_united_keeps(a: Sketch, b: Sketch)
    requires
        united(a, b) is Some,
    ensures
        united(a, united(a, b)->0) == united(a, b),
        a.explored() ==> united(a, b)->0.explored(),
    decreases a,
{
    let c = united(a, b)->0;
    assert forall|i: int| 0 <= i < a.kids.len() && (#[trigger] a.kids[i]) is Some implies c.kids[i]
        is Some && united(a.kids[i]->0, c.kids[i]->0) == c.kids[i] && (a.kids[i]->0.explored()
        ==> c.kids[i]->0.explored()) by {
        if b.kids[i] is Some {
            lemma_united_keeps(a.kids[i]->0, b.kids[i]->0);
        } else {
            lemma_united_self(a.kids[i]->0);
        }
    }
    assert(united(a, c)->0.kids =~= c.kids);
}

/// Like a schema, but enum variant shapes may still be unexplored.
#[allow(inconsistent_fields)]
#[derive(Debug, PartialEq)]
pub enum TNode {
    Primitive(Primitive),
    String,
    Bytes,
    Unit,
    Option(Box<TNode>),
    UnitStruct(String),
    NewtypeStruct(String, Box<TNode>),
    Sequence(Box<TNode>),
    Tuple(Vec<TNode>),
    TupleStruct(String, Vec<TNode>),
    Mapping(Box<TNode>, Box<TNode>),
    Struct(String, Vec<(String, TNode)>),
    Enum(String, Vec<(String, Option<TVariant>)>),
    Shared(Box<TNode>),
}

/// The shape of one explored variant.
#[derive(Debug, PartialEq)]
pub enum TVariant {
    Unit,
    Newtype(Box<TNode>),
    Tuple(Vec<TNode>),
    Struct(Vec<(String, TNode)>),
}

impl TNode {
    /// The sketch that this tree is.
    pub open spec fn sketch(&self) -> Sketch
        decreases self,
    {
        match *self {
            TNode::Primitive(p) => dot(Kind::Primitive(p), seq![]),
            TNode::String => dot(Kind::String, seq![]),
            TNode::Bytes => dot(Kind::Bytes, seq![]),
            TNode::Unit => dot(Kind::Unit, seq![]),
            TNode::Option(inner) => over(Kind::Option, seq![], inner.sketch()),
            TNode::UnitStruct(name) => dot(Kind::UnitStruct, name@),
            TNode::NewtypeStruct(name, inner) => over(Kind::NewtypeStruct, name@, inner.sketch()),
            TNode::Sequence(elem) => over(Kind::Sequence, seq![], elem.sketch()),
            TNode::Tuple(fields) => Sketch {
                kind: Kind::Tuple,
                name: seq![],
                labels: seq![],
                kids: sketches(fields@),
            },
            TNode::TupleStruct(name, fields) => Sketch {
                kind: Kind::TupleStruct,
                name: name@,
                labels: seq![],
                kids: sketches(fields@),
            },
            TNode::Mapping(key, value) => Sketch {
                kind: Kind::Mapping,
                name: seq![],
                labels: seq![],
                kids: seq![Some(key.sketch()), Some(value.sketch())],
            },
            TNode::Struct(name, fields) => Sketch {
                kind: Kind::Struct,
                name: name@,
                labels: labels(fields@),
                kids: named_sketches(fields@),
            },
            TNode::Enum(name, variants) => Sketch {
                kind: Kind::Enum,
                name: name@,
                labels: labels(variants@),
                kids: variant_sketches(variants@),
            },
            TNode::Shared(inner) => over(Kind::Shared, seq![], inner.sketch()),
        }
    }
}

impl TVariant {
    /// The sketch that this variant is.
    pub open spec fn sketch(&self) -> Sketch
        decreases self,
    {
        match *self {
            TVariant::Unit => dot(Kind::UnitVariant, seq![]),
            TVariant::Newtype(inner) => over(Kind::NewtypeVariant, seq![], inner.sketch()),
            TVariant::Tuple(fields) => Sketch {
                kind: Kind::TupleVariant,
                name: seq![],
                labels: seq![],
                kids: sketches(fields@),
            },
            TVariant::Struct(fields) => Sketch {
                kind: Kind::StructVariant,
                name: seq![],
                labels: labels(fields@),
                kids: named_sketches(fields@),
            },
        }
    }
}

/// The sketches of a list of trees.
pub open spec fn sketches(fields: Seq<TNode>) -> Seq<Option<Sketch>>
    decreases fields,
{
    Seq::new(
        fields.len(),
        |i: int|
            if 0 <= i < fields.len() {
                Some(fields[i].sketch())
            } else {
                None
            },
    )
}

/// The sketches of a list of named trees.
pub open spec fn named_sketches(fields: Seq<(String, TNode)>) -> Seq<Option<Sketch>>
    decreases fields,
{
    Seq::new(
        fields.len(),
        |i: int|
            if 0 <= i < fields.len() {
                Some(fields[i].1.sketch())
            } else {
                None
            },
    )
}

/// The sketches of a list of variants.
pub open spec fn variant_sketches(variants: Seq<(String, Option<TVariant>)>) -> Seq<Option<Sketch>>
    decreases variants,
{
    Seq::new(
        variants.len(),
        |i: int|
            if 0 <= i < variants.len() {
                match variants[i].1 {
                    Some(variant) => Some(variant.sketch()),
                    None => None,
                }
            } else {
                None
            },
    )
}

impl View for TNode {
    type V = Sketch;

    open spec fn view(&self) -> Sketch {
        self.sketch()
    }
}

impl View for TVariant {
    type V = Sketch;

    open spec fn view(&self) -> Sketch {
        self.sketch()
    }
}

fn copy_nodes(fields: &Vec<TNode>) -> (result: Vec<TNode>)
    ensures
        sketches(result@) == sketches(fields@),
        result@.len() == fields@.len(),
    decreases fields,
{
    let mut out: Vec<TNode> = Vec::new();
    let mut i: usize = 0;
    while i < fields.len()
        invariant
            i <= fields@.len(),
            out@.len() == i,
            forall|k: int| 0 <= k < i ==> (#[trigger] out@[k])@ == fields@[k]@,
        decreases fields@.len() - i,
    {
        out.push(fields[i].clone());
        i += 1;
    }
    assert(sketches(out@) =~= sketches(fields@));
    out
}

fn copy_named(fields: &Vec<(String, TNode)>) -> (result: Vec<(String, TNode)>)
    ensures
        named_sketches(result@) == named_sketches(fields@),
        labels(result@) == labels(fields@),
    decreases fields,
{
    let mut out: Vec<(String, TNode)> = Vec::new();
    let mut i: usize = 0;
    while i < fields.len()
        invariant
            i <= fields@.len(),
            out@.len() == i,
            forall|k: int| 0 <= k < i ==> (#[trigger] out@[k]).1@ == fields@[k].1@,
            forall|k: int| 0 <= k < i ==> (#[trigger] out@[k]).0@ == fields@[k].0@,
        decreases fields@.len() - i,
    {
        out.push((fields[i].0.clone(), fields[i].1.clone()));
        i += 1;
    }
    assert(named_sketches(out@) =~= named_sketches(fields@));
    assert(labels(out@) =~= labels(fields@));
    out
}

/// What a variant is sketched as, explored or not.
pub open spec fn maybe(shape: Option<TVariant>) -> Option<Sketch> {
    match shape {
        Some(variant) => Some(variant@),
        None => None,
    }
}

fn copy_variants(variants: &Vec<(String, Option<TVariant>)>) -> (result: Vec<
    (String, Option<TVariant>),
>)
    ensures
        variant_sketches(result@) == variant_sketches(variants@),
        labels(result@) == labels(variants@),
    decreases variants,
{
    let mut out: Vec<(String, Option<TVariant>)> = Vec::new();
    let mut i: usize = 0;
    while i < variants.len()
        invariant
            i <= variants@.len(),
            out@.len() == i,
            forall|k: int| 0 <= k < i ==> maybe((#[trigger] out@[k]).1) == maybe(variants@[k].1),
            forall|k: int| 0 <= k < i ==> (#[trigger] out@[k]).0@ == variants@[k].0@,
        decreases variants@.len() - i,
    {
        let shape = match &variants[i].1 {
            Some(variant) => Some(variant.clone()),
            None => None,
        };
        out.push((variants[i].0.clone(), shape));
        i += 1;
    }
    assert(variant_sketches(out@) =~= variant_sketches(variants@)) by {
        assert forall|k: int| 0 <= k < out@.len() implies variant_sketches(out@)[k]
            == variant_sketches(variants@)[k] by {
            assert(maybe(out@[k].1) == maybe(variants@[k].1));
        }
    }
    assert(labels(out@) =~= labels(variants@));
    out
}

impl Clone for TNode {
    fn clone(&self) -> (result: Self)
        ensures
            result@ == self@,
        decreases self,
    {
        match self {
            TNode::Primitive(p) => TNode::Primitive(*p),
            TNode::String => TNode::String,
            TNode::Bytes => TNode::Bytes,
            TNode::Unit => TNode::Unit,
            TNode::Option(inner) => TNode::Option(Box::new((**inner).clone())),
            TNode::UnitStruct(name) => TNode::UnitStruct(name.clone()),
            TNode::NewtypeStruct(name, inner) => TNode::NewtypeStruct(
                name.clone(),
                Box::new((**inner).clone()),
            ),
            TNode::Sequence(elem) => TNode::Sequence(Box::new((**elem).clone())),
            TNode::Tuple(fields) => TNode::Tuple(copy_nodes(fields)),
            TNode::TupleStruct(name, fields) => TNode::TupleStruct(
                name.clone(),
                copy_nodes(fields),
            ),
            TNode::Mapping(key, value) => TNode::Mapping(
                Box::new((**key).clone()),
                Box::new((**value).clone()),
            ),
            TNode::Struct(name, fields) => TNode::Struct(name.clone(), copy_named(fields)),
            TNode::Enum(name, variants) => TNode::Enum(name.clone(), copy_variants(variants)),
            TNode::Shared(inner) => TNode::Shared(Box::new((**inner).clone())),
        }
    }
}

impl Clone for TVariant {
    fn clone(&self) -> (result: Self)
        ensures
            result@ == self@,
        decreases self,
    {
        match self {
            TVariant::Unit => TVariant::Unit,
            TVariant::Newtype(inner) => TVariant::Newtype(Box::new((**inner).clone())),
            TVariant::Tuple(fields) => TVariant::Tuple(copy_nodes(fields)),
            TVariant::Struct(fields) => TVariant::Struct(copy_named(fields)),
        }
    }
}

/// The report of a type that cannot be traced.
pub fn untraceable(reason: &str) -> (result: Error)
    ensures
        result@ == Fault::Untraceable(reason@),
{
    Error::Untraceable { reason: reason.to_owned() }
}

/// The report of passes that disagree.
pub open spec fn data_dependent() -> Fault {
    Fault::Untraceable(
        "the Deserialize impl requested different shapes on different passes; data-dependent deserialization cannot be traced"@,
    )
}

fn mismatch_err() -> (result: Error)
    ensures
        result@ == data_dependent(),
{
    untraceable(
        "the Deserialize impl requested different shapes on different passes; data-dependent deserialization cannot be traced",
    )
}

/// What has been united, for a result.
pub open spec fn unites(result: Result<TNode>, a: Sketch, b: Sketch) -> bool {
    match result {
        Ok(merged) => united(a, b) == Some(merged@),
        Err(error) => united(a, b) is None && error@ == data_dependent(),
    }
}

/// Unifies two passes' trees. Everything must agree structurally; enum
/// variant shapes fill in wherever either side explored them.
pub fn merge(a: &TNode, b: &TNode) -> (result: Result<TNode>)
    ensures
        unites(result, a@, b@),
    decreases a, 2nat,
{
    match (a, b) {
        (TNode::Primitive(x), TNode::Primitive(y)) => {
            if *x == *y {
                let merged = TNode::Primitive(*x);
                assert(united(a@, b@)->0.kids =~= a@.kids);
                Ok(merged)
            } else {
                Err(mismatch_err())
            }
        },
        (TNode::String, TNode::String) => {
            assert(united(a@, b@)->0.kids =~= a@.kids);
            Ok(TNode::String)
        },
        (TNode::Bytes, TNode::Bytes) => {
            assert(united(a@, b@)->0.kids =~= a@.kids);
            Ok(TNode::Bytes)
        },
        (TNode::Unit, TNode::Unit) => {
            assert(united(a@, b@)->0.kids =~= a@.kids);
            Ok(TNode::Unit)
        },
        (TNode::UnitStruct(n), TNode::UnitStruct(m)) => {
            if *n == *m {
                assert(united(a@, b@)->0.kids =~= a@.kids);
                Ok(TNode::UnitStruct(n.clone()))
            } else {
                Err(mismatch_err())
            }
        },
        (TNode::Option(x), TNode::Option(y)) => merge_one(
            x,
            y,
            Ghost(a@),
            Ghost(b@),
            Wrapper::Option,
        ),
        (TNode::Sequence(x), TNode::Sequence(y)) => merge_one(
            x,
            y,
            Ghost(a@),
            Ghost(b@),
            Wrapper::Sequence,
        ),
        (TNode::Shared(x), TNode::Shared(y)) => merge_one(
            x,
            y,
            Ghost(a@),
            Ghost(b@),
            Wrapper::Shared,
        ),
        (TNode::NewtypeStruct(n, x), TNode::NewtypeStruct(m, y)) => {
            if *n == *m {
                merge_one(x, y, Ghost(a@), Ghost(b@), Wrapper::Newtype(n.as_str()))
            } else {
                Err(mismatch_err())
            }
        },
        (TNode::Mapping(kx, vx), TNode::Mapping(ky, vy)) => merge_mapping(
            a,
            b,
            kx,
            vx,
            ky,
            vy,
        ),
        (TNode::Tuple(xs), TNode::Tuple(ys)) => {
            match merge_all(xs, ys, Ghost(a@), Ghost(b@)) {
                Ok(fields) => Ok(TNode::Tuple(fields)),
                Err(error) => Err(error),
            }
        },
        (TNode::TupleStruct(n, xs), TNode::TupleStruct(m, ys)) => {
            if *n == *m {
                match merge_all(xs, ys, Ghost(a@), Ghost(b@)) {
                    Ok(fields) => Ok(TNode::TupleStruct(n.clone(), fields)),
                    Err(error) => Err(error),
                }
            } else {
                Err(mismatch_err())
            }
        },
        (TNode::Struct(n, xs), TNode::Struct(m, ys)) => {
            if *n == *m {
                match merge_named(xs, ys, Ghost(a@), Ghost(b@)) {
                    Ok(fields) => Ok(TNode::Struct(n.clone(), fields)),
                    Err(error) => Err(error),
                }
            } else {
                Err(mismatch_err())
            }
        },
        (TNode::Enum(n, xs), TNode::Enum(m, ys)) => {
            if *n == *m {
                match merge_variants(xs, ys, Ghost(a@), Ghost(b@)) {
                    Ok(variants) => Ok(TNode::Enum(n.clone(), variants)),
                    Err(error) => Err(error),
                }
            } else {
                Err(mismatch_err())
            }
        },
        _ => Err(mismatch_err()),
    }
}

/// The trees of a single part.
enum Wrapper<'a> {
    Option,
    Sequence,
    Shared,
    Newtype(&'a str),
}

spec fn wrap(wrapper: Wrapper<'_>, kid: Sketch) -> Sketch {
    match wrapper {
        Wrapper::Option => over(Kind::Option, seq![], kid),
        Wrapper::Sequence => over(Kind::Sequence, seq![], kid),
        Wrapper::Shared => over(Kind::Shared, seq![], kid),
        Wrapper::Newtype(name) => over(Kind::NewtypeStruct, name@, kid),
    }
}

fn merge_one(
    x: &TNode,
    y: &TNode,
    Ghost(a): Ghost<Sketch>,
    Ghost(b): Ghost<Sketch>,
    wrapper: Wrapper<'_>,
) -> (result: Result<TNode>)
    requires
        a == wrap(wrapper, x@),
        b == wrap(wrapper, y@),
    ensures
        unites(result, a, b),
    decreases x, 3nat,
{
    match merge(x, y) {
        Ok(kid) => {
            proof {
                assert(a.kids[0] == Some(x@) && b.kids[0] == Some(y@));
                assert(united(a, b)->0.kids =~= seq![Some(kid@)]);
            }
            Ok(
                match wrapper {
                    Wrapper::Option => TNode::Option(Box::new(kid)),
                    Wrapper::Sequence => TNode::Sequence(Box::new(kid)),
                    Wrapper::Shared => TNode::Shared(Box::new(kid)),
                    Wrapper::Newtype(name) => TNode::NewtypeStruct(
                        name.to_owned(),
                        Box::new(kid),
                    ),
                },
            )
        },
        Err(error) => {
            assert(a.kids[0] is Some && b.kids[0] is Some);
            Err(error)
        },
    }
}

fn merge_mapping(
    a: &TNode,
    b: &TNode,
    kx: &TNode,
    vx: &TNode,
    ky: &TNode,
    vy: &TNode,
) -> (result: Result<TNode>)
    requires
        a matches TNode::Mapping(k, v) && *k == *kx && *v == *vx,
        b matches TNode::Mapping(k, v) && *k == *ky && *v == *vy,
    ensures
        unites(result, a@, b@),
    decreases a, 1nat,
{
    assert(a@.kids[0] == Some(kx@) && b@.kids[0] == Some(ky@));
    assert(a@.kids[1] == Some(vx@) && b@.kids[1] == Some(vy@));
    match merge(kx, ky) {
        Ok(key) => match merge(vx, vy) {
            Ok(value) => {
                assert(united(a@, b@)->0.kids =~= seq![Some(key@), Some(value@)]);
                Ok(TNode::Mapping(Box::new(key), Box::new(value)))
            },
            Err(error) => Err(error),
        },
        Err(error) => Err(error),
    }
}

fn merge_all(
    xs: &Vec<TNode>,
    ys: &Vec<TNode>,
    Ghost(a): Ghost<Sketch>,
    Ghost(b): Ghost<Sketch>,
) -> (result: Result<Vec<TNode>>)
    requires
        a.kids == sketches(xs@),
        b.kids == sketches(ys@),
        a.kind == b.kind,
        a.name == b.name,
        a.labels == b.labels,
    ensures
        match result {
            Ok(fields) => united(a, b) == Some(Sketch { kids: sketches(fields@), ..a }),
            Err(error) => united(a, b) is None && error@ == data_dependent(),
        },
    decreases xs, 3nat,
{
    if xs.len() != ys.len() {
        return Err(mismatch_err());
    }
    let mut out: Vec<TNode> = Vec::new();
    let mut i: usize = 0;
    while i < xs.len()
        invariant
            i <= xs@.len(),
            xs@.len() == ys@.len(),
            a.kids == sketches(xs@),
            b.kids == sketches(ys@),
            out@.len() == i,
            forall|k: int| 0 <= k < i ==> united(xs@[k]@, ys@[k]@) == Some((#[trigger] out@[k])@),
        decreases xs@.len() - i,
    {
        match merge(&xs[i], &ys[i]) {
            Ok(field) => out.push(field),
            Err(error) => {
                assert(a.kids[i as int] is Some && b.kids[i as int] is Some);
                return Err(error);
            },
        }
        i += 1;
    }
    proof {
        assert forall|k: int|
            0 <= k < a.kids.len() && (#[trigger] a.kids[k]) is Some && b.kids[k] is Some implies united(
            a.kids[k]->0,
            b.kids[k]->0,
        ) is Some by {
            assert(united(xs@[k]@, ys@[k]@) == Some(out@[k]@));
        }
        assert(united(a, b)->0.kids =~= sketches(out@)) by {
            assert forall|k: int| 0 <= k < a.kids.len() implies united(a, b)->0.kids[k] == sketches(
                out@,
            )[k] by {
                assert(united(xs@[k]@, ys@[k]@) == Some(out@[k]@));
            }
        }
    }
    Ok(out)
}

fn merge_named(
    xs: &Vec<(String, TNode)>,
    ys: &Vec<(String, TNode)>,
    Ghost(a): Ghost<Sketch>,
    Ghost(b): Ghost<Sketch>,
) -> (result: Result<Vec<(String, TNode)>>)
    requires
        a.kids == named_sketches(xs@),
        b.kids == named_sketches(ys@),
        a.kind == b.kind,
        a.name == b.name,
        a.labels == labels(xs@),
        b.labels == labels(ys@),
    ensures
        match result {
            Ok(fields) => united(a, b) == Some(
                Sketch { kids: named_sketches(fields@), labels: labels(fields@), ..a },
            ),
            Err(error) => united(a, b) is None && error@ == data_dependent(),
        },
    decreases xs, 3nat,
{
    if xs.len() != ys.len() {
        return Err(mismatch_err());
    }
    let mut out: Vec<(String, TNode)> = Vec::new();
    let mut i: usize = 0;
    while i < xs.len()
        invariant
            i <= xs@.len(),
            xs@.len() == ys@.len(),
            a.kids == named_sketches(xs@),
            b.kids == named_sketches(ys@),
            a.labels == labels(xs@),
            b.labels == labels(ys@),
            out@.len() == i,
            forall|k: int|
                0 <= k < i ==> united(xs@[k].1@, ys@[k].1@) == Some((#[trigger] out@[k]).1@),
            forall|k: int|
                0 <= k < i ==> (#[trigger] out@[k]).0@ == xs@[k].0@ && xs@[k].0@ == ys@[k].0@,
        decreases xs@.len() - i,
    {
        if xs[i].0 != ys[i].0 {
            assert(a.labels[i as int] != b.labels[i as int]);
            return Err(mismatch_err());
        }
        match merge(&xs[i].1, &ys[i].1) {
            Ok(field) => out.push((xs[i].0.clone(), field)),
            Err(error) => {
                assert(a.kids[i as int] is Some && b.kids[i as int] is Some);
                return Err(error);
            },
        }
        i += 1;
    }
    proof {
        assert(a.labels =~= b.labels) by {
            assert forall|k: int| 0 <= k < a.labels.len() implies a.labels[k] == b.labels[k] by {
                assert(out@[k].0@ == xs@[k].0@);
            }
        }
        assert(labels(out@) =~= a.labels);
        assert forall|k: int|
            0 <= k < a.kids.len() && (#[trigger] a.kids[k]) is Some && b.kids[k] is Some implies united(
            a.kids[k]->0,
            b.kids[k]->0,
        ) is Some by {
            assert(united(xs@[k].1@, ys@[k].1@) == Some(out@[k].1@));
        }
        assert(united(a, b)->0.kids =~= named_sketches(out@)) by {
            assert forall|k: int| 0 <= k < a.kids.len() implies united(a, b)->0.kids[k]
                == named_sketches(out@)[k] by {
                assert(united(xs@[k].1@, ys@[k].1@) == Some(out@[k].1@));
            }
        }
    }
    Ok(out)
}

/// What two views of a variant unite to, where they agree.
spec fn united_maybe(a: Option<Sketch>, b: Option<Sketch>) -> Option<Sketch> {
    if a is Some && b is Some {
        united(a->0, b->0)
    } else if a is Some {
        a
    } else {
        b
    }
}

fn merge_variants(
    xs: &Vec<(String, Option<TVariant>)>,
    ys: &Vec<(String, Option<TVariant>)>,
    Ghost(a): Ghost<Sketch>,
    Ghost(b): Ghost<Sketch>,
) -> (result: Result<Vec<(String, Option<TVariant>)>>)
    requires
        a.kids == variant_sketches(xs@),
        b.kids == variant_sketches(ys@),
        a.kind == b.kind,
        a.name == b.name,
        a.labels == labels(xs@),
        b.labels == labels(ys@),
    ensures
        match result {
            Ok(variants) => united(a, b) == Some(
                Sketch { kids: variant_sketches(variants@), labels: labels(variants@), ..a },
            ),
            Err(error) => united(a, b) is None && error@ == data_dependent(),
        },
    decreases xs, 3nat,
{
    if xs.len() != ys.len() {
        return Err(mismatch_err());
    }
    let mut out: Vec<(String, Option<TVariant>)> = Vec::new();
    let mut i: usize = 0;
    while i < xs.len()
        invariant
            i <= xs@.len(),
            xs@.len() == ys@.len(),
            a.kids == variant_sketches(xs@),
            b.kids == variant_sketches(ys@),
            a.labels == labels(xs@),
            b.labels == labels(ys@),
            out@.len() == i,
            forall|k: int|
                0 <= k < i ==> maybe((#[trigger] out@[k]).1) == united_maybe(
                    maybe(xs@[k].1),
                    maybe(ys@[k].1),
                ) && (maybe(xs@[k].1) is Some && maybe(ys@[k].1) is Some ==> maybe(out@[k].1)
                    is Some),
            forall|k: int|
                0 <= k < i ==> (#[trigger] out@[k]).0@ == xs@[k].0@ && xs@[k].0@ == ys@[k].0@,
        decreases xs@.len() - i,
    {
        if xs[i].0 != ys[i].0 {
            assert(a.labels[i as int] != b.labels[i as int]);
            return Err(mismatch_err());
        }
        let shape = match (&xs[i].1, &ys[i].1) {
            (None, None) => None,
            (None, Some(y)) => Some(y.clone()),
            (Some(x), None) => Some(x.clone()),
            (Some(x), Some(y)) => match merge_variant(x, y) {
                Ok(variant) => Some(variant),
                Err(error) => {
                    assert(a.kids[i as int] is Some && b.kids[i as int] is Some);
                    return Err(error);
                },
            },
        };
        out.push((xs[i].0.clone(), shape));
        i += 1;
    }
    proof {
        assert(a.labels =~= b.labels) by {
            assert forall|k: int| 0 <= k < a.labels.len() implies a.labels[k] == b.labels[k] by {
                assert(out@[k].0@ == xs@[k].0@);
            }
        }
        assert(labels(out@) =~= a.labels);
        assert forall|k: int|
            0 <= k < a.kids.len() && (#[trigger] a.kids[k]) is Some && b.kids[k] is Some implies united(
            a.kids[k]->0,
            b.kids[k]->0,
        ) is Some by {
            assert(maybe(out@[k].1) is Some);
        }
        assert(united(a, b)->0.kids =~= variant_sketches(out@)) by {
            assert forall|k: int| 0 <= k < a.kids.len() implies united(a, b)->0.kids[k]
                == variant_sketches(out@)[k] by {
                assert(maybe(out@[k].1) == united_maybe(maybe(xs@[k].1), maybe(ys@[k].1)));
            }
        }
    }
    Ok(out)
}

fn merge_variant(a: &TVariant, b: &TVariant) -> (result: Result<TVariant>)
    ensures
        match result {
            Ok(merged) => united(a@, b@) == Some(merged@),
            Err(error) => united(a@, b@) is None && error@ == data_dependent(),
        },
    decreases a, 4nat,
{
    match (a, b) {
        (TVariant::Unit, TVariant::Unit) => {
            assert(united(a@, b@)->0.kids =~= a@.kids);
            Ok(TVariant::Unit)
        },
        (TVariant::Newtype(x), TVariant::Newtype(y)) => {
            assert(a@.kids[0] == Some(x@) && b@.kids[0] == Some(y@));
            match merge(x, y) {
                Ok(kid) => {
                    assert(united(a@, b@)->0.kids =~= seq![Some(kid@)]);
                    Ok(TVariant::Newtype(Box::new(kid)))
                },
                Err(error) => Err(error),
            }
        },
        (TVariant::Tuple(xs), TVariant::Tuple(ys)) => match merge_all(
            xs,
            ys,
            Ghost(a@),
            Ghost(b@),
        ) {
            Ok(fields) => Ok(TVariant::Tuple(fields)),
            Err(error) => Err(error),
        },
        (TVariant::Struct(xs), TVariant::Struct(ys)) => match merge_named(
            xs,
            ys,
            Ghost(a@),
            Ghost(b@),
        ) {
            Ok(fields) => Ok(TVariant::Struct(fields)),
            Err(error) => Err(error),
        },
        _ => Err(mismatch_err()),
    }
}

/// Whether any variant is still unexplored.
pub fn node_has_unexplored(node: &TNode) -> (result: bool)
    ensures
        result == !node@.explored(),
    decreases node, 2nat,
{
    let ghost s = node@;
    match node {
        TNode::Primitive(_) | TNode::String | TNode::Bytes | TNode::Unit | TNode::UnitStruct(_) => {
            false
        },
        TNode::Option(inner)
        | TNode::NewtypeStruct(_, inner)
        | TNode::Sequence(inner)
        | TNode::Shared(inner) => {
            assert(s.kids[0] == Some(inner@));
            node_has_unexplored(inner)
        },
        TNode::Tuple(fields) | TNode::TupleStruct(_, fields) => list_has_unexplored(
            fields,
            Ghost(s),
        ),
        TNode::Mapping(key, value) => {
            assert(s.kids[0] == Some(key@) && s.kids[1] == Some(value@));
            node_has_unexplored(key) || node_has_unexplored(value)
        },
        TNode::Struct(_, fields) => named_has_unexplored(fields, Ghost(s)),
        TNode::Enum(_, variants) => {
            let mut i: usize = 0;
            while i < variants.len()
                invariant
                    i <= variants@.len(),
                    *node matches TNode::Enum(_, v) && v == *variants,
                    s == node@,
                    s.kids == variant_sketches(variants@),
                    forall|k: int|
                        0 <= k < i ==> (#[trigger] s.kids[k]) is Some && s.kids[k]->0.explored(),
                decreases variants@.len() - i,
            {
                match &variants[i].1 {
                    Some(variant) => {
                        assert(s.kids[i as int] == Some(variant@));
                        if variant_has_unexplored(variant) {
                            return true;
                        }
                    },
                    None => {
                        assert(s.kids[i as int] is None);
                        return true;
                    },
                }
                i += 1;
            }
            false
        },
    }
}

pub fn variant_has_unexplored(variant: &TVariant) -> (result: bool)
    ensures
        result == !variant@.explored(),
    decreases variant, 4nat,
{
    let ghost s = variant@;
    match variant {
        TVariant::Unit => false,
        TVariant::Newtype(inner) => {
            assert(s.kids[0] == Some(inner@));
            node_has_unexplored(inner)
        },
        TVariant::Tuple(fields) => list_has_unexplored(fields, Ghost(s)),
        TVariant::Struct(fields) => named_has_unexplored(fields, Ghost(s)),
    }
}

fn list_has_unexplored(fields: &Vec<TNode>, Ghost(s): Ghost<Sketch>) -> (result: bool)
    requires
        s.kids == sketches(fields@),
    ensures
        result == !s.explored(),
    decreases fields, 3nat,
{
    let mut i: usize = 0;
    while i < fields.len()
        invariant
            i <= fields@.len(),
            s.kids == sketches(fields@),
            forall|k: int|
                0 <= k < i ==> (#[trigger] s.kids[k]) is Some && s.kids[k]->0.explored(),
        decreases fields@.len() - i,
    {
        assert(s.kids[i as int] == Some(fields@[i as int]@));
        if node_has_unexplored(&fields[i]) {
            return true;
        }
        i += 1;
    }
    false
}

fn named_has_unexplored(fields: &Vec<(String, TNode)>, Ghost(s): Ghost<Sketch>) -> (result: bool)
    requires
        s.kids == named_sketches(fields@),
    ensures
        result == !s.explored(),
    decreases fields, 3nat,
{
    let mut i: usize = 0;
    while i < fields.len()
        invariant
            i <= fields@.len(),
            s.kids == named_sketches(fields@),
            forall|k: int|
                0 <= k < i ==> (#[trigger] s.kids[k]) is Some && s.kids[k]->0.explored(),
        decreases fields@.len() - i,
    {
        assert(s.kids[i as int] == Some(fields@[i as int].1@));
        if node_has_unexplored(&fields[i].1) {
            return true;
        }
        i += 1;
    }
    false
}

/// A count, as far as a machine word reaches.
pub open spec fn capped(n: nat) -> usize {
    if n <= usize::MAX {
        n as usize
    } else {
        usize::MAX
    }
}

fn capped_sum(a: usize, b: usize, Ghost(x): Ghost<nat>, Ghost(y): Ghost<nat>) -> (result: usize)
    requires
        a == capped(x),
        b == capped(y),
    ensures
        result == capped(x + y),
{
    if a <= usize::MAX - b {
        a + b
    } else {
        usize::MAX
    }
}

/// Total enum variants known so far; bounds the number of tracing passes.
pub fn count_variants(node: &TNode) -> (result: usize)
    ensures
        result == capped(node@.variants()),
    decreases node, 2nat,
{
    let ghost s = node@;
    match node {
        TNode::Primitive(_) | TNode::String | TNode::Bytes | TNode::Unit | TNode::UnitStruct(_) => {
            assert(s.variants_below(0) == 0);
            0
        },
        TNode::Option(inner)
        | TNode::NewtypeStruct(_, inner)
        | TNode::Sequence(inner)
        | TNode::Shared(inner) => {
            assert(s.kids[0] == Some(inner@));
            assert(s.variants_below(0) == 0);
            assert(s.variants_below(1) == inner@.variants());
            count_variants(inner)
        },
        TNode::Tuple(fields) | TNode::TupleStruct(_, fields) => count_list(fields, Ghost(s)),
        TNode::Mapping(key, value) => {
            assert(s.kids[0] == Some(key@) && s.kids[1] == Some(value@));
            assert(s.variants_below(0) == 0);
            assert(s.variants_below(1) == key@.variants());
            assert(s.variants_below(2) == key@.variants() + value@.variants());
            let first = count_variants(key);
            let second = count_variants(value);
            capped_sum(first, second, Ghost(key@.variants()), Ghost(value@.variants()))
        },
        TNode::Struct(_, fields) => count_named(fields, Ghost(s)),
        TNode::Enum(_, variants) => {
            let mut sum: usize = 0;
            let mut i: usize = 0;
            while i < variants.len()
                invariant
                    i <= variants@.len(),
                    *node matches TNode::Enum(_, v) && v == *variants,
                    s == node@,
                    s.kids == variant_sketches(variants@),
                    sum == capped(s.variants_below(i as nat)),
                decreases variants@.len() - i,
            {
                let more: usize = match &variants[i].1 {
                    Some(variant) => {
                        assert(s.kids[i as int] == Some(variant@));
                        count_variant(variant)
                    },
                    None => {
                        assert(s.kids[i as int] is None);
                        0
                    },
                };
                let ghost known: nat = match s.kids[i as int] {
                    Some(kid) => kid.variants(),
                    None => 0,
                };
                sum = capped_sum(sum, more, Ghost(s.variants_below(i as nat)), Ghost(known));
                i += 1;
            }
            capped_sum(
                variants.len(),
                sum,
                Ghost(s.kids.len()),
                Ghost(s.variants_below(s.kids.len())),
            )
        },
    }
}

fn count_variant(variant: &TVariant) -> (result: usize)
    ensures
        result == capped(variant@.variants()),
    decreases variant, 4nat,
{
    let ghost s = variant@;
    match variant {
        TVariant::Unit => {
            assert(s.variants_below(0) == 0);
            0
        },
        TVariant::Newtype(inner) => {
            assert(s.kids[0] == Some(inner@));
            assert(s.variants_below(0) == 0);
            assert(s.variants_below(1) == inner@.variants());
            count_variants(inner)
        },
        TVariant::Tuple(fields) => count_list(fields, Ghost(s)),
        TVariant::Struct(fields) => count_named(fields, Ghost(s)),
    }
}

fn count_list(fields: &Vec<TNode>, Ghost(s): Ghost<Sketch>) -> (result: usize)
    requires
        s.kids == sketches(fields@),
    ensures
        result == capped(s.variants_below(s.kids.len())),
    decreases fields, 3nat,
{
    let mut sum: usize = 0;
    let mut i: usize = 0;
    while i < fields.len()
        invariant
            i <= fields@.len(),
            s.kids == sketches(fields@),
            sum == capped(s.variants_below(i as nat)),
        decreases fields@.len() - i,
    {
        assert(s.kids[i as int] == Some(fields@[i as int]@));
        let more = count_variants(&fields[i]);
        sum = capped_sum(
            sum,
            more,
            Ghost(s.variants_below(i as nat)),
            Ghost(fields@[i as int]@.variants()),
        );
        i += 1;
    }
    sum
}

fn count_named(fields: &Vec<(String, TNode)>, Ghost(s): Ghost<Sketch>) -> (result: usize)
    requires
        s.kids == named_sketches(fields@),
    ensures
        result == capped(s.variants_below(s.kids.len())),
    decreases fields, 3nat,
{
    let mut sum: usize = 0;
    let mut i: usize = 0;
    while i < fields.len()
        invariant
            i <= fields@.len(),
            s.kids == named_sketches(fields@),
            sum == capped(s.variants_below(i as nat)),
        decreases fields@.len() - i,
    {
        assert(s.kids[i as int] == Some(fields@[i as int].1@));
        let more = count_variants(&fields[i].1);
        sum = capped_sum(
            sum,
            more,
            Ghost(s.variants_below(i as nat)),
            Ghost(fields@[i as int].1@.variants()),
        );
        i += 1;
    }
    sum
}

impl TNode {
    /// The schema that an explored tree is.
    pub fn into_schema(&self) -> (result: SchemaNode)
        requires
            self@.explored(),
        ensures
            result@ == self@.shape(),
        decreases self, 2nat,
    {
        let ghost s = self@;
        match self {
            TNode::Primitive(p) => {
                assert(s.shape().kids =~= seq![]);
                SchemaNode::Primitive(*p)
            },
            TNode::String => {
                assert(s.shape().kids =~= seq![]);
                SchemaNode::String
            },
            TNode::Bytes => {
                assert(s.shape().kids =~= seq![]);
                SchemaNode::Bytes
            },
            TNode::Unit => {
                assert(s.shape().kids =~= seq![]);
                SchemaNode::Unit
            },
            TNode::UnitStruct(name) => {
                assert(s.shape().kids =~= seq![]);
                SchemaNode::UnitStruct { name: name.clone() }
            },
            TNode::Option(inner) => {
                assert(s.kids[0] == Some(inner@));
                assert(s.shape().kids =~= seq![inner@.shape()]);
                SchemaNode::Option(Box::new(inner.into_schema()))
            },
            TNode::NewtypeStruct(name, inner) => {
                assert(s.kids[0] == Some(inner@));
                assert(s.shape().kids =~= seq![inner@.shape()]);
                SchemaNode::NewtypeStruct {
                    name: name.clone(),
                    inner: Box::new(inner.into_schema()),
                }
            },
            TNode::Sequence(inner) => {
                assert(s.kids[0] == Some(inner@));
                assert(s.shape().kids =~= seq![inner@.shape()]);
                SchemaNode::Sequence(Box::new(inner.into_schema()))
            },
            TNode::Shared(inner) => {
                assert(s.kids[0] == Some(inner@));
                assert(s.shape().kids =~= seq![inner@.shape()]);
                SchemaNode::Shared(Box::new(inner.into_schema()))
            },
            TNode::Tuple(fields) => SchemaNode::Tuple(list_schemas(fields, Ghost(s))),
            TNode::TupleStruct(name, fields) => SchemaNode::TupleStruct {
                name: name.clone(),
                fields: list_schemas(fields, Ghost(s)),
            },
            TNode::Mapping(key, value) => {
                assert(s.kids[0] == Some(key@) && s.kids[1] == Some(value@));
                assert(s.shape().kids =~= seq![key@.shape(), value@.shape()]);
                SchemaNode::Mapping {
                    key: Box::new(key.into_schema()),
                    value: Box::new(value.into_schema()),
                }
            },
            TNode::Struct(name, fields) => SchemaNode::Struct {
                name: name.clone(),
                fields: named_schemas(fields, Ghost(s)),
            },
            TNode::Enum(name, variants) => SchemaNode::Enum {
                name: name.clone(),
                variants: variant_schemas(variants, Ghost(s)),
            },
        }
    }
}

impl TVariant {
    /// The variant shape that an explored variant is.
    pub fn into_schema(&self) -> (result: VariantNode)
        requires
            self@.explored(),
        ensures
            result@ == self@.shape(),
        decreases self, 4nat,
    {
        let ghost s = self@;
        match self {
            TVariant::Unit => {
                assert(s.shape().kids =~= seq![]);
                VariantNode::Unit
            },
            TVariant::Newtype(inner) => {
                assert(s.kids[0] == Some(inner@));
                assert(s.shape().kids =~= seq![inner@.shape()]);
                VariantNode::Newtype(Box::new(inner.into_schema()))
            },
            TVariant::Tuple(fields) => VariantNode::Tuple(list_schemas(fields, Ghost(s))),
            TVariant::Struct(fields) => VariantNode::Struct(named_schemas(fields, Ghost(s))),
        }
    }
}

fn list_schemas(fields: &Vec<TNode>, Ghost(s): Ghost<Sketch>) -> (result: Vec<SchemaNode>)
    requires
        s.kids == sketches(fields@),
        s.explored(),
    ensures
        shapes(result@) == s.shape().kids,
    decreases fields, 3nat,
{
    let mut out: Vec<SchemaNode> = Vec::new();
    let mut i: usize = 0;
    while i < fields.len()
        invariant
            i <= fields@.len(),
            s.kids == sketches(fields@),
            s.explored(),
            out@.len() == i,
            forall|k: int| 0 <= k < i ==> (#[trigger] out@[k])@ == s.kids[k]->0.shape(),
        decreases fields@.len() - i,
    {
        assert(s.kids[i as int] == Some(fields@[i as int]@));
        out.push(fields[i].into_schema());
        i += 1;
    }
    assert(shapes(out@) =~= s.shape().kids) by {
        assert forall|k: int| 0 <= k < out@.len() implies shapes(out@)[k] == s.shape().kids[k] by {
            assert(s.kids[k] is Some);
            assert(out@[k]@ == s.kids[k]->0.shape());
        }
    }
    out
}

fn named_schemas(fields: &Vec<(String, TNode)>, Ghost(s): Ghost<Sketch>) -> (result: Vec<
    (String, SchemaNode),
>)
    requires
        s.kids == named_sketches(fields@),
        s.labels == labels(fields@),
        s.explored(),
    ensures
        named_shapes(result@) == s.shape().kids,
        labels(result@) == s.labels,
    decreases fields, 3nat,
{
    let mut out: Vec<(String, SchemaNode)> = Vec::new();
    let mut i: usize = 0;
    while i < fields.len()
        invariant
            i <= fields@.len(),
            s.kids == named_sketches(fields@),
            s.labels == labels(fields@),
            s.explored(),
            out@.len() == i,
            forall|k: int| 0 <= k < i ==> (#[trigger] out@[k]).1@ == s.kids[k]->0.shape(),
            forall|k: int| 0 <= k < i ==> (#[trigger] out@[k]).0@ == fields@[k].0@,
        decreases fields@.len() - i,
    {
        assert(s.kids[i as int] == Some(fields@[i as int].1@));
        out.push((fields[i].0.clone(), fields[i].1.into_schema()));
        i += 1;
    }
    assert(named_shapes(out@) =~= s.shape().kids) by {
        assert forall|k: int| 0 <= k < out@.len() implies named_shapes(out@)[k]
            == s.shape().kids[k] by {
            assert(s.kids[k] is Some);
            assert(out@[k].1@ == s.kids[k]->0.shape());
        }
    }
    assert(labels(out@) =~= s.labels);
    out
}

fn variant_schemas(variants: &Vec<(String, Option<TVariant>)>, Ghost(s): Ghost<Sketch>) -> (result:
    Vec<(String, VariantNode)>)
    requires
        s.kids == variant_sketches(variants@),
        s.labels == labels(variants@),
        s.explored(),
    ensures
        variant_shapes(result@) == s.shape().kids,
        labels(result@) == s.labels,
    decreases variants, 3nat,
{
    let mut out: Vec<(String, VariantNode)> = Vec::new();
    let mut i: usize = 0;
    while i < variants.len()
        invariant
            i <= variants@.len(),
            s.kids == variant_sketches(variants@),
            s.labels == labels(variants@),
            s.explored(),
            out@.len() == i,
            forall|k: int| 0 <= k < i ==> (#[trigger] out@[k]).1@ == s.kids[k]->0.shape(),
            forall|k: int| 0 <= k < i ==> (#[trigger] out@[k]).0@ == variants@[k].0@,
        decreases variants@.len() - i,
    {
        assert(s.kids[i as int] is Some);
        if let Some(variant) = &variants[i].1 {
            assert(s.kids[i as int] == Some(variant@));
            out.push((variants[i].0.clone(), variant.into_schema()));
        }
        i += 1;
    }
    assert(variant_shapes(out@) =~= s.shape().kids) by {
        assert forall|k: int| 0 <= k < out@.len() implies variant_shapes(out@)[k]
            == s.shape().kids[k] by {
            assert(s.kids[k] is Some);
            assert(out@[k].1@ == s.kids[k]->0.shape());
        }
    }
    assert(labels(out@) =~= s.labels);
    out
}

} // verus!
