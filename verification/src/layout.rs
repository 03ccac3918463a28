//! Column layout: the schema tree annotated with column assignments.
//!
//! Columns are numbered by a pre-order depth-first walk of the schema tree —
//! a node's own columns come before its children's. [`Layout::new`] fuses the
//! schema and the numbering into one [`Node`] tree carrying everything the
//! engines need (structure, names, column ids), so the serializer,
//! deserializer, and compat sampler each walk a single tree.

use vstd::prelude::*;

use crate::node::{
    fields_laid, lemma_fields_laid, lemma_named_laid, lemma_named_node_shapes, lemma_node_shapes,
    lemma_variant_kind_shapes, lemma_variants_laid, named_laid, named_node_shapes, node_shapes,
    variant_kind_shapes, variant_names, variants_laid, ColId, Node, Variant, VariantKind,
};
use crate::schema::{
    labels, named_shapes, shapes, variant_shapes, Primitive, SchemaNode, VariantNode,
};
use crate::shape::{
    description, kid_base, lemma_kid_columns, lemma_one_kid_columns, lemma_two_kids_columns, node,
    Kind, Shape, width_of,
};
use crate::text;

verus! {

/// A schema with its columns assigned.
#[derive(Debug)]
pub struct Layout {
    pub root: Node,
    /// Total number of columns.
    pub columns: usize,
}

impl Node {
    /// A short human-readable description, the same as that of the schema
    /// node this was built from. Used in error messages.
    pub fn describe(&self) -> (result: String)
        ensures
            result@ == description(self.shape()),
        decreases self,
    {
        proof {
            self.lemma_top(0);
        }
        match self {
            Node::Primitive(p, _) => p.name().to_owned(),
            Node::Str { bytes, .. } => if *bytes {
                "bytes".to_owned()
            } else {
                "string".to_owned()
            },
            Node::Unit { name: None } => "unit".to_owned(),
            Node::Unit { name: Some(name) } => text::join("unit struct `", name.as_str(), "`"),
            Node::Newtype { name, .. } => text::join("newtype struct `", name.as_str(), "`"),
            Node::Option { inner, .. } => text::join("option<", inner.describe().as_str(), ">"),
            Node::Sequence { .. } => "sequence".to_owned(),
            Node::Mapping { .. } => "map".to_owned(),
            Node::Tuple { name: None, fields } => {
                let result = text::join("", text::to_decimal(fields.len() as u64).as_str(), "-tuple");
                proof {
                    reveal_strlit("");
                    lemma_node_shapes(fields@);
                }
                assert(result@ =~= description(self.shape()));
                result
            },
            Node::Tuple { name: Some(name), .. } => text::join(
                "tuple struct `",
                name.as_str(),
                "`",
            ),
            Node::Struct { name, .. } => text::join("struct `", name.as_str(), "`"),
            Node::Enum { name, .. } => text::join("enum `", name.as_str(), "`"),
            Node::Shared { inner, .. } => text::join("shared<", inner.describe().as_str(), ">"),
        }
    }
}

impl Layout {
    /// The columns are numbered in pre-order from zero, and counted.
    pub open spec fn well_formed(&self) -> bool {
        &&& self.root.laid(0)
        &&& self.columns == width_of(self.root.shape())
        &&& self.root.shape().well_formed()
        &&& !crate::shape::is_variant(self.root.shape().kind)
    }

    /// Assigns the columns of a schema.
    pub fn new(schema: &SchemaNode) -> (result: Self)
        requires
            width_of(schema@) <= usize::MAX,
        ensures
            result.root.shape() == schema@,
            result.well_formed(),
    {
        let mut next: usize = 0;
        let root = build(schema, &mut next);
        proof {
            crate::schema::lemma_node_well_formed(*schema);
        }
        Layout { root, columns: next }
    }
}

/// Takes the next column.
fn allocate(next: &mut usize) -> (result: ColId)
    requires
        *old(next) < usize::MAX,
    ensures
        result == *old(next),
        *final(next) == *old(next) + 1,
{
    let id: usize = *next;
    *next = *next + 1;
    id
}

/// Lays a schema out from column `next` on.
fn build(schema: &SchemaNode, next: &mut usize) -> (result: Node)
    requires
        *old(next) + width_of(schema@) <= usize::MAX,
    ensures
        result.shape() == schema@,
        result.laid(*old(next) as nat),
        *final(next) == *old(next) + width_of(schema@),
    decreases schema, 1nat,
{
    let ghost base = *next as nat;
    let ghost s = schema@;
    match schema {
        SchemaNode::Primitive(p) => {
            let result = Node::Primitive(*p, allocate(next));
            proof {
                result.lemma_top(base);
            }
            result
        },
        SchemaNode::String => {
            let len = allocate(next);
            let data = allocate(next);
            let result = Node::Str { bytes: false, len, data };
            proof {
                result.lemma_top(base);
            }
            result
        },
        SchemaNode::Bytes => {
            let len = allocate(next);
            let data = allocate(next);
            let result = Node::Str { bytes: true, len, data };
            proof {
                result.lemma_top(base);
            }
            result
        },
        SchemaNode::Unit => {
            let result = Node::Unit { name: None };
            proof {
                result.lemma_top(base);
            }
            result
        },
        SchemaNode::UnitStruct { name } => {
            let result = Node::Unit { name: Some(name.clone()) };
            proof {
                result.lemma_top(base);
            }
            result
        },
        SchemaNode::NewtypeStruct { name, inner } => {
            proof {
                lemma_one_kid_columns(s);
            }
            let result = Node::Newtype { name: name.clone(), inner: Box::new(build(inner, next)) };
            proof {
                result.lemma_top(base);
            }
            result
        },
        SchemaNode::Option(inner) => {
            proof {
                lemma_one_kid_columns(s);
            }
            let tag = allocate(next);
            let result = Node::Option { tag, inner: Box::new(build(inner, next)) };
            proof {
                result.lemma_top(base);
            }
            result
        },
        SchemaNode::Sequence(elem) => {
            proof {
                lemma_one_kid_columns(s);
            }
            let len = allocate(next);
            let before: usize = *next;
            let elem = Box::new(build(elem, next));
            let result = Node::Sequence { len, elem, elem_columns: *next - before };
            proof {
                result.lemma_top(base);
            }
            result
        },
        SchemaNode::Mapping { key, value } => {
            proof {
                lemma_two_kids_columns(s);
            }
            let len = allocate(next);
            let before: usize = *next;
            let key = Box::new(build(key, next));
            let value = Box::new(build(value, next));
            let result = Node::Mapping { len, key, value, entry_columns: *next - before };
            proof {
                result.lemma_top(base);
            }
            result
        },
        SchemaNode::Shared(inner) => {
            proof {
                lemma_one_kid_columns(s);
            }
            let key = allocate(next);
            let result = Node::Shared { key, inner: Box::new(build(inner, next)) };
            proof {
                result.lemma_top(base);
            }
            result
        },
        SchemaNode::Tuple(fields) => build_tuple(None, fields, next, Ghost(s)),
        SchemaNode::TupleStruct { name, fields } => build_tuple(
            Some(name.clone()),
            fields,
            next,
            Ghost(s),
        ),
        SchemaNode::Struct { name, fields } => build_struct(name, fields, next, Ghost(s)),
        SchemaNode::Enum { name, variants } => build_enum(name, variants, next, Ghost(s)),
    }
}

/// Lays out a tuple or tuple struct from column `next` on.
fn build_tuple(
    name: Option<String>,
    fields: &Vec<SchemaNode>,
    next: &mut usize,
    Ghost(s): Ghost<Shape>,
) -> (result: Node)
    requires
        *old(next) + width_of(s) <= usize::MAX,
        s == match name {
            None => node(Kind::Tuple, seq![], shapes(fields@)),
            Some(name) => node(Kind::TupleStruct, name@, shapes(fields@)),
        },
    ensures
        result.shape() == s,
        result.laid(*old(next) as nat),
        *final(next) == *old(next) + width_of(s),
    decreases fields@, 1nat,
{
    let ghost base = *next as nat;
    let fields = build_fields(fields, next, Ghost(s), Ghost(base));
    let result = Node::Tuple { name, fields };
    proof {
        result.lemma_top(base);
    }
    result
}

/// Lays out a struct from column `next` on.
fn build_struct(
    name: &String,
    fields: &Vec<(String, SchemaNode)>,
    next: &mut usize,
    Ghost(s): Ghost<Shape>,
) -> (result: Node)
    requires
        *old(next) + width_of(s) <= usize::MAX,
        s == (Shape {
            kind: Kind::Struct,
            name: name@,
            labels: labels(fields@),
            kids: named_shapes(fields@),
        }),
    ensures
        result.shape() == s,
        result.laid(*old(next) as nat),
        *final(next) == *old(next) + width_of(s),
    decreases fields@, 1nat,
{
    let ghost base = *next as nat;
    let fields = build_named(fields, next, Ghost(s), Ghost(base));
    let result = Node::Struct { name: name.clone(), fields };
    proof {
        result.lemma_top(base);
    }
    result
}

/// Lays out an enum from column `next` on.
fn build_enum(
    name: &String,
    variants: &Vec<(String, VariantNode)>,
    next: &mut usize,
    Ghost(s): Ghost<Shape>,
) -> (result: Node)
    requires
        *old(next) + width_of(s) <= usize::MAX,
        s == (Shape {
            kind: Kind::Enum,
            name: name@,
            labels: labels(variants@),
            kids: variant_shapes(variants@),
        }),
    ensures
        result.shape() == s,
        result.laid(*old(next) as nat),
        *final(next) == *old(next) + width_of(s),
    decreases variants@, 1nat,
{
    let ghost base = *next as nat;
    let tag = allocate(next);
    let variants = build_variants(variants, next, Ghost(s), Ghost(base));
    let result = Node::Enum { name: name.clone(), tag, variants };
    proof {
        result.lemma_top(base);
    }
    result
}

/// Lays a variant shape out from column `next` on.
fn build_variant(variant: &VariantNode, next: &mut usize) -> (result: VariantKind)
    requires
        *old(next) + width_of(variant@) <= usize::MAX,
    ensures
        result.shape() == variant@,
        result.laid(*old(next) as nat),
        *final(next) == *old(next) + width_of(variant@),
    decreases variant, 1nat,
{
    let ghost base = *next as nat;
    let ghost s = variant@;
    let result = match variant {
        VariantNode::Unit => VariantKind::Unit,
        VariantNode::Newtype(inner) => {
            proof {
                lemma_one_kid_columns(s);
            }
            VariantKind::Newtype(Box::new(build(inner, next)))
        },
        VariantNode::Tuple(fields) => VariantKind::Tuple(
            build_fields(fields, next, Ghost(s), Ghost(base)),
        ),
        VariantNode::Struct(fields) => VariantKind::Struct(
            build_named(fields, next, Ghost(s), Ghost(base)),
        ),
    };
    proof {
        result.lemma_top(base);
    }
    result
}

/// Lays out positional fields, the children of `whole` at `base`.
fn build_fields(
    fields: &Vec<SchemaNode>,
    next: &mut usize,
    Ghost(whole): Ghost<Shape>,
    Ghost(base): Ghost<nat>,
) -> (result: Vec<Node>)
    requires
        whole.kids == shapes(fields@),
        *old(next) == kid_base(whole, base, 0),
        base + width_of(whole) <= usize::MAX,
    ensures
        node_shapes(result@) == whole.kids,
        result@.len() == whole.kids.len(),
        fields_laid(result@, whole, base),
        *final(next) == base + width_of(whole),
    decreases fields@, 0nat,
{
    let mut out: Vec<Node> = Vec::new();
    let mut i: usize = 0;
    while i < fields.len()
        invariant
            i <= fields@.len(),
            whole.kids == shapes(fields@),
            *next == kid_base(whole, base, i as nat),
            base + width_of(whole) <= usize::MAX,
            out@.len() == i,
            forall|k: int| 0 <= k < i ==> (#[trigger] out@[k]).shape() == fields@[k]@,
            forall|k: int|
                0 <= k < i ==> (#[trigger] out@[k]).laid(kid_base(whole, base, k as nat)),
        decreases fields@.len() - i,
    {
        proof {
            lemma_kid_columns(whole, i as nat);
        }
        let field = build(&fields[i], next);
        out.push(field);
        i += 1;
    }
    proof {
        lemma_node_shapes(out@);
        lemma_fields_laid(out@, whole, base);
    }
    assert(node_shapes(out@) =~= whole.kids);
    out
}

/// Lays out named fields, the children of `whole` at `base`.
fn build_named(
    fields: &Vec<(String, SchemaNode)>,
    next: &mut usize,
    Ghost(whole): Ghost<Shape>,
    Ghost(base): Ghost<nat>,
) -> (result: Vec<(String, Node)>)
    requires
        whole.kids == named_shapes(fields@),
        whole.labels == labels(fields@),
        *old(next) == kid_base(whole, base, 0),
        base + width_of(whole) <= usize::MAX,
    ensures
        named_node_shapes(result@) == whole.kids,
        labels(result@) == whole.labels,
        result@.len() == whole.kids.len(),
        named_laid(result@, whole, base),
        *final(next) == base + width_of(whole),
    decreases fields@, 0nat,
{
    let mut out: Vec<(String, Node)> = Vec::new();
    let mut i: usize = 0;
    while i < fields.len()
        invariant
            i <= fields@.len(),
            whole.kids == named_shapes(fields@),
            whole.labels == labels(fields@),
            *next == kid_base(whole, base, i as nat),
            base + width_of(whole) <= usize::MAX,
            out@.len() == i,
            forall|k: int| 0 <= k < i ==> (#[trigger] out@[k]).1.shape() == fields@[k].1@,
            forall|k: int| 0 <= k < i ==> (#[trigger] out@[k]).0@ == fields@[k].0@,
            forall|k: int|
                0 <= k < i ==> (#[trigger] out@[k]).1.laid(kid_base(whole, base, k as nat)),
        decreases fields@.len() - i,
    {
        proof {
            lemma_kid_columns(whole, i as nat);
        }
        let field = build(&fields[i].1, next);
        out.push((fields[i].0.clone(), field));
        i += 1;
    }
    proof {
        lemma_named_node_shapes(out@);
        lemma_named_laid(out@, whole, base);
    }
    assert(named_node_shapes(out@) =~= whole.kids);
    assert(labels(out@) =~= whole.labels);
    out
}

/// Lays out named variants, the children of `whole` at `base`.
fn build_variants(
    variants: &Vec<(String, VariantNode)>,
    next: &mut usize,
    Ghost(whole): Ghost<Shape>,
    Ghost(base): Ghost<nat>,
) -> (result: Vec<Variant>)
    requires
        whole.kids == variant_shapes(variants@),
        whole.labels == labels(variants@),
        *old(next) == kid_base(whole, base, 0),
        base + width_of(whole) <= usize::MAX,
    ensures
        variant_kind_shapes(result@) == whole.kids,
        variant_names(result@) == whole.labels,
        result@.len() == whole.kids.len(),
        variants_laid(result@, whole, base),
        *final(next) == base + width_of(whole),
    decreases variants@, 0nat,
{
    let mut out: Vec<Variant> = Vec::new();
    let mut i: usize = 0;
    while i < variants.len()
        invariant
            i <= variants@.len(),
            whole.kids == variant_shapes(variants@),
            whole.labels == labels(variants@),
            *next == kid_base(whole, base, i as nat),
            base + width_of(whole) <= usize::MAX,
            out@.len() == i,
            forall|k: int| 0 <= k < i ==> (#[trigger] out@[k]).kind.shape() == variants@[k].1@,
            forall|k: int| 0 <= k < i ==> (#[trigger] out@[k]).name@ == variants@[k].0@,
            forall|k: int|
                0 <= k < i ==> (#[trigger] out@[k]).kind.laid(kid_base(whole, base, k as nat)),
        decreases variants@.len() - i,
    {
        proof {
            lemma_kid_columns(whole, i as nat);
        }
        let kind = build_variant(&variants[i].1, next);
        out.push(Variant { name: variants[i].0.clone(), kind });
        i += 1;
    }
    proof {
        lemma_variant_kind_shapes(out@);
        lemma_variants_laid(out@, whole, base);
    }
    assert(variant_kind_shapes(out@) =~= whole.kids);
    assert(variant_names(out@) =~= whole.labels);
    out
}

} // verus!
