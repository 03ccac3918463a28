//! One position of a layout: the schema node it was built from, with the
//! columns it owns.

use vstd::prelude::*;

use crate::schema::{labels, Primitive};
use crate::shape::{kid_base, leaf, node, width_of, Kind, Shape};

verus! {

/// A column number.
pub type ColId = usize;

/// One value position: its wire structure, the names the schema recorded for
/// it, and the columns it owns.
#[allow(inconsistent_fields)]
#[derive(Debug)]
pub enum Node {
    /// One fixed-width column.
    Primitive(Primitive, ColId),
    /// String (`bytes: false`) or byte array (`bytes: true`): a varint
    /// length column plus a byte-data column.
    Str { bytes: bool, len: ColId, data: ColId },
    /// `()` (`name: None`) or a unit struct (`name: Some`). No columns.
    Unit { name: Option<String> },
    /// A newtype struct; laid out exactly as its inner value.
    Newtype { name: String, inner: Box<Node> },
    Option { tag: ColId, inner: Box<Node> },
    Sequence {
        len: ColId,
        elem: Box<Node>,
        /// Columns occupied by one element. Zero means an element consumes no
        /// bytes, so a claimed length cannot be validated against the input.
        elem_columns: usize,
    },
    Mapping {
        len: ColId,
        key: Box<Node>,
        value: Box<Node>,
        /// Columns occupied by one key/value pair. See `elem_columns`.
        entry_columns: usize,
    },
    /// A bare tuple (`name: None`) or a tuple struct (`name: Some`).
    Tuple { name: Option<String>, fields: Vec<Node> },
    /// A struct with named fields.
    Struct { name: String, fields: Vec<(String, Node)> },
    /// Tag column plus one annotated variant per schema variant.
    Enum { name: String, tag: ColId, variants: Vec<Variant> },
    /// Shared value: key column plus the dictionary's payload columns.
    Shared { key: ColId, inner: Box<Node> },
}

/// One variant of an enum.
#[derive(Debug)]
pub struct Variant {
    pub name: String,
    pub kind: VariantKind,
}

/// The shape of one variant, with its columns.
#[derive(Debug)]
pub enum VariantKind {
    Unit,
    Newtype(Box<Node>),
    Tuple(Vec<Node>),
    Struct(Vec<(String, Node)>),
}

impl Node {
    /// The schema that this was built from.
    pub closed spec fn shape(&self) -> Shape
        decreases self,
    {
        match *self {
            Node::Primitive(p, _) => leaf(Kind::Primitive(p), seq![]),
            Node::Str { bytes, .. } => if bytes {
                leaf(Kind::Bytes, seq![])
            } else {
                leaf(Kind::String, seq![])
            },
            Node::Unit { name: None } => leaf(Kind::Unit, seq![]),
            Node::Unit { name: Some(name) } => leaf(Kind::UnitStruct, name@),
            Node::Newtype { name, inner } => node(Kind::NewtypeStruct, name@, seq![inner.shape()]),
            Node::Option { inner, .. } => node(Kind::Option, seq![], seq![inner.shape()]),
            Node::Sequence { elem, .. } => node(Kind::Sequence, seq![], seq![elem.shape()]),
            Node::Mapping { key, value, .. } => node(
                Kind::Mapping,
                seq![],
                seq![key.shape(), value.shape()],
            ),
            Node::Tuple { name: None, fields } => node(Kind::Tuple, seq![], node_shapes(fields@)),
            Node::Tuple { name: Some(name), fields } => node(
                Kind::TupleStruct,
                name@,
                node_shapes(fields@),
            ),
            Node::Struct { name, fields } => Shape {
                kind: Kind::Struct,
                name: name@,
                labels: labels(fields@),
                kids: named_node_shapes(fields@),
            },
            Node::Enum { name, variants, .. } => Shape {
                kind: Kind::Enum,
                name: name@,
                labels: variant_names(variants@),
                kids: variant_kind_shapes(variants@),
            },
            Node::Shared { inner, .. } => node(Kind::Shared, seq![], seq![inner.shape()]),
        }
    }

    /// The columns are numbered in pre-order from `base` on.
    pub closed spec fn laid(&self, base: nat) -> bool
        decreases self,
    {
        match *self {
            Node::Primitive(_, col) => col == base,
            Node::Str { bytes: _, len, data } => len == base && data == base + 1,
            Node::Unit { .. } => true,
            Node::Newtype { inner, .. } => inner.laid(base),
            Node::Option { tag, inner } => tag == base && inner.laid(base + 1),
            Node::Sequence { len, elem, elem_columns } => {
                &&& len == base
                &&& elem.laid(base + 1)
                &&& elem_columns == width_of(elem.shape())
            },
            Node::Mapping { len, key, value, entry_columns } => {
                &&& len == base
                &&& key.laid(base + 1)
                &&& value.laid(base + 1 + width_of(key.shape()))
                &&& entry_columns == width_of(key.shape()) + width_of(value.shape())
            },
            Node::Tuple { fields, .. } => fields_laid(fields@, self.shape(), base),
            Node::Struct { fields, .. } => named_laid(fields@, self.shape(), base),
            Node::Enum { tag, variants, .. } => tag == base && variants_laid(
                variants@,
                self.shape(),
                base,
            ),
            Node::Shared { key, inner } => key == base && inner.laid(base + 1),
        }
    }
}

impl VariantKind {
    /// The variant shape that this was built from.
    pub closed spec fn shape(&self) -> Shape
        decreases self,
    {
        match *self {
            VariantKind::Unit => leaf(Kind::UnitVariant, seq![]),
            VariantKind::Newtype(inner) => node(
                Kind::NewtypeVariant,
                seq![],
                seq![inner.shape()],
            ),
            VariantKind::Tuple(fields) => node(Kind::TupleVariant, seq![], node_shapes(fields@)),
            VariantKind::Struct(fields) => Shape {
                kind: Kind::StructVariant,
                name: seq![],
                labels: labels(fields@),
                kids: named_node_shapes(fields@),
            },
        }
    }

    /// The columns are numbered in pre-order from `base` on.
    pub closed spec fn laid(&self, base: nat) -> bool
        decreases self,
    {
        match *self {
            VariantKind::Unit => true,
            VariantKind::Newtype(inner) => inner.laid(base),
            VariantKind::Tuple(fields) => fields_laid(fields@, self.shape(), base),
            VariantKind::Struct(fields) => named_laid(fields@, self.shape(), base),
        }
    }
}

/// Positions are laid out as the children of `whole` at `base`.
pub closed spec fn fields_laid(fields: Seq<Node>, whole: Shape, base: nat) -> bool
    decreases fields,
{
    forall|i: int|
        0 <= i < fields.len() ==> (#[trigger] fields[i]).laid(kid_base(whole, base, i as nat))
}

/// Named positions are laid out as the children of `whole` at `base`.
pub closed spec fn named_laid(fields: Seq<(String, Node)>, whole: Shape, base: nat) -> bool
    decreases fields,
{
    forall|i: int|
        0 <= i < fields.len() ==> (#[trigger] fields[i]).1.laid(kid_base(whole, base, i as nat))
}

/// Variants are laid out as the children of `whole` at `base`.
pub closed spec fn variants_laid(variants: Seq<Variant>, whole: Shape, base: nat) -> bool
    decreases variants,
{
    forall|i: int|
        0 <= i < variants.len() ==> (#[trigger] variants[i]).kind.laid(
            kid_base(whole, base, i as nat),
        )
}

/// The schemas of a list of positions.
pub closed spec fn node_shapes(fields: Seq<Node>) -> Seq<Shape>
    decreases fields,
{
    Seq::new(
        fields.len(),
        |i: int|
            if 0 <= i < fields.len() {
                fields[i].shape()
            } else {
                leaf(Kind::Unit, seq![])
            },
    )
}

/// The schemas of a list of named positions.
pub closed spec fn named_node_shapes(fields: Seq<(String, Node)>) -> Seq<Shape>
    decreases fields,
{
    Seq::new(
        fields.len(),
        |i: int|
            if 0 <= i < fields.len() {
                fields[i].1.shape()
            } else {
                leaf(Kind::Unit, seq![])
            },
    )
}

/// The schemas of a list of variants.
pub closed spec fn variant_kind_shapes(variants: Seq<Variant>) -> Seq<Shape>
    decreases variants,
{
    Seq::new(
        variants.len(),
        |i: int|
            if 0 <= i < variants.len() {
                variants[i].kind.shape()
            } else {
                leaf(Kind::Unit, seq![])
            },
    )
}

/// The names of a list of variants.
pub open spec fn variant_names(variants: Seq<Variant>) -> Seq<Seq<char>> {
    variants.map_values(|variant: Variant| variant.name@)
}


impl Node {
    /// The schema, as far as the position itself tells it.
    pub open spec fn top_shape(&self) -> Shape {
        match *self {
            Node::Primitive(p, _) => leaf(Kind::Primitive(p), seq![]),
            Node::Str { bytes, .. } => if bytes {
                leaf(Kind::Bytes, seq![])
            } else {
                leaf(Kind::String, seq![])
            },
            Node::Unit { name: None } => leaf(Kind::Unit, seq![]),
            Node::Unit { name: Some(name) } => leaf(Kind::UnitStruct, name@),
            Node::Newtype { name, inner } => node(Kind::NewtypeStruct, name@, seq![inner.shape()]),
            Node::Option { inner, .. } => node(Kind::Option, seq![], seq![inner.shape()]),
            Node::Sequence { elem, .. } => node(Kind::Sequence, seq![], seq![elem.shape()]),
            Node::Mapping { key, value, .. } => node(
                Kind::Mapping,
                seq![],
                seq![key.shape(), value.shape()],
            ),
            Node::Tuple { name: None, fields } => node(Kind::Tuple, seq![], node_shapes(fields@)),
            Node::Tuple { name: Some(name), fields } => node(
                Kind::TupleStruct,
                name@,
                node_shapes(fields@),
            ),
            Node::Struct { name, fields } => Shape {
                kind: Kind::Struct,
                name: name@,
                labels: labels(fields@),
                kids: named_node_shapes(fields@),
            },
            Node::Enum { name, variants, .. } => Shape {
                kind: Kind::Enum,
                name: name@,
                labels: variant_names(variants@),
                kids: variant_kind_shapes(variants@),
            },
            Node::Shared { inner, .. } => node(Kind::Shared, seq![], seq![inner.shape()]),
        }
    }

    /// The numbering, as far as the position itself tells it.
    pub open spec fn top_laid(&self, base: nat) -> bool {
        match *self {
            Node::Primitive(_, col) => col == base,
            Node::Str { bytes: _, len, data } => len == base && data == base + 1,
            Node::Unit { .. } => true,
            Node::Newtype { inner, .. } => inner.laid(base),
            Node::Option { tag, inner } => tag == base && inner.laid(base + 1),
            Node::Sequence { len, elem, elem_columns } => {
                &&& len == base
                &&& elem.laid(base + 1)
                &&& elem_columns == width_of(elem.shape())
            },
            Node::Mapping { len, key, value, entry_columns } => {
                &&& len == base
                &&& key.laid(base + 1)
                &&& value.laid(base + 1 + width_of(key.shape()))
                &&& entry_columns == width_of(key.shape()) + width_of(value.shape())
            },
            Node::Tuple { fields, .. } => fields_laid(fields@, self.shape(), base),
            Node::Struct { fields, .. } => named_laid(fields@, self.shape(), base),
            Node::Enum { tag, variants, .. } => tag == base && variants_laid(
                variants@,
                self.shape(),
                base,
            ),
            Node::Shared { key, inner } => key == base && inner.laid(base + 1),
        }
    }

    /// What the schema and the numbering of a position are made of.
    pub proof fn lemma_top(&self, base: nat)
        ensures
            self.shape() == self.top_shape(),
            self.laid(base) == self.top_laid(base),
    {
    }
}

impl VariantKind {
    /// The variant shape, as far as the variant itself tells it.
    pub open spec fn top_shape(&self) -> Shape {
        match *self {
            VariantKind::Unit => leaf(Kind::UnitVariant, seq![]),
            VariantKind::Newtype(inner) => node(
                Kind::NewtypeVariant,
                seq![],
                seq![inner.shape()],
            ),
            VariantKind::Tuple(fields) => node(Kind::TupleVariant, seq![], node_shapes(fields@)),
            VariantKind::Struct(fields) => Shape {
                kind: Kind::StructVariant,
                name: seq![],
                labels: labels(fields@),
                kids: named_node_shapes(fields@),
            },
        }
    }

    /// The numbering, as far as the variant itself tells it.
    pub open spec fn top_laid(&self, base: nat) -> bool {
        match *self {
            VariantKind::Unit => true,
            VariantKind::Newtype(inner) => inner.laid(base),
            VariantKind::Tuple(fields) => fields_laid(fields@, self.shape(), base),
            VariantKind::Struct(fields) => named_laid(fields@, self.shape(), base),
        }
    }

    /// What the shape and the numbering of a variant are made of.
    pub proof fn lemma_top(&self, base: nat)
        ensures
            self.shape() == self.top_shape(),
            self.laid(base) == self.top_laid(base),
    {
    }
}

/// The schemas of a list of positions, one by one.
pub proof fn lemma_node_shapes(fields: Seq<Node>)
    ensures
        node_shapes(fields).len() == fields.len(),
        forall|i: int|
            0 <= i < fields.len() ==> #[trigger] node_shapes(fields)[i] == fields[i].shape(),
{
}

/// The schemas of a list of named positions, one by one.
pub proof fn lemma_named_node_shapes(fields: Seq<(String, Node)>)
    ensures
        named_node_shapes(fields).len() == fields.len(),
        forall|i: int|
            0 <= i < fields.len() ==> #[trigger] named_node_shapes(fields)[i]
                == fields[i].1.shape(),
{
}

/// The schemas of a list of variants, one by one.
pub proof fn lemma_variant_kind_shapes(variants: Seq<Variant>)
    ensures
        variant_kind_shapes(variants).len() == variants.len(),
        forall|i: int|
            0 <= i < variants.len() ==> #[trigger] variant_kind_shapes(variants)[i]
                == variants[i].kind.shape(),
{
}

/// The numbering of a list of positions, one by one.
pub proof fn lemma_fields_laid(fields: Seq<Node>, whole: Shape, base: nat)
    ensures
        fields_laid(fields, whole, base) == (forall|i: int|
            0 <= i < fields.len() ==> (#[trigger] fields[i]).laid(
                kid_base(whole, base, i as nat),
            )),
{
}

/// The numbering of a list of named positions, one by one.
pub proof fn lemma_named_laid(fields: Seq<(String, Node)>, whole: Shape, base: nat)
    ensures
        named_laid(fields, whole, base) == (forall|i: int|
            0 <= i < fields.len() ==> (#[trigger] fields[i]).1.laid(
                kid_base(whole, base, i as nat),
            )),
{
}

/// The numbering of a list of variants, one by one.
pub proof fn lemma_variants_laid(variants: Seq<Variant>, whole: Shape, base: nat)
    ensures
        variants_laid(variants, whole, base) == (forall|i: int|
            0 <= i < variants.len() ==> (#[trigger] variants[i]).kind.laid(
                kid_base(whole, base, i as nat),
            )),
{
}

} // verus!
