//! Positions in a layout: a node together with where its columns start.

use vstd::prelude::*;

use crate::layout::Layout;
use crate::node::{
    fields_laid, lemma_fields_laid, lemma_named_laid, lemma_named_node_shapes, lemma_node_shapes,
    named_laid, named_node_shapes, node_shapes, Node, Variant, VariantKind,
};
use crate::schema::labels;
use crate::shape::{kid_base, lemma_kid_columns, lemma_one_kid_columns, node, width_of, Kind, Shape};

verus! {

/// One value position of a layout.
#[derive(Clone, Copy)]
pub struct Spot<'s> {
    node: &'s Node,
    base: Ghost<nat>,
}

impl<'s> Spot<'s> {
    /// The position's node.
    pub closed spec fn at(&self) -> Node {
        *self.node
    }

    /// The position's schema.
    pub open spec fn shape(&self) -> Shape {
        self.at().shape()
    }

    /// Where the position's columns start.
    pub closed spec fn base(&self) -> nat {
        self.base@
    }

    /// The node is numbered from the base on.
    pub open spec fn well_formed(&self) -> bool {
        &&& self.at().laid(self.base())
        &&& self.shape().well_formed()
    }

    /// The position's columns are among the first `columns`.
    pub open spec fn fits(&self, columns: nat) -> bool {
        &&& self.well_formed()
        &&& self.base() + width_of(self.shape()) <= columns
    }

    /// The position of a node whose columns start at `base`.
    pub(crate) fn new(node: &'s Node, Ghost(base): Ghost<nat>) -> (result: Self)
        ensures
            result.at() == *node,
            result.base() == base,
    {
        Spot { node, base: Ghost(base) }
    }

    /// The node at this position.
    pub fn node(&self) -> (result: &'s Node)
        ensures
            *result == self.at(),
    {
        self.node
    }
}

impl Layout {
    /// The position of a whole row.
    pub fn spot(&self) -> (result: Spot<'_>)
        requires
            self.well_formed(),
        ensures
            result.shape() == self.root.shape(),
            result.base() == 0,
            result.fits(self.columns as nat),
    {
        Spot::new(&self.root, Ghost(0))
    }
}

/// The nodes of a product's fields, with or without the names that the writer
/// recorded.
#[derive(Clone, Copy)]
pub enum Fields<'s> {
    /// No fields.
    Empty,
    /// A single field without a name.
    One(&'s Node),
    /// Fields known by their positions.
    Plain(&'s Vec<Node>),
    /// Fields known by their names.
    Named(&'s Vec<(String, Node)>),
}

/// One product's fields, with where their columns start.
#[derive(Clone, Copy)]
pub struct FieldList<'s> {
    fields: Fields<'s>,
    whole: Ghost<Shape>,
    base: Ghost<nat>,
}

impl<'s> FieldList<'s> {
    /// The nodes.
    pub closed spec fn fields(&self) -> Fields<'s> {
        self.fields
    }

    /// The product that the fields belong to.
    pub closed spec fn shape(&self) -> Shape {
        self.whole@
    }

    /// Where the product's columns start.
    pub closed spec fn base(&self) -> nat {
        self.base@
    }

    /// Whether the writer recorded names.
    pub open spec fn named(&self) -> bool {
        self.fields() is Named
    }

    /// The nodes are the product's fields, numbered from the base on.
    pub open spec fn well_formed(&self) -> bool {
        &&& self.shape().well_formed()
        &&& match self.fields() {
            Fields::Empty => self.shape().kids.len() == 0,
            Fields::One(only) => {
                &&& self.shape().kids == seq![only.shape()]
                &&& only.laid(kid_base(self.shape(), self.base(), 0))
            },
            Fields::Plain(fields) => {
                &&& self.shape().kids == node_shapes(fields@)
                &&& fields_laid(fields@, self.shape(), self.base())
            },
            Fields::Named(fields) => {
                &&& self.shape().kids == named_node_shapes(fields@)
                &&& self.shape().labels == labels(fields@)
                &&& named_laid(fields@, self.shape(), self.base())
            },
        }
    }

    /// The fields' columns are among the first `columns`.
    pub open spec fn fits(&self, columns: nat) -> bool {
        &&& self.well_formed()
        &&& self.base() + width_of(self.shape()) <= columns
    }

    /// The fields of the product `whole`, whose columns start at `base`.
    pub(crate) fn new(
        fields: Fields<'s>,
        Ghost(whole): Ghost<Shape>,
        Ghost(base): Ghost<nat>,
    ) -> (result: Self)
        ensures
            result.fields() == fields,
            result.shape() == whole,
            result.base() == base,
    {
        FieldList { fields, whole: Ghost(whole), base: Ghost(base) }
    }

    /// Whether the writer recorded names.
    pub fn is_named(&self) -> (result: bool)
        ensures
            result == self.named(),
    {
        matches!(self.fields, Fields::Named(_))
    }

    /// The number of fields.
    pub fn len(&self) -> (result: usize)
        requires
            self.well_formed(),
        ensures
            result == self.shape().kids.len(),
    {
        match self.fields {
            Fields::Empty => 0,
            Fields::One(_) => 1,
            Fields::Plain(fields) => {
                proof {
                    lemma_node_shapes(fields@);
                }
                fields.len()
            },
            Fields::Named(fields) => {
                proof {
                    lemma_named_node_shapes(fields@);
                }
                fields.len()
            },
        }
    }

    /// The position of one field.
    pub fn get(&self, index: usize) -> (result: Option<Spot<'s>>)
        requires
            self.well_formed(),
        ensures
            match result {
                Some(spot) => {
                    &&& index < self.shape().kids.len()
                    &&& spot.shape() == self.shape().kids[index as int]
                    &&& spot.base() == kid_base(self.shape(), self.base(), index as nat)
                    &&& spot.well_formed()
                    &&& spot.base() + width_of(spot.shape()) <= self.base() + width_of(self.shape())
                },
                None => index >= self.shape().kids.len(),
            },
    {
        let ghost s = self.shape();
        if index >= self.len() {
            return None;
        }
        proof {
            lemma_kid_columns(s, index as nat);
            assert(s.kids[index as int].well_formed());
        }
        let ghost base = kid_base(s, self.base(), index as nat);
        match self.fields {
            Fields::Empty => None,
            Fields::One(only) => Some(Spot::new(only, Ghost(base))),
            Fields::Plain(fields) => {
                proof {
                    lemma_node_shapes(fields@);
                    lemma_fields_laid(fields@, s, self.base());
                }
                Some(Spot::new(&fields[index], Ghost(base)))
            },
            Fields::Named(fields) => {
                proof {
                    lemma_named_node_shapes(fields@);
                    lemma_named_laid(fields@, s, self.base());
                }
                Some(Spot::new(&fields[index].1, Ghost(base)))
            },
        }
    }

    /// The name of one field.
    pub fn name(&self, index: usize) -> (result: Option<&'s str>)
        requires
            self.well_formed(),
        ensures
            match result {
                Some(name) => {
                    &&& self.named()
                    &&& index < self.shape().labels.len()
                    &&& name@ == self.shape().labels[index as int]
                },
                None => !self.named() || index >= self.shape().labels.len(),
            },
    {
        match self.fields {
            Fields::Named(fields) => {
                if index < fields.len() {
                    Some(fields[index].0.as_str())
                } else {
                    None
                }
            },
            _ => None,
        }
    }
}

/// One variant of an enum, with where its payload's columns start.
#[derive(Clone, Copy)]
pub struct VariantSpot<'s> {
    variant: &'s Variant,
    base: Ghost<nat>,
}

impl<'s> VariantSpot<'s> {
    /// The variant.
    pub closed spec fn at(&self) -> Variant {
        *self.variant
    }

    /// The variant's schema.
    pub open spec fn shape(&self) -> Shape {
        self.at().kind.shape()
    }

    /// Where the payload's columns start.
    pub closed spec fn base(&self) -> nat {
        self.base@
    }

    /// The payload is numbered from the base on.
    pub open spec fn well_formed(&self) -> bool {
        &&& self.at().kind.laid(self.base())
        &&& self.shape().well_formed()
    }

    /// The payload's columns are among the first `columns`.
    pub open spec fn fits(&self, columns: nat) -> bool {
        &&& self.well_formed()
        &&& self.base() + width_of(self.shape()) <= columns
    }

    /// A variant whose payload's columns start at `base`.
    pub(crate) fn new(variant: &'s Variant, Ghost(base): Ghost<nat>) -> (result: Self)
        ensures
            result.at() == *variant,
            result.base() == base,
    {
        VariantSpot { variant, base: Ghost(base) }
    }

    /// The name that the writer gave the variant.
    pub fn name(&self) -> (result: &'s str)
        ensures
            result@ == self.at().name@,
    {
        self.variant.name.as_str()
    }

    /// The payload's columns.
    pub fn kind(&self) -> (result: &'s VariantKind)
        ensures
            *result == self.at().kind,
    {
        &self.variant.kind
    }

    /// The variant's payload as a list of fields, whatever shape the writer
    /// used. Every variant shape is a product of fields, so this is what lets
    /// a variant change shape between versions. A unit variant is the empty
    /// product.
    pub fn payload_fields(&self) -> (result: FieldList<'s>)
        requires
            self.well_formed(),
        ensures
            result.well_formed(),
            result.shape() == self.shape(),
            result.base() == self.base(),
            result.named() == (self.shape().kind == Kind::StructVariant),
    {
        let ghost s = self.shape();
        let ghost base = self.base();
        proof {
            self.at().kind.lemma_top(base);
        }
        match &self.variant.kind {
            VariantKind::Unit => FieldList::new(Fields::Empty, Ghost(s), Ghost(base)),
            VariantKind::Newtype(inner) => {
                proof {
                    lemma_one_kid_columns(s);
                }
                FieldList::new(Fields::One(inner), Ghost(s), Ghost(base))
            },
            VariantKind::Tuple(fields) => FieldList::new(
                Fields::Plain(fields),
                Ghost(s),
                Ghost(base),
            ),
            VariantKind::Struct(fields) => FieldList::new(
                Fields::Named(fields),
                Ghost(s),
                Ghost(base),
            ),
        }
    }
}

impl<'s> Spot<'s> {
    /// This value's fields, if the writer's shape is a product (a unit,
    /// newtype struct, tuple, tuple struct, or struct). Every product shape is
    /// a list of fields in declaration order, which is what lets one replace
    /// another between versions: a unit being the empty list, so a type that
    /// stored nothing can grow fields as long as they have defaults.
    pub fn product_fields(&self) -> (result: Option<FieldList<'s>>)
        requires
            self.well_formed(),
        ensures
            match result {
                Some(list) => {
                    &&& is_product(self.shape().kind)
                    &&& list.well_formed()
                    &&& list.shape() == self.shape()
                    &&& list.base() == self.base()
                    &&& list.named() == (self.shape().kind == Kind::Struct)
                },
                None => !is_product(self.shape().kind),
            },
    {
        let ghost s = self.shape();
        let ghost base = self.base();
        proof {
            self.at().lemma_top(base);
        }
        match self.node {
            Node::Unit { .. } => Some(FieldList::new(Fields::Empty, Ghost(s), Ghost(base))),
            Node::Newtype { inner, .. } => {
                proof {
                    lemma_one_kid_columns(s);
                }
                Some(FieldList::new(Fields::One(inner), Ghost(s), Ghost(base)))
            },
            Node::Tuple { fields, .. } => Some(
                FieldList::new(Fields::Plain(fields), Ghost(s), Ghost(base)),
            ),
            Node::Struct { fields, .. } => Some(
                FieldList::new(Fields::Named(fields), Ghost(s), Ghost(base)),
            ),
            _ => None,
        }
    }

    /// The value as the only field of a product.
    pub fn alone(&self) -> (result: FieldList<'s>)
        requires
            self.well_formed(),
        ensures
            result.well_formed(),
            result.shape() == wrapped(self.shape()),
            result.base() == self.base(),
            !result.named(),
    {
        let ghost s = wrapped(self.shape());
        proof {
            lemma_one_kid_columns(s);
            self.at().lemma_top(self.base());
            assert(s.kids[0] == self.shape());
        }
        FieldList::new(Fields::One(self.node), Ghost(s), Ghost(self.base()))
    }
}

/// The shapes that are products of fields.
pub open spec fn is_product(kind: Kind) -> bool {
    match kind {
        Kind::Unit
        | Kind::UnitStruct
        | Kind::NewtypeStruct
        | Kind::Tuple
        | Kind::TupleStruct
        | Kind::Struct => true,
        _ => false,
    }
}

/// A product of one field, which adds no columns to it.
pub open spec fn wrapped(s: Shape) -> Shape {
    node(Kind::NewtypeStruct, seq![], seq![s])
}

} // verus!
