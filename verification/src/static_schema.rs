//! Schemas known from the type alone: the [`StaticSchema`] trait and its std
//! impls.

use std::collections::{BTreeMap, BTreeSet, HashMap, HashSet, VecDeque};
use std::marker::PhantomData;
use std::rc::Rc;
use std::sync::Arc;

use vstd::prelude::*;

use crate::schema::{
    labels, named_shapes, shapes, variant_shapes, Primitive, Schema, SchemaNode, VariantNode,
};
use crate::shape::{
    columns_before, is_variant, leaf, lemma_one_kid_columns, lemma_two_kids_columns, node,
    primitive_width, width_of, Kind, Shape,
};

verus! {

/// The width in bytes of a value that is one fixed-width primitive.
pub open spec fn fixed(s: Shape) -> Option<usize> {
    match s.kind {
        Kind::Primitive(p) => Some(primitive_width(p) as usize),
        _ => None,
    }
}

/// Types whose schema is known from the type alone.
pub trait StaticSchema {
    /// The schema of every value of the type.
    spec fn node() -> Shape;

    /// The schema is that of a value.
    proof fn lemma_node()
        ensures
            Self::node().well_formed(),
            !is_variant(Self::node().kind),
    ;

    /// The schema of every value of the type.
    fn schema_node() -> (result: SchemaNode)
        ensures
            result@ == Self::node(),
    ;

    /// The number of columns of a value.
    fn columns() -> (result: usize)
        requires
            width_of(Self::node()) <= usize::MAX,
        ensures
            result == width_of(Self::node()),
    ;

    /// The width of a value that is one fixed-width primitive.
    fn fixed_width() -> (result: Option<usize>)
        ensures
            result == fixed(Self::node()),
    ;

    /// The typed schema.
    fn schema() -> (result: Schema<Self>)
        ensures
            result@ == Self::node(),
    {
        Schema::from_node(Self::schema_node())
    }
}

impl StaticSchema for bool {
    open spec fn node() -> Shape {
        leaf(Kind::Primitive(Primitive::Bool), seq![])
    }

    proof fn lemma_node() {
    }

    fn schema_node() -> SchemaNode {
        SchemaNode::Primitive(Primitive::Bool)
    }

    fn columns() -> usize {
        1
    }

    fn fixed_width() -> Option<usize> {
        Some(1)
    }
}

impl StaticSchema for i8 {
    open spec fn node() -> Shape {
        leaf(Kind::Primitive(Primitive::I8), seq![])
    }

    proof fn lemma_node() {
    }

    fn schema_node() -> SchemaNode {
        SchemaNode::Primitive(Primitive::I8)
    }

    fn columns() -> usize {
        1
    }

    fn fixed_width() -> Option<usize> {
        Some(1)
    }
}

impl StaticSchema for i16 {
    open spec fn node() -> Shape {
        leaf(Kind::Primitive(Primitive::I16), seq![])
    }

    proof fn lemma_node() {
    }

    fn schema_node() -> SchemaNode {
        SchemaNode::Primitive(Primitive::I16)
    }

    fn columns() -> usize {
        1
    }

    fn fixed_width() -> Option<usize> {
        Some(2)
    }
}

impl StaticSchema for i32 {
    open spec fn node() -> Shape {
        leaf(Kind::Primitive(Primitive::I32), seq![])
    }

    proof fn lemma_node() {
    }

    fn schema_node() -> SchemaNode {
        SchemaNode::Primitive(Primitive::I32)
    }

    fn columns() -> usize {
        1
    }

    fn fixed_width() -> Option<usize> {
        Some(4)
    }
}

impl StaticSchema for i64 {
    open spec fn node() -> Shape {
        leaf(Kind::Primitive(Primitive::I64), seq![])
    }

    proof fn lemma_node() {
    }

    fn schema_node() -> SchemaNode {
        SchemaNode::Primitive(Primitive::I64)
    }

    fn columns() -> usize {
        1
    }

    fn fixed_width() -> Option<usize> {
        Some(8)
    }
}

impl StaticSchema for i128 {
    open spec fn node() -> Shape {
        leaf(Kind::Primitive(Primitive::I128), seq![])
    }

    proof fn lemma_node() {
    }

    fn schema_node() -> SchemaNode {
        SchemaNode::Primitive(Primitive::I128)
    }

    fn columns() -> usize {
        1
    }

    fn fixed_width() -> Option<usize> {
        Some(16)
    }
}

impl StaticSchema for isize {
    open spec fn node() -> Shape {
        leaf(Kind::Primitive(Primitive::I64), seq![])
    }

    proof fn lemma_node() {
    }

    fn schema_node() -> SchemaNode {
        SchemaNode::Primitive(Primitive::I64)
    }

    fn columns() -> usize {
        1
    }

    fn fixed_width() -> Option<usize> {
        Some(8)
    }
}

impl StaticSchema for u8 {
    open spec fn node() -> Shape {
        leaf(Kind::Primitive(Primitive::U8), seq![])
    }

    proof fn lemma_node() {
    }

    fn schema_node() -> SchemaNode {
        SchemaNode::Primitive(Primitive::U8)
    }

    fn columns() -> usize {
        1
    }

    fn fixed_width() -> Option<usize> {
        Some(1)
    }
}

impl StaticSchema for u16 {
    open spec fn node() -> Shape {
        leaf(Kind::Primitive(Primitive::U16), seq![])
    }

    proof fn lemma_node() {
    }

    fn schema_node() -> SchemaNode {
        SchemaNode::Primitive(Primitive::U16)
    }

    fn columns() -> usize {
        1
    }

    fn fixed_width() -> Option<usize> {
        Some(2)
    }
}

impl StaticSchema for u32 {
    open spec fn node() -> Shape {
        leaf(Kind::Primitive(Primitive::U32), seq![])
    }

    proof fn lemma_node() {
    }

    fn schema_node() -> SchemaNode {
        SchemaNode::Primitive(Primitive::U32)
    }

    fn columns() -> usize {
        1
    }

    fn fixed_width() -> Option<usize> {
        Some(4)
    }
}

impl StaticSchema for u64 {
    open spec fn node() -> Shape {
        leaf(Kind::Primitive(Primitive::U64), seq![])
    }

    proof fn lemma_node() {
    }

    fn schema_node() -> SchemaNode {
        SchemaNode::Primitive(Primitive::U64)
    }

    fn columns() -> usize {
        1
    }

    fn fixed_width() -> Option<usize> {
        Some(8)
    }
}

impl StaticSchema for u128 {
    open spec fn node() -> Shape {
        leaf(Kind::Primitive(Primitive::U128), seq![])
    }

    proof fn lemma_node() {
    }

    fn schema_node() -> SchemaNode {
        SchemaNode::Primitive(Primitive::U128)
    }

    fn columns() -> usize {
        1
    }

    fn fixed_width() -> Option<usize> {
        Some(16)
    }
}

impl StaticSchema for usize {
    open spec fn node() -> Shape {
        leaf(Kind::Primitive(Primitive::U64), seq![])
    }

    proof fn lemma_node() {
    }

    fn schema_node() -> SchemaNode {
        SchemaNode::Primitive(Primitive::U64)
    }

    fn columns() -> usize {
        1
    }

    fn fixed_width() -> Option<usize> {
        Some(8)
    }
}

impl StaticSchema for char {
    open spec fn node() -> Shape {
        leaf(Kind::Primitive(Primitive::Char), seq![])
    }

    proof fn lemma_node() {
    }

    fn schema_node() -> SchemaNode {
        SchemaNode::Primitive(Primitive::Char)
    }

    fn columns() -> usize {
        1
    }

    fn fixed_width() -> Option<usize> {
        Some(4)
    }
}

impl StaticSchema for () {
    open spec fn node() -> Shape {
        leaf(Kind::Unit, seq![])
    }

    proof fn lemma_node() {
    }

    fn schema_node() -> SchemaNode {
        SchemaNode::Unit
    }

    fn columns() -> usize {
        0
    }

    fn fixed_width() -> Option<usize> {
        None
    }
}

impl StaticSchema for String {
    open spec fn node() -> Shape {
        leaf(Kind::String, seq![])
    }

    proof fn lemma_node() {
    }

    fn schema_node() -> SchemaNode {
        SchemaNode::String
    }

    fn columns() -> usize {
        2
    }

    fn fixed_width() -> Option<usize> {
        None
    }
}

impl StaticSchema for str {
    open spec fn node() -> Shape {
        leaf(Kind::String, seq![])
    }

    proof fn lemma_node() {
    }

    fn schema_node() -> SchemaNode {
        SchemaNode::String
    }

    fn columns() -> usize {
        2
    }

    fn fixed_width() -> Option<usize> {
        None
    }
}

impl<T: StaticSchema> StaticSchema for Option<T> {
    open spec fn node() -> Shape {
        node(Kind::Option, seq![], seq![T::node()])
    }

    proof fn lemma_node() {
        T::lemma_node();
    }

    fn schema_node() -> SchemaNode {
        SchemaNode::Option(Box::new(T::schema_node()))
    }

    fn columns() -> usize {
        proof {
            lemma_one_kid_columns(Self::node());
        }
        1 + T::columns()
    }

    fn fixed_width() -> Option<usize> {
        None
    }
}

impl<T: StaticSchema> StaticSchema for [T] {
    open spec fn node() -> Shape {
        node(Kind::Sequence, seq![], seq![T::node()])
    }

    proof fn lemma_node() {
        T::lemma_node();
    }

    fn schema_node() -> SchemaNode {
        SchemaNode::Sequence(Box::new(T::schema_node()))
    }

    fn columns() -> usize {
        proof {
            lemma_one_kid_columns(Self::node());
        }
        1 + T::columns()
    }

    fn fixed_width() -> Option<usize> {
        None
    }
}

impl<T: StaticSchema> StaticSchema for Vec<T> {
    open spec fn node() -> Shape {
        node(Kind::Sequence, seq![], seq![T::node()])
    }

    proof fn lemma_node() {
        T::lemma_node();
    }

    fn schema_node() -> SchemaNode {
        SchemaNode::Sequence(Box::new(T::schema_node()))
    }

    fn columns() -> usize {
        proof {
            lemma_one_kid_columns(Self::node());
        }
        1 + T::columns()
    }

    fn fixed_width() -> Option<usize> {
        None
    }
}

impl<T: StaticSchema> StaticSchema for VecDeque<T> {
    open spec fn node() -> Shape {
        node(Kind::Sequence, seq![], seq![T::node()])
    }

    proof fn lemma_node() {
        T::lemma_node();
    }

    fn schema_node() -> SchemaNode {
        SchemaNode::Sequence(Box::new(T::schema_node()))
    }

    fn columns() -> usize {
        proof {
            lemma_one_kid_columns(Self::node());
        }
        1 + T::columns()
    }

    fn fixed_width() -> Option<usize> {
        None
    }
}

impl<T: StaticSchema> StaticSchema for BTreeSet<T> {
    open spec fn node() -> Shape {
        node(Kind::Sequence, seq![], seq![T::node()])
    }

    proof fn lemma_node() {
        T::lemma_node();
    }

    fn schema_node() -> SchemaNode {
        SchemaNode::Sequence(Box::new(T::schema_node()))
    }

    fn columns() -> usize {
        proof {
            lemma_one_kid_columns(Self::node());
        }
        1 + T::columns()
    }

    fn fixed_width() -> Option<usize> {
        None
    }
}

impl<T: StaticSchema, S> StaticSchema for HashSet<T, S> {
    open spec fn node() -> Shape {
        node(Kind::Sequence, seq![], seq![T::node()])
    }

    proof fn lemma_node() {
        T::lemma_node();
    }

    fn schema_node() -> SchemaNode {
        SchemaNode::Sequence(Box::new(T::schema_node()))
    }

    fn columns() -> usize {
        proof {
            lemma_one_kid_columns(Self::node());
        }
        1 + T::columns()
    }

    fn fixed_width() -> Option<usize> {
        None
    }
}

impl<K: StaticSchema, V: StaticSchema, S> StaticSchema for HashMap<K, V, S> {
    open spec fn node() -> Shape {
        node(Kind::Mapping, seq![], seq![K::node(), V::node()])
    }

    proof fn lemma_node() {
        K::lemma_node();
        V::lemma_node();
    }

    fn schema_node() -> SchemaNode {
        SchemaNode::Mapping { key: Box::new(K::schema_node()), value: Box::new(V::schema_node()) }
    }

    fn columns() -> usize {
        proof {
            lemma_two_kids_columns(Self::node());
        }
        1 + K::columns() + V::columns()
    }

    fn fixed_width() -> Option<usize> {
        None
    }
}

impl<K: StaticSchema, V: StaticSchema> StaticSchema for BTreeMap<K, V> {
    open spec fn node() -> Shape {
        node(Kind::Mapping, seq![], seq![K::node(), V::node()])
    }

    proof fn lemma_node() {
        K::lemma_node();
        V::lemma_node();
    }

    fn schema_node() -> SchemaNode {
        SchemaNode::Mapping { key: Box::new(K::schema_node()), value: Box::new(V::schema_node()) }
    }

    fn columns() -> usize {
        proof {
            lemma_two_kids_columns(Self::node());
        }
        1 + K::columns() + V::columns()
    }

    fn fixed_width() -> Option<usize> {
        None
    }
}

impl<T: StaticSchema + ?Sized> StaticSchema for &T {
    open spec fn node() -> Shape {
        T::node()
    }

    proof fn lemma_node() {
        T::lemma_node();
    }

    fn schema_node() -> SchemaNode {
        T::schema_node()
    }

    fn columns() -> usize {
        T::columns()
    }

    fn fixed_width() -> Option<usize> {
        T::fixed_width()
    }
}

impl<T: StaticSchema + ?Sized> StaticSchema for &mut T {
    open spec fn node() -> Shape {
        T::node()
    }

    proof fn lemma_node() {
        T::lemma_node();
    }

    fn schema_node() -> SchemaNode {
        T::schema_node()
    }

    fn columns() -> usize {
        T::columns()
    }

    fn fixed_width() -> Option<usize> {
        T::fixed_width()
    }
}

impl<T: StaticSchema + ?Sized> StaticSchema for Box<T> {
    open spec fn node() -> Shape {
        T::node()
    }

    proof fn lemma_node() {
        T::lemma_node();
    }

    fn schema_node() -> SchemaNode {
        T::schema_node()
    }

    fn columns() -> usize {
        T::columns()
    }

    fn fixed_width() -> Option<usize> {
        T::fixed_width()
    }
}

impl<T: StaticSchema + ?Sized> StaticSchema for Rc<T> {
    open spec fn node() -> Shape {
        T::node()
    }

    proof fn lemma_node() {
        T::lemma_node();
    }

    fn schema_node() -> SchemaNode {
        T::schema_node()
    }

    fn columns() -> usize {
        T::columns()
    }

    fn fixed_width() -> Option<usize> {
        T::fixed_width()
    }
}

impl<T: StaticSchema + ?Sized> StaticSchema for Arc<T> {
    open spec fn node() -> Shape {
        T::node()
    }

    proof fn lemma_node() {
        T::lemma_node();
    }

    fn schema_node() -> SchemaNode {
        T::schema_node()
    }

    fn columns() -> usize {
        T::columns()
    }

    fn fixed_width() -> Option<usize> {
        T::fixed_width()
    }
}

impl<T: ?Sized> StaticSchema for PhantomData<T> {
    open spec fn node() -> Shape {
        leaf(Kind::UnitStruct, "PhantomData"@)
    }

    proof fn lemma_node() {
    }

    fn schema_node() -> SchemaNode {
        SchemaNode::UnitStruct { name: "PhantomData".to_owned() }
    }

    fn columns() -> usize {
        0
    }

    fn fixed_width() -> Option<usize> {
        None
    }
}

impl<T0: StaticSchema> StaticSchema for (T0,) {
    open spec fn node() -> Shape {
        node(
            Kind::Tuple,
            seq![],
            seq![T0::node()],
        )
    }

    proof fn lemma_node() {
        T0::lemma_node();
    }

    fn schema_node() -> SchemaNode {
        let mut fields: Vec<SchemaNode> = Vec::new();
        fields.push(T0::schema_node());
        assert(shapes(fields@) =~= Self::node().kids);
        SchemaNode::Tuple(fields)
    }

    fn columns() -> usize {
        proof {
            let s = Self::node();
            assert(columns_before(s, 1) == columns_before(s, 0) + width_of(T0::node()));
        }
        T0::columns()
    }

    fn fixed_width() -> Option<usize> {
        None
    }
}

impl<T0: StaticSchema, T1: StaticSchema> StaticSchema for (T0, T1) {
    open spec fn node() -> Shape {
        node(
            Kind::Tuple,
            seq![],
            seq![T0::node(), T1::node()],
        )
    }

    proof fn lemma_node() {
        T0::lemma_node();
        T1::lemma_node();
    }

    fn schema_node() -> SchemaNode {
        let mut fields: Vec<SchemaNode> = Vec::new();
        fields.push(T0::schema_node());
        fields.push(T1::schema_node());
        assert(shapes(fields@) =~= Self::node().kids);
        SchemaNode::Tuple(fields)
    }

    fn columns() -> usize {
        proof {
            let s = Self::node();
            assert(columns_before(s, 1) == columns_before(s, 0) + width_of(T0::node()));
            assert(columns_before(s, 2) == columns_before(s, 1) + width_of(T1::node()));
        }
        T0::columns() + T1::columns()
    }

    fn fixed_width() -> Option<usize> {
        None
    }
}

impl<T0: StaticSchema, T1: StaticSchema, T2: StaticSchema> StaticSchema for (T0, T1, T2) {
    open spec fn node() -> Shape {
        node(
            Kind::Tuple,
            seq![],
            seq![T0::node(), T1::node(), T2::node()],
        )
    }

    proof fn lemma_node() {
        T0::lemma_node();
        T1::lemma_node();
        T2::lemma_node();
    }

    fn schema_node() -> SchemaNode {
        let mut fields: Vec<SchemaNode> = Vec::new();
        fields.push(T0::schema_node());
        fields.push(T1::schema_node());
        fields.push(T2::schema_node());
        assert(shapes(fields@) =~= Self::node().kids);
        SchemaNode::Tuple(fields)
    }

    fn columns() -> usize {
        proof {
            let s = Self::node();
            assert(columns_before(s, 1) == columns_before(s, 0) + width_of(T0::node()));
            assert(columns_before(s, 2) == columns_before(s, 1) + width_of(T1::node()));
            assert(columns_before(s, 3) == columns_before(s, 2) + width_of(T2::node()));
        }
        T0::columns() + T1::columns() + T2::columns()
    }

    fn fixed_width() -> Option<usize> {
        None
    }
}

impl<T0: StaticSchema, T1: StaticSchema, T2: StaticSchema, T3: StaticSchema> StaticSchema for (T0, T1, T2, T3) {
    open spec fn node() -> Shape {
        node(
            Kind::Tuple,
            seq![],
            seq![T0::node(), T1::node(), T2::node(), T3::node()],
        )
    }

    proof fn lemma_node() {
        T0::lemma_node();
        T1::lemma_node();
        T2::lemma_node();
        T3::lemma_node();
    }

    fn schema_node() -> SchemaNode {
        let mut fields: Vec<SchemaNode> = Vec::new();
        fields.push(T0::schema_node());
        fields.push(T1::schema_node());
        fields.push(T2::schema_node());
        fields.push(T3::schema_node());
        assert(shapes(fields@) =~= Self::node().kids);
        SchemaNode::Tuple(fields)
    }

    fn columns() -> usize {
        proof {
            let s = Self::node();
            assert(columns_before(s, 1) == columns_before(s, 0) + width_of(T0::node()));
            assert(columns_before(s, 2) == columns_before(s, 1) + width_of(T1::node()));
            assert(columns_before(s, 3) == columns_before(s, 2) + width_of(T2::node()));
            assert(columns_before(s, 4) == columns_before(s, 3) + width_of(T3::node()));
        }
        T0::columns() + T1::columns() + T2::columns() + T3::columns()
    }

    fn fixed_width() -> Option<usize> {
        None
    }
}

impl<T0: StaticSchema, T1: StaticSchema, T2: StaticSchema, T3: StaticSchema, T4: StaticSchema> StaticSchema for (T0, T1, T2, T3, T4) {
    open spec fn node() -> Shape {
        node(
            Kind::Tuple,
            seq![],
            seq![T0::node(), T1::node(), T2::node(), T3::node(), T4::node()],
        )
    }

    proof fn lemma_node() {
        T0::lemma_node();
        T1::lemma_node();
        T2::lemma_node();
        T3::lemma_node();
        T4::lemma_node();
    }

    fn schema_node() -> SchemaNode {
        let mut fields: Vec<SchemaNode> = Vec::new();
        fields.push(T0::schema_node());
        fields.push(T1::schema_node());
        fields.push(T2::schema_node());
        fields.push(T3::schema_node());
        fields.push(T4::schema_node());
        assert(shapes(fields@) =~= Self::node().kids);
        SchemaNode::Tuple(fields)
    }

    fn columns() -> usize {
        proof {
            let s = Self::node();
            assert(columns_before(s, 1) == columns_before(s, 0) + width_of(T0::node()));
            assert(columns_before(s, 2) == columns_before(s, 1) + width_of(T1::node()));
            assert(columns_before(s, 3) == columns_before(s, 2) + width_of(T2::node()));
            assert(columns_before(s, 4) == columns_before(s, 3) + width_of(T3::node()));
            assert(columns_before(s, 5) == columns_before(s, 4) + width_of(T4::node()));
        }
        T0::columns() + T1::columns() + T2::columns() + T3::columns() + T4::columns()
    }

    fn fixed_width() -> Option<usize> {
        None
    }
}

impl<T0: StaticSchema, T1: StaticSchema, T2: StaticSchema, T3: StaticSchema, T4: StaticSchema, T5: StaticSchema> StaticSchema for (T0, T1, T2, T3, T4, T5) {
    open spec fn node() -> Shape {
        node(
            Kind::Tuple,
            seq![],
            seq![T0::node(), T1::node(), T2::node(), T3::node(), T4::node(), T5::node()],
        )
    }

    proof fn lemma_node() {
        T0::lemma_node();
        T1::lemma_node();
        T2::lemma_node();
        T3::lemma_node();
        T4::lemma_node();
        T5::lemma_node();
    }

    fn schema_node() -> SchemaNode {
        let mut fields: Vec<SchemaNode> = Vec::new();
        fields.push(T0::schema_node());
        fields.push(T1::schema_node());
        fields.push(T2::schema_node());
        fields.push(T3::schema_node());
        fields.push(T4::schema_node());
        fields.push(T5::schema_node());
        assert(shapes(fields@) =~= Self::node().kids);
        SchemaNode::Tuple(fields)
    }

    fn columns() -> usize {
        proof {
            let s = Self::node();
            assert(columns_before(s, 1) == columns_before(s, 0) + width_of(T0::node()));
            assert(columns_before(s, 2) == columns_before(s, 1) + width_of(T1::node()));
            assert(columns_before(s, 3) == columns_before(s, 2) + width_of(T2::node()));
            assert(columns_before(s, 4) == columns_before(s, 3) + width_of(T3::node()));
            assert(columns_before(s, 5) == columns_before(s, 4) + width_of(T4::node()));
            assert(columns_before(s, 6) == columns_before(s, 5) + width_of(T5::node()));
        }
        T0::columns() + T1::columns() + T2::columns() + T3::columns() + T4::columns() + T5::columns()
    }

    fn fixed_width() -> Option<usize> {
        None
    }
}

impl<T0: StaticSchema, T1: StaticSchema, T2: StaticSchema, T3: StaticSchema, T4: StaticSchema, T5: StaticSchema, T6: StaticSchema> StaticSchema for (T0, T1, T2, T3, T4, T5, T6) {
    open spec fn node() -> Shape {
        node(
            Kind::Tuple,
            seq![],
            seq![T0::node(), T1::node(), T2::node(), T3::node(), T4::node(), T5::node(), T6::node()],
        )
    }

    proof fn lemma_node() {
        T0::lemma_node();
        T1::lemma_node();
        T2::lemma_node();
        T3::lemma_node();
        T4::lemma_node();
        T5::lemma_node();
        T6::lemma_node();
    }

    fn schema_node() -> SchemaNode {
        let mut fields: Vec<SchemaNode> = Vec::new();
        fields.push(T0::schema_node());
        fields.push(T1::schema_node());
        fields.push(T2::schema_node());
        fields.push(T3::schema_node());
        fields.push(T4::schema_node());
        fields.push(T5::schema_node());
        fields.push(T6::schema_node());
        assert(shapes(fields@) =~= Self::node().kids);
        SchemaNode::Tuple(fields)
    }

    fn columns() -> usize {
        proof {
            let s = Self::node();
            assert(columns_before(s, 1) == columns_before(s, 0) + width_of(T0::node()));
            assert(columns_before(s, 2) == columns_before(s, 1) + width_of(T1::node()));
            assert(columns_before(s, 3) == columns_before(s, 2) + width_of(T2::node()));
            assert(columns_before(s, 4) == columns_before(s, 3) + width_of(T3::node()));
            assert(columns_before(s, 5) == columns_before(s, 4) + width_of(T4::node()));
            assert(columns_before(s, 6) == columns_before(s, 5) + width_of(T5::node()));
            assert(columns_before(s, 7) == columns_before(s, 6) + width_of(T6::node()));
        }
        T0::columns() + T1::columns() + T2::columns() + T3::columns() + T4::columns() + T5::columns() + T6::columns()
    }

    fn fixed_width() -> Option<usize> {
        None
    }
}

impl<T0: StaticSchema, T1: StaticSchema, T2: StaticSchema, T3: StaticSchema, T4: StaticSchema, T5: StaticSchema, T6: StaticSchema, T7: StaticSchema> StaticSchema for (T0, T1, T2, T3, T4, T5, T6, T7) {
    open spec fn node() -> Shape {
        node(
            Kind::Tuple,
            seq![],
            seq![T0::node(), T1::node(), T2::node(), T3::node(), T4::node(), T5::node(), T6::node(), T7::node()],
        )
    }

    proof fn lemma_node() {
        T0::lemma_node();
        T1::lemma_node();
        T2::lemma_node();
        T3::lemma_node();
        T4::lemma_node();
        T5::lemma_node();
        T6::lemma_node();
        T7::lemma_node();
    }

    fn schema_node() -> SchemaNode {
        let mut fields: Vec<SchemaNode> = Vec::new();
        fields.push(T0::schema_node());
        fields.push(T1::schema_node());
        fields.push(T2::schema_node());
        fields.push(T3::schema_node());
        fields.push(T4::schema_node());
        fields.push(T5::schema_node());
        fields.push(T6::schema_node());
        fields.push(T7::schema_node());
        assert(shapes(fields@) =~= Self::node().kids);
        SchemaNode::Tuple(fields)
    }

    fn columns() -> usize {
        proof {
            let s = Self::node();
            assert(columns_before(s, 1) == columns_before(s, 0) + width_of(T0::node()));
            assert(columns_before(s, 2) == columns_before(s, 1) + width_of(T1::node()));
            assert(columns_before(s, 3) == columns_before(s, 2) + width_of(T2::node()));
            assert(columns_before(s, 4) == columns_before(s, 3) + width_of(T3::node()));
            assert(columns_before(s, 5) == columns_before(s, 4) + width_of(T4::node()));
            assert(columns_before(s, 6) == columns_before(s, 5) + width_of(T5::node()));
            assert(columns_before(s, 7) == columns_before(s, 6) + width_of(T6::node()));
            assert(columns_before(s, 8) == columns_before(s, 7) + width_of(T7::node()));
        }
        T0::columns() + T1::columns() + T2::columns() + T3::columns() + T4::columns() + T5::columns() + T6::columns() + T7::columns()
    }

    fn fixed_width() -> Option<usize> {
        None
    }
}

impl<T0: StaticSchema, T1: StaticSchema, T2: StaticSchema, T3: StaticSchema, T4: StaticSchema, T5: StaticSchema, T6: StaticSchema, T7: StaticSchema, T8: StaticSchema> StaticSchema for (T0, T1, T2, T3, T4, T5, T6, T7, T8) {
    open spec fn node() -> Shape {
        node(
            Kind::Tuple,
            seq![],
            seq![T0::node(), T1::node(), T2::node(), T3::node(), T4::node(), T5::node(), T6::node(), T7::node(), T8::node()],
        )
    }

    proof fn lemma_node() {
        T0::lemma_node();
        T1::lemma_node();
        T2::lemma_node();
        T3::lemma_node();
        T4::lemma_node();
        T5::lemma_node();
        T6::lemma_node();
        T7::lemma_node();
        T8::lemma_node();
    }

    fn schema_node() -> SchemaNode {
        let mut fields: Vec<SchemaNode> = Vec::new();
        fields.push(T0::schema_node());
        fields.push(T1::schema_node());
        fields.push(T2::schema_node());
        fields.push(T3::schema_node());
        fields.push(T4::schema_node());
        fields.push(T5::schema_node());
        fields.push(T6::schema_node());
        fields.push(T7::schema_node());
        fields.push(T8::schema_node());
        assert(shapes(fields@) =~= Self::node().kids);
        SchemaNode::Tuple(fields)
    }

    fn columns() -> usize {
        proof {
            let s = Self::node();
            assert(columns_before(s, 1) == columns_before(s, 0) + width_of(T0::node()));
            assert(columns_before(s, 2) == columns_before(s, 1) + width_of(T1::node()));
            assert(columns_before(s, 3) == columns_before(s, 2) + width_of(T2::node()));
            assert(columns_before(s, 4) == columns_before(s, 3) + width_of(T3::node()));
            assert(columns_before(s, 5) == columns_before(s, 4) + width_of(T4::node()));
            assert(columns_before(s, 6) == columns_before(s, 5) + width_of(T5::node()));
            assert(columns_before(s, 7) == columns_before(s, 6) + width_of(T6::node()));
            assert(columns_before(s, 8) == columns_before(s, 7) + width_of(T7::node()));
            assert(columns_before(s, 9) == columns_before(s, 8) + width_of(T8::node()));
        }
        T0::columns() + T1::columns() + T2::columns() + T3::columns() + T4::columns() + T5::columns() + T6::columns() + T7::columns() + T8::columns()
    }

    fn fixed_width() -> Option<usize> {
        None
    }
}

impl<T0: StaticSchema, T1: StaticSchema, T2: StaticSchema, T3: StaticSchema, T4: StaticSchema, T5: StaticSchema, T6: StaticSchema, T7: StaticSchema, T8: StaticSchema, T9: StaticSchema> StaticSchema for (T0, T1, T2, T3, T4, T5, T6, T7, T8, T9) {
    open spec fn node() -> Shape {
        node(
            Kind::Tuple,
            seq![],
            seq![T0::node(), T1::node(), T2::node(), T3::node(), T4::node(), T5::node(), T6::node(), T7::node(), T8::node(), T9::node()],
        )
    }

    proof fn lemma_node() {
        T0::lemma_node();
        T1::lemma_node();
        T2::lemma_node();
        T3::lemma_node();
        T4::lemma_node();
        T5::lemma_node();
        T6::lemma_node();
        T7::lemma_node();
        T8::lemma_node();
        T9::lemma_node();
    }

    fn schema_node() -> SchemaNode {
        let mut fields: Vec<SchemaNode> = Vec::new();
        fields.push(T0::schema_node());
        fields.push(T1::schema_node());
        fields.push(T2::schema_node());
        fields.push(T3::schema_node());
        fields.push(T4::schema_node());
        fields.push(T5::schema_node());
        fields.push(T6::schema_node());
        fields.push(T7::schema_node());
        fields.push(T8::schema_node());
        fields.push(T9::schema_node());
        assert(shapes(fields@) =~= Self::node().kids);
        SchemaNode::Tuple(fields)
    }

    fn columns() -> usize {
        proof {
            let s = Self::node();
            assert(columns_before(s, 1) == columns_before(s, 0) + width_of(T0::node()));
            assert(columns_before(s, 2) == columns_before(s, 1) + width_of(T1::node()));
            assert(columns_before(s, 3) == columns_before(s, 2) + width_of(T2::node()));
            assert(columns_before(s, 4) == columns_before(s, 3) + width_of(T3::node()));
            assert(columns_before(s, 5) == columns_before(s, 4) + width_of(T4::node()));
            assert(columns_before(s, 6) == columns_before(s, 5) + width_of(T5::node()));
            assert(columns_before(s, 7) == columns_before(s, 6) + width_of(T6::node()));
            assert(columns_before(s, 8) == columns_before(s, 7) + width_of(T7::node()));
            assert(columns_before(s, 9) == columns_before(s, 8) + width_of(T8::node()));
            assert(columns_before(s, 10) == columns_before(s, 9) + width_of(T9::node()));
        }
        T0::columns() + T1::columns() + T2::columns() + T3::columns() + T4::columns() + T5::columns() + T6::columns() + T7::columns() + T8::columns() + T9::columns()
    }

    fn fixed_width() -> Option<usize> {
        None
    }
}

impl<T0: StaticSchema, T1: StaticSchema, T2: StaticSchema, T3: StaticSchema, T4: StaticSchema, T5: StaticSchema, T6: StaticSchema, T7: StaticSchema, T8: StaticSchema, T9: StaticSchema, T10: StaticSchema> StaticSchema for (T0, T1, T2, T3, T4, T5, T6, T7, T8, T9, T10) {
    open spec fn node() -> Shape {
        node(
            Kind::Tuple,
            seq![],
            seq![T0::node(), T1::node(), T2::node(), T3::node(), T4::node(), T5::node(), T6::node(), T7::node(), T8::node(), T9::node(), T10::node()],
        )
    }

    proof fn lemma_node() {
        T0::lemma_node();
        T1::lemma_node();
        T2::lemma_node();
        T3::lemma_node();
        T4::lemma_node();
        T5::lemma_node();
        T6::lemma_node();
        T7::lemma_node();
        T8::lemma_node();
        T9::lemma_node();
        T10::lemma_node();
    }

    fn schema_node() -> SchemaNode {
        let mut fields: Vec<SchemaNode> = Vec::new();
        fields.push(T0::schema_node());
        fields.push(T1::schema_node());
        fields.push(T2::schema_node());
        fields.push(T3::schema_node());
        fields.push(T4::schema_node());
        fields.push(T5::schema_node());
        fields.push(T6::schema_node());
        fields.push(T7::schema_node());
        fields.push(T8::schema_node());
        fields.push(T9::schema_node());
        fields.push(T10::schema_node());
        assert(shapes(fields@) =~= Self::node().kids);
        SchemaNode::Tuple(fields)
    }

    fn columns() -> usize {
        proof {
            let s = Self::node();
            assert(columns_before(s, 1) == columns_before(s, 0) + width_of(T0::node()));
            assert(columns_before(s, 2) == columns_before(s, 1) + width_of(T1::node()));
            assert(columns_before(s, 3) == columns_before(s, 2) + width_of(T2::node()));
            assert(columns_before(s, 4) == columns_before(s, 3) + width_of(T3::node()));
            assert(columns_before(s, 5) == columns_before(s, 4) + width_of(T4::node()));
            assert(columns_before(s, 6) == columns_before(s, 5) + width_of(T5::node()));
            assert(columns_before(s, 7) == columns_before(s, 6) + width_of(T6::node()));
            assert(columns_before(s, 8) == columns_before(s, 7) + width_of(T7::node()));
            assert(columns_before(s, 9) == columns_before(s, 8) + width_of(T8::node()));
            assert(columns_before(s, 10) == columns_before(s, 9) + width_of(T9::node()));
            assert(columns_before(s, 11) == columns_before(s, 10) + width_of(T10::node()));
        }
        T0::columns() + T1::columns() + T2::columns() + T3::columns() + T4::columns() + T5::columns() + T6::columns() + T7::columns() + T8::columns() + T9::columns() + T10::columns()
    }

    fn fixed_width() -> Option<usize> {
        None
    }
}

impl<T0: StaticSchema, T1: StaticSchema, T2: StaticSchema, T3: StaticSchema, T4: StaticSchema, T5: StaticSchema, T6: StaticSchema, T7: StaticSchema, T8: StaticSchema, T9: StaticSchema, T10: StaticSchema, T11: StaticSchema> StaticSchema for (T0, T1, T2, T3, T4, T5, T6, T7, T8, T9, T10, T11) {
    open spec fn node() -> Shape {
        node(
            Kind::Tuple,
            seq![],
            seq![T0::node(), T1::node(), T2::node(), T3::node(), T4::node(), T5::node(), T6::node(), T7::node(), T8::node(), T9::node(), T10::node(), T11::node()],
        )
    }

    proof fn lemma_node() {
        T0::lemma_node();
        T1::lemma_node();
        T2::lemma_node();
        T3::lemma_node();
        T4::lemma_node();
        T5::lemma_node();
        T6::lemma_node();
        T7::lemma_node();
        T8::lemma_node();
        T9::lemma_node();
        T10::lemma_node();
        T11::lemma_node();
    }

    fn schema_node() -> SchemaNode {
        let mut fields: Vec<SchemaNode> = Vec::new();
        fields.push(T0::schema_node());
        fields.push(T1::schema_node());
        fields.push(T2::schema_node());
        fields.push(T3::schema_node());
        fields.push(T4::schema_node());
        fields.push(T5::schema_node());
        fields.push(T6::schema_node());
        fields.push(T7::schema_node());
        fields.push(T8::schema_node());
        fields.push(T9::schema_node());
        fields.push(T10::schema_node());
        fields.push(T11::schema_node());
        assert(shapes(fields@) =~= Self::node().kids);
        SchemaNode::Tuple(fields)
    }

    fn columns() -> usize {
        proof {
            let s = Self::node();
            assert(columns_before(s, 1) == columns_before(s, 0) + width_of(T0::node()));
            assert(columns_before(s, 2) == columns_before(s, 1) + width_of(T1::node()));
            assert(columns_before(s, 3) == columns_before(s, 2) + width_of(T2::node()));
            assert(columns_before(s, 4) == columns_before(s, 3) + width_of(T3::node()));
            assert(columns_before(s, 5) == columns_before(s, 4) + width_of(T4::node()));
            assert(columns_before(s, 6) == columns_before(s, 5) + width_of(T5::node()));
            assert(columns_before(s, 7) == columns_before(s, 6) + width_of(T6::node()));
            assert(columns_before(s, 8) == columns_before(s, 7) + width_of(T7::node()));
            assert(columns_before(s, 9) == columns_before(s, 8) + width_of(T8::node()));
            assert(columns_before(s, 10) == columns_before(s, 9) + width_of(T9::node()));
            assert(columns_before(s, 11) == columns_before(s, 10) + width_of(T10::node()));
            assert(columns_before(s, 12) == columns_before(s, 11) + width_of(T11::node()));
        }
        T0::columns() + T1::columns() + T2::columns() + T3::columns() + T4::columns() + T5::columns() + T6::columns() + T7::columns() + T8::columns() + T9::columns() + T10::columns() + T11::columns()
    }

    fn fixed_width() -> Option<usize> {
        None
    }
}

impl<
    T0: StaticSchema,
    T1: StaticSchema,
    T2: StaticSchema,
    T3: StaticSchema,
    T4: StaticSchema,
    T5: StaticSchema,
    T6: StaticSchema,
    T7: StaticSchema,
    T8: StaticSchema,
    T9: StaticSchema,
    T10: StaticSchema,
    T11: StaticSchema,
    T12: StaticSchema,
> StaticSchema for (T0, T1, T2, T3, T4, T5, T6, T7, T8, T9, T10, T11, T12) {
    open spec fn node() -> Shape {
        node(
            Kind::Tuple,
            seq![],
            seq![
                T0::node(),
                T1::node(),
                T2::node(),
                T3::node(),
                T4::node(),
                T5::node(),
                T6::node(),
                T7::node(),
                T8::node(),
                T9::node(),
                T10::node(),
                T11::node(),
                T12::node(),
            ],
        )
    }

    proof fn lemma_node() {
        T0::lemma_node();
        T1::lemma_node();
        T2::lemma_node();
        T3::lemma_node();
        T4::lemma_node();
        T5::lemma_node();
        T6::lemma_node();
        T7::lemma_node();
        T8::lemma_node();
        T9::lemma_node();
        T10::lemma_node();
        T11::lemma_node();
        T12::lemma_node();
    }

    fn schema_node() -> SchemaNode {
        let mut fields: Vec<SchemaNode> = Vec::new();
        fields.push(T0::schema_node());
        fields.push(T1::schema_node());
        fields.push(T2::schema_node());
        fields.push(T3::schema_node());
        fields.push(T4::schema_node());
        fields.push(T5::schema_node());
        fields.push(T6::schema_node());
        fields.push(T7::schema_node());
        fields.push(T8::schema_node());
        fields.push(T9::schema_node());
        fields.push(T10::schema_node());
        fields.push(T11::schema_node());
        fields.push(T12::schema_node());
        assert(shapes(fields@) =~= Self::node().kids);
        SchemaNode::Tuple(fields)
    }

    fn columns() -> usize {
        proof {
            let s = Self::node();
            assert(columns_before(s, 1) == columns_before(s, 0) + width_of(T0::node()));
            assert(columns_before(s, 2) == columns_before(s, 1) + width_of(T1::node()));
            assert(columns_before(s, 3) == columns_before(s, 2) + width_of(T2::node()));
            assert(columns_before(s, 4) == columns_before(s, 3) + width_of(T3::node()));
            assert(columns_before(s, 5) == columns_before(s, 4) + width_of(T4::node()));
            assert(columns_before(s, 6) == columns_before(s, 5) + width_of(T5::node()));
            assert(columns_before(s, 7) == columns_before(s, 6) + width_of(T6::node()));
            assert(columns_before(s, 8) == columns_before(s, 7) + width_of(T7::node()));
            assert(columns_before(s, 9) == columns_before(s, 8) + width_of(T8::node()));
            assert(columns_before(s, 10) == columns_before(s, 9) + width_of(T9::node()));
            assert(columns_before(s, 11) == columns_before(s, 10) + width_of(T10::node()));
            assert(columns_before(s, 12) == columns_before(s, 11) + width_of(T11::node()));
            assert(columns_before(s, 13) == columns_before(s, 12) + width_of(T12::node()));
        }
        T0::columns() + T1::columns() + T2::columns() + T3::columns() + T4::columns() + T5::columns() + T6::columns() + T7::columns() + T8::columns() + T9::columns() + T10::columns() + T11::columns() + T12::columns()
    }

    fn fixed_width() -> Option<usize> {
        None
    }
}

impl<
    T0: StaticSchema,
    T1: StaticSchema,
    T2: StaticSchema,
    T3: StaticSchema,
    T4: StaticSchema,
    T5: StaticSchema,
    T6: StaticSchema,
    T7: StaticSchema,
    T8: StaticSchema,
    T9: StaticSchema,
    T10: StaticSchema,
    T11: StaticSchema,
    T12: StaticSchema,
    T13: StaticSchema,
> StaticSchema for (T0, T1, T2, T3, T4, T5, T6, T7, T8, T9, T10, T11, T12, T13) {
    open spec fn node() -> Shape {
        node(
            Kind::Tuple,
            seq![],
            seq![
                T0::node(),
                T1::node(),
                T2::node(),
                T3::node(),
                T4::node(),
                T5::node(),
                T6::node(),
                T7::node(),
                T8::node(),
                T9::node(),
                T10::node(),
                T11::node(),
                T12::node(),
                T13::node(),
            ],
        )
    }

    proof fn lemma_node() {
        T0::lemma_node();
        T1::lemma_node();
        T2::lemma_node();
        T3::lemma_node();
        T4::lemma_node();
        T5::lemma_node();
        T6::lemma_node();
        T7::lemma_node();
        T8::lemma_node();
        T9::lemma_node();
        T10::lemma_node();
        T11::lemma_node();
        T12::lemma_node();
        T13::lemma_node();
    }

    fn schema_node() -> SchemaNode {
        let mut fields: Vec<SchemaNode> = Vec::new();
        fields.push(T0::schema_node());
        fields.push(T1::schema_node());
        fields.push(T2::schema_node());
        fields.push(T3::schema_node());
        fields.push(T4::schema_node());
        fields.push(T5::schema_node());
        fields.push(T6::schema_node());
        fields.push(T7::schema_node());
        fields.push(T8::schema_node());
        fields.push(T9::schema_node());
        fields.push(T10::schema_node());
        fields.push(T11::schema_node());
        fields.push(T12::schema_node());
        fields.push(T13::schema_node());
        assert(shapes(fields@) =~= Self::node().kids);
        SchemaNode::Tuple(fields)
    }

    fn columns() -> usize {
        proof {
            let s = Self::node();
            assert(columns_before(s, 1) == columns_before(s, 0) + width_of(T0::node()));
            assert(columns_before(s, 2) == columns_before(s, 1) + width_of(T1::node()));
            assert(columns_before(s, 3) == columns_before(s, 2) + width_of(T2::node()));
            assert(columns_before(s, 4) == columns_before(s, 3) + width_of(T3::node()));
            assert(columns_before(s, 5) == columns_before(s, 4) + width_of(T4::node()));
            assert(columns_before(s, 6) == columns_before(s, 5) + width_of(T5::node()));
            assert(columns_before(s, 7) == columns_before(s, 6) + width_of(T6::node()));
            assert(columns_before(s, 8) == columns_before(s, 7) + width_of(T7::node()));
            assert(columns_before(s, 9) == columns_before(s, 8) + width_of(T8::node()));
            assert(columns_before(s, 10) == columns_before(s, 9) + width_of(T9::node()));
            assert(columns_before(s, 11) == columns_before(s, 10) + width_of(T10::node()));
            assert(columns_before(s, 12) == columns_before(s, 11) + width_of(T11::node()));
            assert(columns_before(s, 13) == columns_before(s, 12) + width_of(T12::node()));
            assert(columns_before(s, 14) == columns_before(s, 13) + width_of(T13::node()));
        }
        T0::columns() + T1::columns() + T2::columns() + T3::columns() + T4::columns() + T5::columns() + T6::columns() + T7::columns() + T8::columns() + T9::columns() + T10::columns() + T11::columns() + T12::columns() + T13::columns()
    }

    fn fixed_width() -> Option<usize> {
        None
    }
}

impl<
    T0: StaticSchema,
    T1: StaticSchema,
    T2: StaticSchema,
    T3: StaticSchema,
    T4: StaticSchema,
    T5: StaticSchema,
    T6: StaticSchema,
    T7: StaticSchema,
    T8: StaticSchema,
    T9: StaticSchema,
    T10: StaticSchema,
    T11: StaticSchema,
    T12: StaticSchema,
    T13: StaticSchema,
    T14: StaticSchema,
> StaticSchema for (T0, T1, T2, T3, T4, T5, T6, T7, T8, T9, T10, T11, T12, T13, T14) {
    open spec fn node() -> Shape {
        node(
            Kind::Tuple,
            seq![],
            seq![
                T0::node(),
                T1::node(),
                T2::node(),
                T3::node(),
                T4::node(),
                T5::node(),
                T6::node(),
                T7::node(),
                T8::node(),
                T9::node(),
                T10::node(),
                T11::node(),
                T12::node(),
                T13::node(),
                T14::node(),
            ],
        )
    }

    proof fn lemma_node() {
        T0::lemma_node();
        T1::lemma_node();
        T2::lemma_node();
        T3::lemma_node();
        T4::lemma_node();
        T5::lemma_node();
        T6::lemma_node();
        T7::lemma_node();
        T8::lemma_node();
        T9::lemma_node();
        T10::lemma_node();
        T11::lemma_node();
        T12::lemma_node();
        T13::lemma_node();
        T14::lemma_node();
    }

    fn schema_node() -> SchemaNode {
        let mut fields: Vec<SchemaNode> = Vec::new();
        fields.push(T0::schema_node());
        fields.push(T1::schema_node());
        fields.push(T2::schema_node());
        fields.push(T3::schema_node());
        fields.push(T4::schema_node());
        fields.push(T5::schema_node());
        fields.push(T6::schema_node());
        fields.push(T7::schema_node());
        fields.push(T8::schema_node());
        fields.push(T9::schema_node());
        fields.push(T10::schema_node());
        fields.push(T11::schema_node());
        fields.push(T12::schema_node());
        fields.push(T13::schema_node());
        fields.push(T14::schema_node());
        assert(shapes(fields@) =~= Self::node().kids);
        SchemaNode::Tuple(fields)
    }

    fn columns() -> usize {
        proof {
            let s = Self::node();
            assert(columns_before(s, 1) == columns_before(s, 0) + width_of(T0::node()));
            assert(columns_before(s, 2) == columns_before(s, 1) + width_of(T1::node()));
            assert(columns_before(s, 3) == columns_before(s, 2) + width_of(T2::node()));
            assert(columns_before(s, 4) == columns_before(s, 3) + width_of(T3::node()));
            assert(columns_before(s, 5) == columns_before(s, 4) + width_of(T4::node()));
            assert(columns_before(s, 6) == columns_before(s, 5) + width_of(T5::node()));
            assert(columns_before(s, 7) == columns_before(s, 6) + width_of(T6::node()));
            assert(columns_before(s, 8) == columns_before(s, 7) + width_of(T7::node()));
            assert(columns_before(s, 9) == columns_before(s, 8) + width_of(T8::node()));
            assert(columns_before(s, 10) == columns_before(s, 9) + width_of(T9::node()));
            assert(columns_before(s, 11) == columns_before(s, 10) + width_of(T10::node()));
            assert(columns_before(s, 12) == columns_before(s, 11) + width_of(T11::node()));
            assert(columns_before(s, 13) == columns_before(s, 12) + width_of(T12::node()));
            assert(columns_before(s, 14) == columns_before(s, 13) + width_of(T13::node()));
            assert(columns_before(s, 15) == columns_before(s, 14) + width_of(T14::node()));
        }
        T0::columns() + T1::columns() + T2::columns() + T3::columns() + T4::columns() + T5::columns() + T6::columns() + T7::columns() + T8::columns() + T9::columns() + T10::columns() + T11::columns() + T12::columns() + T13::columns() + T14::columns()
    }

    fn fixed_width() -> Option<usize> {
        None
    }
}

impl<
    T0: StaticSchema,
    T1: StaticSchema,
    T2: StaticSchema,
    T3: StaticSchema,
    T4: StaticSchema,
    T5: StaticSchema,
    T6: StaticSchema,
    T7: StaticSchema,
    T8: StaticSchema,
    T9: StaticSchema,
    T10: StaticSchema,
    T11: StaticSchema,
    T12: StaticSchema,
    T13: StaticSchema,
    T14: StaticSchema,
    T15: StaticSchema,
> StaticSchema for (T0, T1, T2, T3, T4, T5, T6, T7, T8, T9, T10, T11, T12, T13, T14, T15) {
    open spec fn node() -> Shape {
        node(
            Kind::Tuple,
            seq![],
            seq![
                T0::node(),
                T1::node(),
                T2::node(),
                T3::node(),
                T4::node(),
                T5::node(),
                T6::node(),
                T7::node(),
                T8::node(),
                T9::node(),
                T10::node(),
                T11::node(),
                T12::node(),
                T13::node(),
                T14::node(),
                T15::node(),
            ],
        )
    }

    proof fn lemma_node() {
        T0::lemma_node();
        T1::lemma_node();
        T2::lemma_node();
        T3::lemma_node();
        T4::lemma_node();
        T5::lemma_node();
        T6::lemma_node();
        T7::lemma_node();
        T8::lemma_node();
        T9::lemma_node();
        T10::lemma_node();
        T11::lemma_node();
        T12::lemma_node();
        T13::lemma_node();
        T14::lemma_node();
        T15::lemma_node();
    }

    fn schema_node() -> SchemaNode {
        let mut fields: Vec<SchemaNode> = Vec::new();
        fields.push(T0::schema_node());
        fields.push(T1::schema_node());
        fields.push(T2::schema_node());
        fields.push(T3::schema_node());
        fields.push(T4::schema_node());
        fields.push(T5::schema_node());
        fields.push(T6::schema_node());
        fields.push(T7::schema_node());
        fields.push(T8::schema_node());
        fields.push(T9::schema_node());
        fields.push(T10::schema_node());
        fields.push(T11::schema_node());
        fields.push(T12::schema_node());
        fields.push(T13::schema_node());
        fields.push(T14::schema_node());
        fields.push(T15::schema_node());
        assert(shapes(fields@) =~= Self::node().kids);
        SchemaNode::Tuple(fields)
    }

    fn columns() -> usize {
        proof {
            let s = Self::node();
            assert(columns_before(s, 1) == columns_before(s, 0) + width_of(T0::node()));
            assert(columns_before(s, 2) == columns_before(s, 1) + width_of(T1::node()));
            assert(columns_before(s, 3) == columns_before(s, 2) + width_of(T2::node()));
            assert(columns_before(s, 4) == columns_before(s, 3) + width_of(T3::node()));
            assert(columns_before(s, 5) == columns_before(s, 4) + width_of(T4::node()));
            assert(columns_before(s, 6) == columns_before(s, 5) + width_of(T5::node()));
            assert(columns_before(s, 7) == columns_before(s, 6) + width_of(T6::node()));
            assert(columns_before(s, 8) == columns_before(s, 7) + width_of(T7::node()));
            assert(columns_before(s, 9) == columns_before(s, 8) + width_of(T8::node()));
            assert(columns_before(s, 10) == columns_before(s, 9) + width_of(T9::node()));
            assert(columns_before(s, 11) == columns_before(s, 10) + width_of(T10::node()));
            assert(columns_before(s, 12) == columns_before(s, 11) + width_of(T11::node()));
            assert(columns_before(s, 13) == columns_before(s, 12) + width_of(T12::node()));
            assert(columns_before(s, 14) == columns_before(s, 13) + width_of(T13::node()));
            assert(columns_before(s, 15) == columns_before(s, 14) + width_of(T14::node()));
            assert(columns_before(s, 16) == columns_before(s, 15) + width_of(T15::node()));
        }
        T0::columns() + T1::columns() + T2::columns() + T3::columns() + T4::columns() + T5::columns() + T6::columns() + T7::columns() + T8::columns() + T9::columns() + T10::columns() + T11::columns() + T12::columns() + T13::columns() + T14::columns() + T15::columns()
    }

    fn fixed_width() -> Option<usize> {
        None
    }
}

/// The schema of a two-variant enum whose variants hold one value each.
pub open spec fn either(
    name: Seq<char>,
    first: Seq<char>,
    a: Shape,
    second: Seq<char>,
    b: Shape,
) -> Shape {
    Shape {
        kind: Kind::Enum,
        name,
        labels: seq![first, second],
        kids: seq![
            node(Kind::NewtypeVariant, seq![], seq![a]),
            node(Kind::NewtypeVariant, seq![], seq![b]),
        ],
    }
}

impl<T: StaticSchema, E: StaticSchema> StaticSchema for std::result::Result<T, E> {
    open spec fn node() -> Shape {
        either("Result"@, "Ok"@, T::node(), "Err"@, E::node())
    }

    proof fn lemma_node() {
        T::lemma_node();
        E::lemma_node();
        assert(node(Kind::NewtypeVariant, seq![], seq![T::node()]).well_formed());
        assert(node(Kind::NewtypeVariant, seq![], seq![E::node()]).well_formed());
    }

    fn schema_node() -> SchemaNode {
        let mut variants: Vec<(String, VariantNode)> = Vec::new();
        variants.push(("Ok".to_owned(), VariantNode::Newtype(Box::new(T::schema_node()))));
        variants.push(("Err".to_owned(), VariantNode::Newtype(Box::new(E::schema_node()))));
        assert(variant_shapes(variants@) =~= Self::node().kids);
        assert(labels(variants@) =~= Self::node().labels);
        SchemaNode::Enum { name: "Result".to_owned(), variants }
    }

    fn columns() -> usize {
        proof {
            let s = Self::node();
            lemma_two_kids_columns(s);
            lemma_one_kid_columns(s.kids[0]);
            lemma_one_kid_columns(s.kids[1]);
        }
        1 + T::columns() + E::columns()
    }

    fn fixed_width() -> Option<usize> {
        None
    }
}

/// `n` copies of a schema.
pub open spec fn copies(s: Shape, n: nat) -> Seq<Shape> {
    Seq::new(n, |i: int| s)
}

/// The columns of equal fields.
pub proof fn lemma_copies_columns(whole: Shape, s: Shape, n: nat)
    requires
        n <= whole.kids.len(),
        forall|i: int| 0 <= i < whole.kids.len() ==> #[trigger] whole.kids[i] == s,
    ensures
        columns_before(whole, n) == n * width_of(s),
    decreases n,
{
    if n > 0 {
        lemma_copies_columns(whole, s, (n - 1) as nat);
        assert(whole.kids[n - 1] == s);
        assert(n * width_of(s) == (n - 1) * width_of(s) + width_of(s)) by (nonlinear_arith)
            requires
                n > 0,
        ;
    } else {
        assert(0 * width_of(s) == 0) by (nonlinear_arith);
    }
}

impl<T: StaticSchema, const N: usize> StaticSchema for [T; N] {
    open spec fn node() -> Shape {
        node(Kind::Tuple, seq![], copies(T::node(), N as nat))
    }

    proof fn lemma_node() {
        T::lemma_node();
    }

    fn schema_node() -> SchemaNode {
        let mut fields: Vec<SchemaNode> = Vec::new();
        let mut i: usize = 0;
        while i < N
            invariant
                i <= N,
                fields@.len() == i,
                forall|j: int| 0 <= j < i ==> (#[trigger] fields@[j])@ == T::node(),
            decreases N - i,
        {
            fields.push(T::schema_node());
            i += 1;
        }
        assert(shapes(fields@) =~= Self::node().kids);
        SchemaNode::Tuple(fields)
    }

    fn columns() -> usize {
        proof {
            lemma_copies_columns(Self::node(), T::node(), N as nat);
        }
        if N == 0 {
            return 0;
        }
        proof {
            let w = width_of(T::node());
            assert(w <= N * w) by (nonlinear_arith)
                requires
                    N >= 1,
                    w >= 0,
            ;
        }
        N * T::columns()
    }

    fn fixed_width() -> Option<usize> {
        None
    }
}

/// The schema of a struct of two fields.
pub open spec fn pair(
    name: Seq<char>,
    first: Seq<char>,
    a: Shape,
    second: Seq<char>,
    b: Shape,
) -> Shape {
    Shape { kind: Kind::Struct, name, labels: seq![first, second], kids: seq![a, b] }
}

/// Builds the schema of a struct of two fields.
pub(crate) fn build_pair(
    name: &str,
    first: &str,
    a: SchemaNode,
    second: &str,
    b: SchemaNode,
) -> (result: SchemaNode)
    ensures
        result@ == pair(name@, first@, a@, second@, b@),
{
    let mut fields: Vec<(String, SchemaNode)> = Vec::new();
    fields.push((first.to_owned(), a));
    fields.push((second.to_owned(), b));
    assert(named_shapes(fields@) =~= seq![a@, b@]);
    assert(labels(fields@) =~= seq![first@, second@]);
    SchemaNode::Struct { name: name.to_owned(), fields }
}

impl StaticSchema for std::time::Duration {
    open spec fn node() -> Shape {
        pair("Duration"@, "secs"@, <u64>::node(), "nanos"@, <u32>::node())
    }

    proof fn lemma_node() {
        <u64>::lemma_node();
        <u32>::lemma_node();
    }

    fn schema_node() -> SchemaNode {
        build_pair("Duration", "secs", <u64>::schema_node(), "nanos", <u32>::schema_node())
    }

    fn columns() -> usize {
        proof {
            lemma_two_kids_columns(Self::node());
        }
        2
    }

    fn fixed_width() -> Option<usize> {
        None
    }
}

/// `std::time::SystemTime`, which is carried without being looked into.
#[verifier::external_type_specification]
#[verifier::external_body]
pub struct ExSystemTime(std::time::SystemTime);

impl StaticSchema for std::time::SystemTime {
    open spec fn node() -> Shape {
        pair(
            "SystemTime"@,
            "secs_since_epoch"@,
            <u64>::node(),
            "nanos_since_epoch"@,
            <u32>::node(),
        )
    }

    proof fn lemma_node() {
        <u64>::lemma_node();
        <u32>::lemma_node();
    }

    fn schema_node() -> SchemaNode {
        build_pair(
            "SystemTime",
            "secs_since_epoch",
            <u64>::schema_node(),
            "nanos_since_epoch",
            <u32>::schema_node(),
        )
    }

    fn columns() -> usize {
        proof {
            lemma_two_kids_columns(Self::node());
        }
        2
    }

    fn fixed_width() -> Option<usize> {
        None
    }
}

/// `std::path::Path`, which is carried without being looked into.
#[verifier::external_type_specification]
#[verifier::external_body]
pub struct ExPath(std::path::Path);

/// `std::path::PathBuf`, which is carried without being looked into.
#[verifier::external_type_specification]
#[verifier::external_body]
pub struct ExPathBuf(std::path::PathBuf);

impl StaticSchema for std::path::Path {
    open spec fn node() -> Shape {
        <str>::node()
    }

    proof fn lemma_node() {
    }

    fn schema_node() -> SchemaNode {
        SchemaNode::String
    }

    fn columns() -> usize {
        2
    }

    fn fixed_width() -> Option<usize> {
        None
    }
}

impl StaticSchema for std::path::PathBuf {
    open spec fn node() -> Shape {
        <str>::node()
    }

    proof fn lemma_node() {
    }

    fn schema_node() -> SchemaNode {
        SchemaNode::String
    }

    fn columns() -> usize {
        2
    }

    fn fixed_width() -> Option<usize> {
        None
    }
}

impl<T: StaticSchema> StaticSchema for std::ops::Range<T> {
    open spec fn node() -> Shape {
        pair("Range"@, "start"@, T::node(), "end"@, T::node())
    }

    proof fn lemma_node() {
        T::lemma_node();
    }

    fn schema_node() -> SchemaNode {
        build_pair("Range", "start", T::schema_node(), "end", T::schema_node())
    }

    fn columns() -> usize {
        proof {
            lemma_two_kids_columns(Self::node());
        }
        T::columns() + T::columns()
    }

    fn fixed_width() -> Option<usize> {
        None
    }
}

impl<T: StaticSchema> StaticSchema for std::ops::RangeInclusive<T> {
    open spec fn node() -> Shape {
        pair("RangeInclusive"@, "start"@, T::node(), "end"@, T::node())
    }

    proof fn lemma_node() {
        T::lemma_node();
    }

    fn schema_node() -> SchemaNode {
        build_pair("RangeInclusive", "start", T::schema_node(), "end", T::schema_node())
    }

    fn columns() -> usize {
        proof {
            lemma_two_kids_columns(Self::node());
        }
        T::columns() + T::columns()
    }

    fn fixed_width() -> Option<usize> {
        None
    }
}

} // verus!
