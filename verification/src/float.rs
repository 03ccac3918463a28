//! Floating-point numbers, by their IEEE 754 bits.
//!
//! The format stores the bits of a float and never computes with one, so the
//! bits are all that there is to say about it here.

use vstd::prelude::*;

use crate::columnar::ColumnCursor;
use crate::error::{Error, Fault, Result};
use crate::get::Cur;
use crate::put::Row;
use crate::schema::{Primitive, SchemaNode};
use crate::shape::{leaf, Kind, Shape};
use crate::static_schema::StaticSchema;
use crate::typed_de::{
    lemma_back_scalar, lemma_read_atom, read_atom, take_scalar, DeserializeColumns, RoundTrip,
};
use crate::typed_ser::{lemma_stamp_append, straight, write_scalar, Modeled, SerializeColumns, Walk};
use crate::value::{atom, scalar_bytes, Head, Scalar, Val};

verus! {

/// A single-precision float.
#[derive(Clone, Copy, Debug, PartialEq, Eq, Structural)]
pub struct Single(pub u32);

impl StaticSchema for Single {
    open spec fn node() -> Shape {
        leaf(Kind::Primitive(Primitive::F32), seq![])
    }

    proof fn lemma_node() {
    }

    fn schema_node() -> SchemaNode {
        SchemaNode::Primitive(Primitive::F32)
    }

    fn columns() -> usize {
        1
    }

    fn fixed_width() -> Option<usize> {
        Some(4)
    }
}

impl Modeled for Single {
    open spec fn val(&self, w: Walk) -> Val {
        atom(Head::Scalar(Scalar::F32(self.0)))
    }
}

impl SerializeColumns for Single {
    open spec fn writes(&self) -> bool {
        true
    }

    open spec fn image(&self, w: Walk) -> Seq<Seq<u8>> {
        seq![scalar_bytes(Scalar::F32(self.0))]
    }

    proof fn lemma_image(&self, w: Walk, base: nat, row: Row) {
        lemma_stamp_append(row, base, scalar_bytes(Scalar::F32(self.0)));
    }

    fn serialize_columns(&self, columns: &mut [Vec<u8>]) -> (result: Result<()>) {
        write_scalar(Scalar::F32(self.0), columns);
        assert(self.image(straight()) == seq![scalar_bytes(Scalar::F32(self.0))]);
        Ok(())
    }
}

impl<'de> DeserializeColumns<'de> for Single {
    open spec fn sound() -> bool {
        true
    }

    open spec fn read(cur: Cur) -> std::result::Result<(Val, Cur), Fault> {
        read_atom(Primitive::F32, cur)
    }

    proof fn lemma_read(base: nat, cur: Cur) {
        lemma_read_atom(Primitive::F32, base, cur);
    }

    fn deserialize_columns(cursors: &mut [ColumnCursor<'de>]) -> (result: Result<Self>) {
        match take_scalar(Primitive::F32, cursors) {
            Ok(Scalar::F32(x)) => Ok(Single(x)),
            Ok(_) => Err(Error::UnexpectedEof),
            Err(error) => Err(error),
        }
    }
}

impl<'de> RoundTrip<'de> for Single {
    proof fn lemma_read_back(&self, w: Walk, cur: Cur) {
        lemma_back_scalar(Scalar::F32(self.0), cur);
    }
}

/// A double-precision float.
#[derive(Clone, Copy, Debug, PartialEq, Eq, Structural)]
pub struct Double(pub u64);

impl StaticSchema for Double {
    open spec fn node() -> Shape {
        leaf(Kind::Primitive(Primitive::F64), seq![])
    }

    proof fn lemma_node() {
    }

    fn schema_node() -> SchemaNode {
        SchemaNode::Primitive(Primitive::F64)
    }

    fn columns() -> usize {
        1
    }

    fn fixed_width() -> Option<usize> {
        Some(8)
    }
}

impl Modeled for Double {
    open spec fn val(&self, w: Walk) -> Val {
        atom(Head::Scalar(Scalar::F64(self.0)))
    }
}

impl SerializeColumns for Double {
    open spec fn writes(&self) -> bool {
        true
    }

    open spec fn image(&self, w: Walk) -> Seq<Seq<u8>> {
        seq![scalar_bytes(Scalar::F64(self.0))]
    }

    proof fn lemma_image(&self, w: Walk, base: nat, row: Row) {
        lemma_stamp_append(row, base, scalar_bytes(Scalar::F64(self.0)));
    }

    fn serialize_columns(&self, columns: &mut [Vec<u8>]) -> (result: Result<()>) {
        write_scalar(Scalar::F64(self.0), columns);
        assert(self.image(straight()) == seq![scalar_bytes(Scalar::F64(self.0))]);
        Ok(())
    }
}

impl<'de> DeserializeColumns<'de> for Double {
    open spec fn sound() -> bool {
        true
    }

    open spec fn read(cur: Cur) -> std::result::Result<(Val, Cur), Fault> {
        read_atom(Primitive::F64, cur)
    }

    proof fn lemma_read(base: nat, cur: Cur) {
        lemma_read_atom(Primitive::F64, base, cur);
    }

    fn deserialize_columns(cursors: &mut [ColumnCursor<'de>]) -> (result: Result<Self>) {
        match take_scalar(Primitive::F64, cursors) {
            Ok(Scalar::F64(x)) => Ok(Double(x)),
            Ok(_) => Err(Error::UnexpectedEof),
            Err(error) => Err(error),
        }
    }
}

impl<'de> RoundTrip<'de> for Double {
    proof fn lemma_read_back(&self, w: Walk, cur: Cur) {
        lemma_back_scalar(Scalar::F64(self.0), cur);
    }
}

} // verus!
