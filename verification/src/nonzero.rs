//! Integers that are not zero.
//!
//! Such an integer reaches the wire as the integer that it is. Reading refuses
//! zero.

use vstd::prelude::*;

use crate::columnar::ColumnCursor;
use crate::error::{Error, Fault, Result};
use crate::get::Cur;
use crate::put::Row;
use crate::schema::SchemaNode;
use crate::shape::Shape;
use crate::static_schema::StaticSchema;
use crate::typed_de::{DeserializeColumns, RoundTrip};
use crate::typed_ser::{straight, Modeled, SerializeColumns, Walk};
use crate::value::{atom, Head, Scalar, Val};

verus! {

/// Integers, of which one is zero.
pub trait Zeroable: Modeled {
    /// Zero, as it presents itself.
    spec fn zero() -> Val;

    /// Whether this is zero.
    fn is_zero(&self) -> (result: bool)
        ensures
            result == (self.val(straight()) == Self::zero()),
    ;

    /// An integer has one tree.
    proof fn lemma_tree(&self, v: Val, w: Walk)
        ensures
            self.val(w) == self.val(straight()),
            self.stands_for(v) == (v == self.val(w)),
    ;
}

impl Zeroable for i8 {
    open spec fn zero() -> Val {
        atom(Head::Scalar(Scalar::I8(0)))
    }

    fn is_zero(&self) -> (result: bool) {
        *self == 0
    }

    proof fn lemma_tree(&self, v: Val, w: Walk) {
    }
}

impl Zeroable for i16 {
    open spec fn zero() -> Val {
        atom(Head::Scalar(Scalar::I16(0)))
    }

    fn is_zero(&self) -> (result: bool) {
        *self == 0
    }

    proof fn lemma_tree(&self, v: Val, w: Walk) {
    }
}

impl Zeroable for i32 {
    open spec fn zero() -> Val {
        atom(Head::Scalar(Scalar::I32(0)))
    }

    fn is_zero(&self) -> (result: bool) {
        *self == 0
    }

    proof fn lemma_tree(&self, v: Val, w: Walk) {
    }
}

impl Zeroable for i64 {
    open spec fn zero() -> Val {
        atom(Head::Scalar(Scalar::I64(0)))
    }

    fn is_zero(&self) -> (result: bool) {
        *self == 0
    }

    proof fn lemma_tree(&self, v: Val, w: Walk) {
    }
}

impl Zeroable for i128 {
    open spec fn zero() -> Val {
        atom(Head::Scalar(Scalar::I128(0)))
    }

    fn is_zero(&self) -> (result: bool) {
        *self == 0
    }

    proof fn lemma_tree(&self, v: Val, w: Walk) {
    }
}

impl Zeroable for isize {
    open spec fn zero() -> Val {
        atom(Head::Scalar(Scalar::I64(0)))
    }

    fn is_zero(&self) -> (result: bool) {
        *self == 0
    }

    proof fn lemma_tree(&self, v: Val, w: Walk) {
    }
}

impl Zeroable for u8 {
    open spec fn zero() -> Val {
        atom(Head::Scalar(Scalar::U8(0)))
    }

    fn is_zero(&self) -> (result: bool) {
        *self == 0
    }

    proof fn lemma_tree(&self, v: Val, w: Walk) {
    }
}

impl Zeroable for u16 {
    open spec fn zero() -> Val {
        atom(Head::Scalar(Scalar::U16(0)))
    }

    fn is_zero(&self) -> (result: bool) {
        *self == 0
    }

    proof fn lemma_tree(&self, v: Val, w: Walk) {
    }
}

impl Zeroable for u32 {
    open spec fn zero() -> Val {
        atom(Head::Scalar(Scalar::U32(0)))
    }

    fn is_zero(&self) -> (result: bool) {
        *self == 0
    }

    proof fn lemma_tree(&self, v: Val, w: Walk) {
    }
}

impl Zeroable for u64 {
    open spec fn zero() -> Val {
        atom(Head::Scalar(Scalar::U64(0)))
    }

    fn is_zero(&self) -> (result: bool) {
        *self == 0
    }

    proof fn lemma_tree(&self, v: Val, w: Walk) {
    }
}

impl Zeroable for u128 {
    open spec fn zero() -> Val {
        atom(Head::Scalar(Scalar::U128(0)))
    }

    fn is_zero(&self) -> (result: bool) {
        *self == 0
    }

    proof fn lemma_tree(&self, v: Val, w: Walk) {
    }
}

impl Zeroable for usize {
    open spec fn zero() -> Val {
        atom(Head::Scalar(Scalar::U64(0)))
    }

    fn is_zero(&self) -> (result: bool) {
        *self == 0
    }

    proof fn lemma_tree(&self, v: Val, w: Walk) {
    }
}

/// An integer that is not zero.
#[derive(Debug, PartialEq, Eq)]
pub struct NonZero<T: Zeroable> {
    value: T,
}

impl<T: Zeroable> NonZero<T> {
    #[verifier::type_invariant]
    spec fn not_zero(self) -> bool {
        self.value.val(straight()) != T::zero()
    }

    /// The integer.
    pub closed spec fn held(&self) -> T {
        self.value
    }

    /// The integer, if it is not zero.
    pub fn new(value: T) -> (result: Option<Self>)
        ensures
            match result {
                Some(x) => x.held() == value && value.val(straight()) != T::zero(),
                None => value.val(straight()) == T::zero(),
            },
    {
        if value.is_zero() {
            None
        } else {
            Some(NonZero { value })
        }
    }

    /// The integer.
    pub fn get(self) -> (result: T)
        ensures
            result == self.held(),
            result.val(straight()) != T::zero(),
    {
        proof {
            use_type_invariant(&self);
        }
        self.value
    }
}

impl<T: Zeroable + StaticSchema> StaticSchema for NonZero<T> {
    open spec fn node() -> Shape {
        T::node()
    }

    proof fn lemma_node() {
        T::lemma_node();
    }

    fn schema_node() -> SchemaNode {
        T::schema_node()
    }

    fn columns() -> usize {
        T::columns()
    }

    fn fixed_width() -> Option<usize> {
        T::fixed_width()
    }
}

impl<T: Zeroable> Modeled for NonZero<T> {
    open spec fn val(&self, w: Walk) -> Val {
        self.held().val(w)
    }

    open spec fn stands_for(&self, v: Val) -> bool {
        self.held().stands_for(v)
    }
}

impl<T: Zeroable + SerializeColumns> SerializeColumns for NonZero<T> {
    open spec fn writes(&self) -> bool {
        self.held().writes() && self.val(straight()) != T::zero()
    }

    open spec fn refusal(&self) -> Option<Fault> {
        self.held().refusal()
    }

    open spec fn image(&self, w: Walk) -> Seq<Seq<u8>> {
        self.held().image(w)
    }

    proof fn lemma_image(&self, w: Walk, base: nat, row: Row) {
        self.held().lemma_image(w, base, row);
    }

    fn serialize_columns(&self, columns: &mut [Vec<u8>]) -> (result: Result<()>) {
        assert forall|w: Walk| #[trigger] self.value.image(w) == self.image(w) by {}
        self.value.serialize_columns(columns)
    }
}

/// What is read as an integer, unless it is zero.
pub open spec fn refuse_zero(
    read: std::result::Result<(Val, Cur), Fault>,
    zero: Val,
) -> std::result::Result<(Val, Cur), Fault> {
    match read {
        Ok((v, next)) => if v == zero {
            Err(Fault::Message("expected a non-zero value"@))
        } else {
            Ok((v, next))
        },
        Err(fault) => Err(fault),
    }
}

impl<'de, T: Zeroable + DeserializeColumns<'de>> DeserializeColumns<'de> for NonZero<T> {
    open spec fn sound() -> bool {
        T::sound()
    }

    open spec fn read(cur: Cur) -> std::result::Result<(Val, Cur), Fault> {
        refuse_zero(T::read(cur), T::zero())
    }

    proof fn lemma_read(base: nat, cur: Cur) {
        T::lemma_read(base, cur);
    }

    fn deserialize_columns(cursors: &mut [ColumnCursor<'de>]) -> (result: Result<Self>) {
        match T::deserialize_columns(cursors) {
            Ok(value) => {
                assert forall|v: Val| #[trigger] value.stands_for(v) == (v == value.val(
                    straight(),
                )) by {
                    value.lemma_tree(v, straight());
                }
                match NonZero::new(value) {
                    Some(x) => Ok(x),
                    None => Err(Error::Message("expected a non-zero value".to_owned())),
                }
            },
            Err(error) => Err(error),
        }
    }
}

impl<'de, T: Zeroable + RoundTrip<'de>> RoundTrip<'de> for NonZero<T> {
    proof fn lemma_read_back(&self, w: Walk, cur: Cur) {
        self.held().lemma_tree(self.val(w), w);
        self.held().lemma_read_back(w, cur);
    }
}

} // verus!
