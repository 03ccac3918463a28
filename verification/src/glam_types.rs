//! Compile-time schemas and columnar fast paths for the types of `glam`.
//!
//! Every such type reaches the wire as a tuple struct named after the Rust
//! type, holding one field per component in glam's own order: `x, y, z, w` for
//! vectors and quaternions, column-major for matrices and affine transforms.
//! A value stands here as its components; floats stand as their bits.
//! `glam::EulerRot` is a unit-only enum, and stands as itself.
//!
//! `BVec3A` and `BVec4A` are left out: what glam's own impls say of them does
//! not agree between the two directions.

use std::marker::PhantomData;

use glam::EulerRot;
use vstd::prelude::*;

use crate::columnar::{invalid_variant, write_varint, ColumnCursor};
use crate::de::read_varint;
use crate::error::{Fault, Result};
use crate::float::{Double, Single};
use crate::get::{get_fields, variant_head, variant_tag, Cur};
use crate::put::{find_variant, prefix, put_fields, Row};
use crate::roundtrip::{part_shape, readable};
use crate::schema::{labels, shapes, variant_shapes, SchemaNode, VariantNode};
use crate::shape::{columns_before, kid_base, leaf, node, width_of, Kind, Shape};
use crate::static_schema::{copies, lemma_copies_columns, StaticSchema};
use crate::typed_array::{half_passed, lemma_read_row, lemma_row_back, read_row};
use crate::typed_de::{nothing, passed, rejoin, window, DeserializeColumns, RoundTrip};
use crate::typed_ser::{
    all_stand, all_write, first_refusal, item_vals, lemma_row_images, lemma_row_images_len, lemma_stamp_append,
    row_images, stamped, straight, write_row, Modeled, SerializeColumns, Walk,
};
use crate::value::{atom, Head, Val};
use crate::varint;

verus! {

/// What a tuple struct of components is called.
pub trait Kindred {
    /// The name on the wire.
    spec fn spelled() -> Seq<char>;

    /// The name on the wire.
    fn name() -> (result: &'static str)
        ensures
            result@ == Self::spelled(),
    ;
}

/// A tuple struct of `N` components, named as `K` says.
pub struct Components<K, T, const N: usize> {
    /// The components, in wire order.
    pub parts: [T; N],
    /// What it is called.
    pub kind: PhantomData<K>,
}

impl<K, T, const N: usize> Components<K, T, N> {
    /// The value with these components.
    pub fn new(parts: [T; N]) -> (result: Self)
        ensures
            result.parts == parts,
    {
        Components { parts, kind: PhantomData }
    }

    /// The components.
    pub fn to_array(self) -> (result: [T; N])
        ensures
            result == self.parts,
    {
        self.parts
    }
}

/// The schema of a tuple struct of equal components.
pub open spec fn components(name: Seq<char>, part: Shape, n: nat) -> Shape {
    node(Kind::TupleStruct, name, copies(part, n))
}

impl<K: Kindred, T: StaticSchema, const N: usize> StaticSchema for Components<K, T, N> {
    open spec fn node() -> Shape {
        components(K::spelled(), T::node(), N as nat)
    }

    proof fn lemma_node() {
        T::lemma_node();
    }

    fn schema_node() -> SchemaNode {
        let mut fields: Vec<SchemaNode> = Vec::new();
        let mut i: usize = 0;
        while i < N
            invariant
                i <= N,
                fields@.len() == i,
                forall|j: int| 0 <= j < i ==> (#[trigger] fields@[j])@ == T::node(),
            decreases N - i,
        {
            fields.push(T::schema_node());
            i += 1;
        }
        assert(shapes(fields@) =~= Self::node().kids);
        SchemaNode::TupleStruct { name: K::name().to_owned(), fields }
    }

    fn columns() -> usize {
        proof {
            lemma_copies_columns(Self::node(), T::node(), N as nat);
        }
        if N == 0 {
            return 0;
        }
        proof {
            let width = width_of(T::node());
            assert(width <= N * width) by (nonlinear_arith)
                requires
                    N >= 1,
                    width >= 0,
            ;
        }
        N * T::columns()
    }

    fn fixed_width() -> Option<usize> {
        None
    }
}

impl<K: Kindred, T: Modeled, const N: usize> Modeled for Components<K, T, N> {
    open spec fn val(&self, w: Walk) -> Val {
        Val { head: Head::TupleStruct(K::spelled()), kids: item_vals(self.parts@, w) }
    }

    open spec fn stands_for(&self, v: Val) -> bool {
        v.head == Head::TupleStruct(K::spelled()) && all_stand(self.parts@, v.kids)
    }
}

impl<K: Kindred, T: SerializeColumns, const N: usize> SerializeColumns for Components<K, T, N> {
    open spec fn writes(&self) -> bool {
        all_write(self.parts@)
    }

    open spec fn refusal(&self) -> Option<Fault> {
        first_refusal(self.parts@, 0)
    }

    open spec fn image(&self, w: Walk) -> Seq<Seq<u8>> {
        row_images(self.parts@, w, 0)
    }

    proof fn lemma_image(&self, w: Walk, base: nat, row: Row) {
        let s = Self::node();
        lemma_row_images(self.parts@, w, self.val(w), s, base, row, N as nat);
        lemma_row_images_len(self.parts@, w, 0);
        lemma_copies_columns(s, T::node(), N as nat);
        let end = put_fields(self.val(w), s, base, row, N as nat)->Ok_0;
        assert(stamped(end, base + columns_before(s, N as nat), seq![]).cols =~= end.cols);
    }

    fn serialize_columns(&self, columns: &mut [Vec<u8>]) -> (result: Result<()>) {
        proof {
            lemma_copies_columns(Self::node(), T::node(), N as nat);
            assert forall|w: Walk| #[trigger] row_images(self.parts@, w, 0) == self.image(w) by {}
        }
        write_row(self.parts.as_slice(), 0, columns)
    }
}

impl<'de, K: Kindred, T: DeserializeColumns<'de>, const N: usize> DeserializeColumns<
    'de,
> for Components<K, T, N> {
    open spec fn sound() -> bool {
        T::sound()
    }

    open spec fn read(cur: Cur) -> std::result::Result<(Val, Cur), Fault> {
        match read_row::<T>(cur, N as nat) {
            Ok((kids, next)) => Ok((Val { head: Head::TupleStruct(K::spelled()), kids }, next)),
            Err(fault) => Err(fault),
        }
    }

    proof fn lemma_read(base: nat, cur: Cur) {
        lemma_read_row::<T>(Self::node(), base, cur, N as nat, N as nat);
    }

    fn deserialize_columns(cursors: &mut [ColumnCursor<'de>]) -> (result: Result<Self>) {
        proof {
            lemma_copies_columns(Self::node(), T::node(), N as nat);
            lemma_copies_columns(<[T; N]>::node(), T::node(), N as nat);
        }
        match <[T; N]>::deserialize_columns(cursors) {
            Ok(parts) => Ok(Components { parts, kind: PhantomData }),
            Err(error) => Err(error),
        }
    }
}

impl<'de, K: Kindred, T: RoundTrip<'de>, const N: usize> RoundTrip<'de> for Components<K, T, N> {
    proof fn lemma_read_back(&self, w: Walk, cur: Cur) {
        let v = self.val(w);
        let s = Self::node();
        let items = self.parts@;
        assert forall|i: int| 0 <= i < items.len() implies readable(
            (#[trigger] items[i]).val(w.part(i)),
            T::node(),
        ) by {
            assert(v.kids[i] == items[i].val(w.part(i)));
            assert(part_shape(v, s, i) == T::node());
        }
        lemma_row_back::<T>(items, w, cur, N as nat);
        lemma_row_images_len(items, w, 0);
        assert(item_vals(items, w).subrange(0, N as int) =~= item_vals(items, w));
        assert(half_passed(cur, self.image(w), N as nat * width_of(T::node())).pos =~= passed(
            cur,
            self.image(w),
        ).pos);
    }
}

/// The name of [`Vec2`].
pub struct Vec2Name;

impl Kindred for Vec2Name {
    open spec fn spelled() -> Seq<char> {
        "Vec2"@
    }

    fn name() -> &'static str {
        "Vec2"
    }
}

/// `glam::Vec2`, as its components.
pub type Vec2 = Components<Vec2Name, Single, 2>;

/// The name of [`Vec3`].
pub struct Vec3Name;

impl Kindred for Vec3Name {
    open spec fn spelled() -> Seq<char> {
        "Vec3"@
    }

    fn name() -> &'static str {
        "Vec3"
    }
}

/// `glam::Vec3`, as its components.
pub type Vec3 = Components<Vec3Name, Single, 3>;

/// The name of [`Vec3A`].
pub struct Vec3AName;

impl Kindred for Vec3AName {
    open spec fn spelled() -> Seq<char> {
        "Vec3A"@
    }

    fn name() -> &'static str {
        "Vec3A"
    }
}

/// `glam::Vec3A`, as its components.
pub type Vec3A = Components<Vec3AName, Single, 3>;

/// The name of [`Vec4`].
pub struct Vec4Name;

impl Kindred for Vec4Name {
    open spec fn spelled() -> Seq<char> {
        "Vec4"@
    }

    fn name() -> &'static str {
        "Vec4"
    }
}

/// `glam::Vec4`, as its components.
pub type Vec4 = Components<Vec4Name, Single, 4>;

/// The name of [`DVec2`].
pub struct DVec2Name;

impl Kindred for DVec2Name {
    open spec fn spelled() -> Seq<char> {
        "DVec2"@
    }

    fn name() -> &'static str {
        "DVec2"
    }
}

/// `glam::DVec2`, as its components.
pub type DVec2 = Components<DVec2Name, Double, 2>;

/// The name of [`DVec3`].
pub struct DVec3Name;

impl Kindred for DVec3Name {
    open spec fn spelled() -> Seq<char> {
        "DVec3"@
    }

    fn name() -> &'static str {
        "DVec3"
    }
}

/// `glam::DVec3`, as its components.
pub type DVec3 = Components<DVec3Name, Double, 3>;

/// The name of [`DVec4`].
pub struct DVec4Name;

impl Kindred for DVec4Name {
    open spec fn spelled() -> Seq<char> {
        "DVec4"@
    }

    fn name() -> &'static str {
        "DVec4"
    }
}

/// `glam::DVec4`, as its components.
pub type DVec4 = Components<DVec4Name, Double, 4>;

/// The name of [`I8Vec2`].
pub struct I8Vec2Name;

impl Kindred for I8Vec2Name {
    open spec fn spelled() -> Seq<char> {
        "I8Vec2"@
    }

    fn name() -> &'static str {
        "I8Vec2"
    }
}

/// `glam::I8Vec2`, as its components.
pub type I8Vec2 = Components<I8Vec2Name, i8, 2>;

/// The name of [`I8Vec3`].
pub struct I8Vec3Name;

impl Kindred for I8Vec3Name {
    open spec fn spelled() -> Seq<char> {
        "I8Vec3"@
    }

    fn name() -> &'static str {
        "I8Vec3"
    }
}

/// `glam::I8Vec3`, as its components.
pub type I8Vec3 = Components<I8Vec3Name, i8, 3>;

/// The name of [`I8Vec4`].
pub struct I8Vec4Name;

impl Kindred for I8Vec4Name {
    open spec fn spelled() -> Seq<char> {
        "I8Vec4"@
    }

    fn name() -> &'static str {
        "I8Vec4"
    }
}

/// `glam::I8Vec4`, as its components.
pub type I8Vec4 = Components<I8Vec4Name, i8, 4>;

/// The name of [`I16Vec2`].
pub struct I16Vec2Name;

impl Kindred for I16Vec2Name {
    open spec fn spelled() -> Seq<char> {
        "I16Vec2"@
    }

    fn name() -> &'static str {
        "I16Vec2"
    }
}

/// `glam::I16Vec2`, as its components.
pub type I16Vec2 = Components<I16Vec2Name, i16, 2>;

/// The name of [`I16Vec3`].
pub struct I16Vec3Name;

impl Kindred for I16Vec3Name {
    open spec fn spelled() -> Seq<char> {
        "I16Vec3"@
    }

    fn name() -> &'static str {
        "I16Vec3"
    }
}

/// `glam::I16Vec3`, as its components.
pub type I16Vec3 = Components<I16Vec3Name, i16, 3>;

/// The name of [`I16Vec4`].
pub struct I16Vec4Name;

impl Kindred for I16Vec4Name {
    open spec fn spelled() -> Seq<char> {
        "I16Vec4"@
    }

    fn name() -> &'static str {
        "I16Vec4"
    }
}

/// `glam::I16Vec4`, as its components.
pub type I16Vec4 = Components<I16Vec4Name, i16, 4>;

/// The name of [`IVec2`].
pub struct IVec2Name;

impl Kindred for IVec2Name {
    open spec fn spelled() -> Seq<char> {
        "IVec2"@
    }

    fn name() -> &'static str {
        "IVec2"
    }
}

/// `glam::IVec2`, as its components.
pub type IVec2 = Components<IVec2Name, i32, 2>;

/// The name of [`IVec3`].
pub struct IVec3Name;

impl Kindred for IVec3Name {
    open spec fn spelled() -> Seq<char> {
        "IVec3"@
    }

    fn name() -> &'static str {
        "IVec3"
    }
}

/// `glam::IVec3`, as its components.
pub type IVec3 = Components<IVec3Name, i32, 3>;

/// The name of [`IVec4`].
pub struct IVec4Name;

impl Kindred for IVec4Name {
    open spec fn spelled() -> Seq<char> {
        "IVec4"@
    }

    fn name() -> &'static str {
        "IVec4"
    }
}

/// `glam::IVec4`, as its components.
pub type IVec4 = Components<IVec4Name, i32, 4>;

/// The name of [`I64Vec2`].
pub struct I64Vec2Name;

impl Kindred for I64Vec2Name {
    open spec fn spelled() -> Seq<char> {
        "I64Vec2"@
    }

    fn name() -> &'static str {
        "I64Vec2"
    }
}

/// `glam::I64Vec2`, as its components.
pub type I64Vec2 = Components<I64Vec2Name, i64, 2>;

/// The name of [`I64Vec3`].
pub struct I64Vec3Name;

impl Kindred for I64Vec3Name {
    open spec fn spelled() -> Seq<char> {
        "I64Vec3"@
    }

    fn name() -> &'static str {
        "I64Vec3"
    }
}

/// `glam::I64Vec3`, as its components.
pub type I64Vec3 = Components<I64Vec3Name, i64, 3>;

/// The name of [`I64Vec4`].
pub struct I64Vec4Name;

impl Kindred for I64Vec4Name {
    open spec fn spelled() -> Seq<char> {
        "I64Vec4"@
    }

    fn name() -> &'static str {
        "I64Vec4"
    }
}

/// `glam::I64Vec4`, as its components.
pub type I64Vec4 = Components<I64Vec4Name, i64, 4>;

/// The name of [`ISizeVec2`].
pub struct ISizeVec2Name;

impl Kindred for ISizeVec2Name {
    open spec fn spelled() -> Seq<char> {
        "ISizeVec2"@
    }

    fn name() -> &'static str {
        "ISizeVec2"
    }
}

/// `glam::ISizeVec2`, as its components.
pub type ISizeVec2 = Components<ISizeVec2Name, isize, 2>;

/// The name of [`ISizeVec3`].
pub struct ISizeVec3Name;

impl Kindred for ISizeVec3Name {
    open spec fn spelled() -> Seq<char> {
        "ISizeVec3"@
    }

    fn name() -> &'static str {
        "ISizeVec3"
    }
}

/// `glam::ISizeVec3`, as its components.
pub type ISizeVec3 = Components<ISizeVec3Name, isize, 3>;

/// The name of [`ISizeVec4`].
pub struct ISizeVec4Name;

impl Kindred for ISizeVec4Name {
    open spec fn spelled() -> Seq<char> {
        "ISizeVec4"@
    }

    fn name() -> &'static str {
        "ISizeVec4"
    }
}

/// `glam::ISizeVec4`, as its components.
pub type ISizeVec4 = Components<ISizeVec4Name, isize, 4>;

/// The name of [`U8Vec2`].
pub struct U8Vec2Name;

impl Kindred for U8Vec2Name {
    open spec fn spelled() -> Seq<char> {
        "U8Vec2"@
    }

    fn name() -> &'static str {
        "U8Vec2"
    }
}

/// `glam::U8Vec2`, as its components.
pub type U8Vec2 = Components<U8Vec2Name, u8, 2>;

/// The name of [`U8Vec3`].
pub struct U8Vec3Name;

impl Kindred for U8Vec3Name {
    open spec fn spelled() -> Seq<char> {
        "U8Vec3"@
    }

    fn name() -> &'static str {
        "U8Vec3"
    }
}

/// `glam::U8Vec3`, as its components.
pub type U8Vec3 = Components<U8Vec3Name, u8, 3>;

/// The name of [`U8Vec4`].
pub struct U8Vec4Name;

impl Kindred for U8Vec4Name {
    open spec fn spelled() -> Seq<char> {
        "U8Vec4"@
    }

    fn name() -> &'static str {
        "U8Vec4"
    }
}

/// `glam::U8Vec4`, as its components.
pub type U8Vec4 = Components<U8Vec4Name, u8, 4>;

/// The name of [`U16Vec2`].
pub struct U16Vec2Name;

impl Kindred for U16Vec2Name {
    open spec fn spelled() -> Seq<char> {
        "U16Vec2"@
    }

    fn name() -> &'static str {
        "U16Vec2"
    }
}

/// `glam::U16Vec2`, as its components.
pub type U16Vec2 = Components<U16Vec2Name, u16, 2>;

/// The name of [`U16Vec3`].
pub struct U16Vec3Name;

impl Kindred for U16Vec3Name {
    open spec fn spelled() -> Seq<char> {
        "U16Vec3"@
    }

    fn name() -> &'static str {
        "U16Vec3"
    }
}

/// `glam::U16Vec3`, as its components.
pub type U16Vec3 = Components<U16Vec3Name, u16, 3>;

/// The name of [`U16Vec4`].
pub struct U16Vec4Name;

impl Kindred for U16Vec4Name {
    open spec fn spelled() -> Seq<char> {
        "U16Vec4"@
    }

    fn name() -> &'static str {
        "U16Vec4"
    }
}

/// `glam::U16Vec4`, as its components.
pub type U16Vec4 = Components<U16Vec4Name, u16, 4>;

/// The name of [`UVec2`].
pub struct UVec2Name;

impl Kindred for UVec2Name {
    open spec fn spelled() -> Seq<char> {
        "UVec2"@
    }

    fn name() -> &'static str {
        "UVec2"
    }
}

/// `glam::UVec2`, as its components.
pub type UVec2 = Components<UVec2Name, u32, 2>;

/// The name of [`UVec3`].
pub struct UVec3Name;

impl Kindred for UVec3Name {
    open spec fn spelled() -> Seq<char> {
        "UVec3"@
    }

    fn name() -> &'static str {
        "UVec3"
    }
}

/// `glam::UVec3`, as its components.
pub type UVec3 = Components<UVec3Name, u32, 3>;

/// The name of [`UVec4`].
pub struct UVec4Name;

impl Kindred for UVec4Name {
    open spec fn spelled() -> Seq<char> {
        "UVec4"@
    }

    fn name() -> &'static str {
        "UVec4"
    }
}

/// `glam::UVec4`, as its components.
pub type UVec4 = Components<UVec4Name, u32, 4>;

/// The name of [`U64Vec2`].
pub struct U64Vec2Name;

impl Kindred for U64Vec2Name {
    open spec fn spelled() -> Seq<char> {
        "U64Vec2"@
    }

    fn name() -> &'static str {
        "U64Vec2"
    }
}

/// `glam::U64Vec2`, as its components.
pub type U64Vec2 = Components<U64Vec2Name, u64, 2>;

/// The name of [`U64Vec3`].
pub struct U64Vec3Name;

impl Kindred for U64Vec3Name {
    open spec fn spelled() -> Seq<char> {
        "U64Vec3"@
    }

    fn name() -> &'static str {
        "U64Vec3"
    }
}

/// `glam::U64Vec3`, as its components.
pub type U64Vec3 = Components<U64Vec3Name, u64, 3>;

/// The name of [`U64Vec4`].
pub struct U64Vec4Name;

impl Kindred for U64Vec4Name {
    open spec fn spelled() -> Seq<char> {
        "U64Vec4"@
    }

    fn name() -> &'static str {
        "U64Vec4"
    }
}

/// `glam::U64Vec4`, as its components.
pub type U64Vec4 = Components<U64Vec4Name, u64, 4>;

/// The name of [`USizeVec2`].
pub struct USizeVec2Name;

impl Kindred for USizeVec2Name {
    open spec fn spelled() -> Seq<char> {
        "USizeVec2"@
    }

    fn name() -> &'static str {
        "USizeVec2"
    }
}

/// `glam::USizeVec2`, as its components.
pub type USizeVec2 = Components<USizeVec2Name, usize, 2>;

/// The name of [`USizeVec3`].
pub struct USizeVec3Name;

impl Kindred for USizeVec3Name {
    open spec fn spelled() -> Seq<char> {
        "USizeVec3"@
    }

    fn name() -> &'static str {
        "USizeVec3"
    }
}

/// `glam::USizeVec3`, as its components.
pub type USizeVec3 = Components<USizeVec3Name, usize, 3>;

/// The name of [`USizeVec4`].
pub struct USizeVec4Name;

impl Kindred for USizeVec4Name {
    open spec fn spelled() -> Seq<char> {
        "USizeVec4"@
    }

    fn name() -> &'static str {
        "USizeVec4"
    }
}

/// `glam::USizeVec4`, as its components.
pub type USizeVec4 = Components<USizeVec4Name, usize, 4>;

/// The name of [`BVec2`].
pub struct BVec2Name;

impl Kindred for BVec2Name {
    open spec fn spelled() -> Seq<char> {
        "BVec2"@
    }

    fn name() -> &'static str {
        "BVec2"
    }
}

/// `glam::BVec2`, as its components.
pub type BVec2 = Components<BVec2Name, bool, 2>;

/// The name of [`BVec3`].
pub struct BVec3Name;

impl Kindred for BVec3Name {
    open spec fn spelled() -> Seq<char> {
        "BVec3"@
    }

    fn name() -> &'static str {
        "BVec3"
    }
}

/// `glam::BVec3`, as its components.
pub type BVec3 = Components<BVec3Name, bool, 3>;

/// The name of [`BVec4`].
pub struct BVec4Name;

impl Kindred for BVec4Name {
    open spec fn spelled() -> Seq<char> {
        "BVec4"@
    }

    fn name() -> &'static str {
        "BVec4"
    }
}

/// `glam::BVec4`, as its components.
pub type BVec4 = Components<BVec4Name, bool, 4>;

/// The name of [`Quat`].
pub struct QuatName;

impl Kindred for QuatName {
    open spec fn spelled() -> Seq<char> {
        "Quat"@
    }

    fn name() -> &'static str {
        "Quat"
    }
}

/// `glam::Quat`, as its components.
pub type Quat = Components<QuatName, Single, 4>;

/// The name of [`DQuat`].
pub struct DQuatName;

impl Kindred for DQuatName {
    open spec fn spelled() -> Seq<char> {
        "DQuat"@
    }

    fn name() -> &'static str {
        "DQuat"
    }
}

/// `glam::DQuat`, as its components.
pub type DQuat = Components<DQuatName, Double, 4>;

/// The name of [`Mat2`].
pub struct Mat2Name;

impl Kindred for Mat2Name {
    open spec fn spelled() -> Seq<char> {
        "Mat2"@
    }

    fn name() -> &'static str {
        "Mat2"
    }
}

/// `glam::Mat2`, as its components.
pub type Mat2 = Components<Mat2Name, Single, 4>;

/// The name of [`Mat3`].
pub struct Mat3Name;

impl Kindred for Mat3Name {
    open spec fn spelled() -> Seq<char> {
        "Mat3"@
    }

    fn name() -> &'static str {
        "Mat3"
    }
}

/// `glam::Mat3`, as its components.
pub type Mat3 = Components<Mat3Name, Single, 9>;

/// The name of [`Mat3A`].
pub struct Mat3AName;

impl Kindred for Mat3AName {
    open spec fn spelled() -> Seq<char> {
        "Mat3A"@
    }

    fn name() -> &'static str {
        "Mat3A"
    }
}

/// `glam::Mat3A`, as its components.
pub type Mat3A = Components<Mat3AName, Single, 9>;

/// The name of [`Mat4`].
pub struct Mat4Name;

impl Kindred for Mat4Name {
    open spec fn spelled() -> Seq<char> {
        "Mat4"@
    }

    fn name() -> &'static str {
        "Mat4"
    }
}

/// `glam::Mat4`, as its components.
pub type Mat4 = Components<Mat4Name, Single, 16>;

/// The name of [`Affine2`].
pub struct Affine2Name;

impl Kindred for Affine2Name {
    open spec fn spelled() -> Seq<char> {
        "Affine2"@
    }

    fn name() -> &'static str {
        "Affine2"
    }
}

/// `glam::Affine2`, as its components.
pub type Affine2 = Components<Affine2Name, Single, 6>;

/// The name of [`Affine3`].
pub struct Affine3Name;

impl Kindred for Affine3Name {
    open spec fn spelled() -> Seq<char> {
        "Affine3"@
    }

    fn name() -> &'static str {
        "Affine3"
    }
}

/// `glam::Affine3`, as its components.
pub type Affine3 = Components<Affine3Name, Single, 12>;

/// The name of [`Affine3A`].
pub struct Affine3AName;

impl Kindred for Affine3AName {
    open spec fn spelled() -> Seq<char> {
        "Affine3A"@
    }

    fn name() -> &'static str {
        "Affine3A"
    }
}

/// `glam::Affine3A`, as its components.
pub type Affine3A = Components<Affine3AName, Single, 12>;

/// The name of [`DMat2`].
pub struct DMat2Name;

impl Kindred for DMat2Name {
    open spec fn spelled() -> Seq<char> {
        "DMat2"@
    }

    fn name() -> &'static str {
        "DMat2"
    }
}

/// `glam::DMat2`, as its components.
pub type DMat2 = Components<DMat2Name, Double, 4>;

/// The name of [`DMat3`].
pub struct DMat3Name;

impl Kindred for DMat3Name {
    open spec fn spelled() -> Seq<char> {
        "DMat3"@
    }

    fn name() -> &'static str {
        "DMat3"
    }
}

/// `glam::DMat3`, as its components.
pub type DMat3 = Components<DMat3Name, Double, 9>;

/// The name of [`DMat4`].
pub struct DMat4Name;

impl Kindred for DMat4Name {
    open spec fn spelled() -> Seq<char> {
        "DMat4"@
    }

    fn name() -> &'static str {
        "DMat4"
    }
}

/// `glam::DMat4`, as its components.
pub type DMat4 = Components<DMat4Name, Double, 16>;

/// The name of [`DAffine2`].
pub struct DAffine2Name;

impl Kindred for DAffine2Name {
    open spec fn spelled() -> Seq<char> {
        "DAffine2"@
    }

    fn name() -> &'static str {
        "DAffine2"
    }
}

/// `glam::DAffine2`, as its components.
pub type DAffine2 = Components<DAffine2Name, Double, 6>;

/// The name of [`DAffine3`].
pub struct DAffine3Name;

impl Kindred for DAffine3Name {
    open spec fn spelled() -> Seq<char> {
        "DAffine3"@
    }

    fn name() -> &'static str {
        "DAffine3"
    }
}

/// `glam::DAffine3`, as its components.
pub type DAffine3 = Components<DAffine3Name, Double, 12>;

/// `glam::EulerRot`, the order of the rotations of Euler angles, with its
/// variants.
#[verifier::external_type_specification]
pub struct ExEulerRot(glam::EulerRot);

/// The number of rotation orders.
pub const EULER_ROT_COUNT: usize = 24;

/// The name of a rotation order.
pub open spec fn euler_name(rot: EulerRot) -> Seq<char> {
    match rot {
        EulerRot::ZYX => "ZYX"@,
        EulerRot::ZXY => "ZXY"@,
        EulerRot::YXZ => "YXZ"@,
        EulerRot::YZX => "YZX"@,
        EulerRot::XYZ => "XYZ"@,
        EulerRot::XZY => "XZY"@,
        EulerRot::ZYZ => "ZYZ"@,
        EulerRot::ZXZ => "ZXZ"@,
        EulerRot::YXY => "YXY"@,
        EulerRot::YZY => "YZY"@,
        EulerRot::XYX => "XYX"@,
        EulerRot::XZX => "XZX"@,
        EulerRot::ZYXEx => "ZYXEx"@,
        EulerRot::ZXYEx => "ZXYEx"@,
        EulerRot::YXZEx => "YXZEx"@,
        EulerRot::YZXEx => "YZXEx"@,
        EulerRot::XYZEx => "XYZEx"@,
        EulerRot::XZYEx => "XZYEx"@,
        EulerRot::ZYZEx => "ZYZEx"@,
        EulerRot::ZXZEx => "ZXZEx"@,
        EulerRot::YXYEx => "YXYEx"@,
        EulerRot::YZYEx => "YZYEx"@,
        EulerRot::XYXEx => "XYXEx"@,
        EulerRot::XZXEx => "XZXEx"@,
    }
}

/// A rotation order by its tag, which is its position in glam's declaration.
pub open spec fn euler_at(tag: nat) -> Option<EulerRot> {
    if tag == 0 {
        Some(EulerRot::ZYX)
    } else if tag == 1 {
        Some(EulerRot::ZXY)
    } else if tag == 2 {
        Some(EulerRot::YXZ)
    } else if tag == 3 {
        Some(EulerRot::YZX)
    } else if tag == 4 {
        Some(EulerRot::XYZ)
    } else if tag == 5 {
        Some(EulerRot::XZY)
    } else if tag == 6 {
        Some(EulerRot::ZYZ)
    } else if tag == 7 {
        Some(EulerRot::ZXZ)
    } else if tag == 8 {
        Some(EulerRot::YXY)
    } else if tag == 9 {
        Some(EulerRot::YZY)
    } else if tag == 10 {
        Some(EulerRot::XYX)
    } else if tag == 11 {
        Some(EulerRot::XZX)
    } else if tag == 12 {
        Some(EulerRot::ZYXEx)
    } else if tag == 13 {
        Some(EulerRot::ZXYEx)
    } else if tag == 14 {
        Some(EulerRot::YXZEx)
    } else if tag == 15 {
        Some(EulerRot::YZXEx)
    } else if tag == 16 {
        Some(EulerRot::XYZEx)
    } else if tag == 17 {
        Some(EulerRot::XZYEx)
    } else if tag == 18 {
        Some(EulerRot::ZYZEx)
    } else if tag == 19 {
        Some(EulerRot::ZXZEx)
    } else if tag == 20 {
        Some(EulerRot::YXYEx)
    } else if tag == 21 {
        Some(EulerRot::YZYEx)
    } else if tag == 22 {
        Some(EulerRot::XYXEx)
    } else if tag == 23 {
        Some(EulerRot::XZXEx)
    } else {
        None
    }
}

/// The tag of a rotation order.
pub open spec fn euler_tag(rot: EulerRot) -> nat {
    match rot {
        EulerRot::ZYX => 0,
        EulerRot::ZXY => 1,
        EulerRot::YXZ => 2,
        EulerRot::YZX => 3,
        EulerRot::XYZ => 4,
        EulerRot::XZY => 5,
        EulerRot::ZYZ => 6,
        EulerRot::ZXZ => 7,
        EulerRot::YXY => 8,
        EulerRot::YZY => 9,
        EulerRot::XYX => 10,
        EulerRot::XZX => 11,
        EulerRot::ZYXEx => 12,
        EulerRot::ZXYEx => 13,
        EulerRot::YXZEx => 14,
        EulerRot::YZXEx => 15,
        EulerRot::XYZEx => 16,
        EulerRot::XZYEx => 17,
        EulerRot::ZYZEx => 18,
        EulerRot::ZXZEx => 19,
        EulerRot::YXYEx => 20,
        EulerRot::YZYEx => 21,
        EulerRot::XYXEx => 22,
        EulerRot::XZXEx => 23,
    }
}

/// The two directions agree on every tag.
pub proof fn lemma_euler_tags(rot: EulerRot, tag: nat)
    ensures
        euler_at(tag) == Some(rot) <==> tag == euler_tag(rot),
{
}

/// The position in glam's declaration.
pub fn euler_rot_tag(rot: EulerRot) -> (result: u64)
    ensures
        result == euler_tag(rot),
{
    match rot {
        EulerRot::ZYX => 0,
        EulerRot::ZXY => 1,
        EulerRot::YXZ => 2,
        EulerRot::YZX => 3,
        EulerRot::XYZ => 4,
        EulerRot::XZY => 5,
        EulerRot::ZYZ => 6,
        EulerRot::ZXZ => 7,
        EulerRot::YXY => 8,
        EulerRot::YZY => 9,
        EulerRot::XYX => 10,
        EulerRot::XZX => 11,
        EulerRot::ZYXEx => 12,
        EulerRot::ZXYEx => 13,
        EulerRot::YXZEx => 14,
        EulerRot::YZXEx => 15,
        EulerRot::XYZEx => 16,
        EulerRot::XZYEx => 17,
        EulerRot::ZYZEx => 18,
        EulerRot::ZXZEx => 19,
        EulerRot::YXYEx => 20,
        EulerRot::YZYEx => 21,
        EulerRot::XYXEx => 22,
        EulerRot::XZXEx => 23,
    }
}

/// The rotation order with this tag.
pub fn euler_rot_at(tag: u64) -> (result: Option<EulerRot>)
    ensures
        result == euler_at(tag as nat),
{
    match tag {
        0 => Some(EulerRot::ZYX),
        1 => Some(EulerRot::ZXY),
        2 => Some(EulerRot::YXZ),
        3 => Some(EulerRot::YZX),
        4 => Some(EulerRot::XYZ),
        5 => Some(EulerRot::XZY),
        6 => Some(EulerRot::ZYZ),
        7 => Some(EulerRot::ZXZ),
        8 => Some(EulerRot::YXY),
        9 => Some(EulerRot::YZY),
        10 => Some(EulerRot::XYX),
        11 => Some(EulerRot::XZX),
        12 => Some(EulerRot::ZYXEx),
        13 => Some(EulerRot::ZXYEx),
        14 => Some(EulerRot::YXZEx),
        15 => Some(EulerRot::YZXEx),
        16 => Some(EulerRot::XYZEx),
        17 => Some(EulerRot::XZYEx),
        18 => Some(EulerRot::ZYZEx),
        19 => Some(EulerRot::ZXZEx),
        20 => Some(EulerRot::YXYEx),
        21 => Some(EulerRot::YZYEx),
        22 => Some(EulerRot::XYXEx),
        23 => Some(EulerRot::XZXEx),
        _ => None,
    }
}

/// The name.
pub fn euler_rot_name(rot: EulerRot) -> (result: &'static str)
    ensures
        result@ == euler_name(rot),
{
    match rot {
        EulerRot::ZYX => "ZYX",
        EulerRot::ZXY => "ZXY",
        EulerRot::YXZ => "YXZ",
        EulerRot::YZX => "YZX",
        EulerRot::XYZ => "XYZ",
        EulerRot::XZY => "XZY",
        EulerRot::ZYZ => "ZYZ",
        EulerRot::ZXZ => "ZXZ",
        EulerRot::YXY => "YXY",
        EulerRot::YZY => "YZY",
        EulerRot::XYX => "XYX",
        EulerRot::XZX => "XZX",
        EulerRot::ZYXEx => "ZYXEx",
        EulerRot::ZXYEx => "ZXYEx",
        EulerRot::YXZEx => "YXZEx",
        EulerRot::YZXEx => "YZXEx",
        EulerRot::XYZEx => "XYZEx",
        EulerRot::XZYEx => "XZYEx",
        EulerRot::ZYZEx => "ZYZEx",
        EulerRot::ZXZEx => "ZXZEx",
        EulerRot::YXYEx => "YXYEx",
        EulerRot::YZYEx => "YZYEx",
        EulerRot::XYXEx => "XYXEx",
        EulerRot::XZXEx => "XZXEx",
    }
}

/// The names of all rotation orders, in order.
pub open spec fn euler_names() -> Seq<Seq<char>> {
    Seq::new(EULER_ROT_COUNT as nat, |i: int| euler_name(euler_at(i as nat)->0))
}

impl StaticSchema for EulerRot {
    open spec fn node() -> Shape {
        Shape {
            kind: Kind::Enum,
            name: "EulerRot"@,
            labels: euler_names(),
            kids: copies(leaf(Kind::UnitVariant, seq![]), EULER_ROT_COUNT as nat),
        }
    }

    proof fn lemma_node() {
        assert(leaf(Kind::UnitVariant, seq![]).well_formed());
    }

    fn schema_node() -> SchemaNode {
        let mut variants: Vec<(String, VariantNode)> = Vec::new();
        let mut tag: u64 = 0;
        while tag < EULER_ROT_COUNT as u64
            invariant
                tag <= EULER_ROT_COUNT,
                variants@.len() == tag,
                forall|j: int| 0 <= j < tag ==> (#[trigger] variants@[j]).0@ == euler_names()[j],
                forall|j: int| 0 <= j < tag ==> (#[trigger] variants@[j]).1 == VariantNode::Unit,
            decreases EULER_ROT_COUNT - tag,
        {
            match euler_rot_at(tag) {
                Some(rot) => variants.push((euler_rot_name(rot).to_owned(), VariantNode::Unit)),
                None => {},
            }
            tag += 1;
        }
        assert(labels(variants@) =~= Self::node().labels);
        assert(variant_shapes(variants@) =~= Self::node().kids);
        SchemaNode::Enum { name: "EulerRot".to_owned(), variants }
    }

    fn columns() -> usize {
        proof {
            lemma_euler_columns();
        }
        1
    }

    fn fixed_width() -> Option<usize> {
        None
    }
}

/// One tag column and no payload.
proof fn lemma_euler_columns()
    ensures
        width_of(EulerRot::node()) == 1,
{
    let unit = leaf(Kind::UnitVariant, seq![]);
    assert(columns_before(unit, 0) == 0);
    assert(width_of(unit) == 0);
    lemma_copies_columns(EulerRot::node(), unit, EULER_ROT_COUNT as nat);
    assert(EULER_ROT_COUNT as nat * 0 == 0) by (nonlinear_arith);
}

impl Modeled for EulerRot {
    open spec fn val(&self, w: Walk) -> Val {
        atom(Head::UnitVariant(euler_tag(*self) as u64, euler_name(*self)))
    }
}

impl SerializeColumns for EulerRot {
    open spec fn writes(&self) -> bool {
        true
    }

    open spec fn image(&self, w: Walk) -> Seq<Seq<u8>> {
        seq![varint::encoded(euler_tag(*self))]
    }

    proof fn lemma_image(&self, w: Walk, base: nat, row: Row) {
        lemma_euler_columns();
        let tag = euler_tag(*self);
        assert(Self::node().labels[tag as int] == euler_name(*self));
        assert(find_variant(Self::node().labels, tag as u64, euler_name(*self)) == Some(tag));
        lemma_stamp_append(row, base, varint::encoded(tag));
    }

    fn serialize_columns(&self, columns: &mut [Vec<u8>]) -> (result: Result<()>) {
        proof {
            lemma_euler_columns();
        }
        write_varint(&mut columns[0], euler_rot_tag(*self));
        assert(self.image(straight()).len() == 1);
        Ok(())
    }
}

impl<'de> DeserializeColumns<'de> for EulerRot {
    open spec fn sound() -> bool {
        true
    }

    open spec fn read(cur: Cur) -> std::result::Result<(Val, Cur), Fault> {
        match cur.varint(0) {
            Ok((tag, next)) => match euler_at(tag) {
                Some(rot) => Ok((rot.val(straight()), next)),
                None => Err(Fault::InvalidTag("enum variant"@, tag as u64)),
            },
            Err(fault) => Err(fault),
        }
    }

    proof fn lemma_read(base: nat, cur: Cur) {
        lemma_euler_columns();
        let s = Self::node();
        let part = window(cur, base, 1);
        assert(part.rest(0) =~= cur.rest(base));
        let (tag, used) = varint::decoded(part.rest(0))->Ok_0;
        let next = part.advance(0, used);
        let other = cur.advance(base, used);
        assert(other.pos =~= rejoin(cur, base, next).pos);
        assert(variant_tag(s.kids.len(), base, cur) == Ok::<(nat, Cur), Fault>((tag, other)));
        let k = s.kids[tag as int];
        assert(k == leaf(Kind::UnitVariant, seq![]));
        assert(get_fields(k, kid_base(s, base, tag), other, 0) == Ok::<(Seq<Val>, Cur), Fault>(
            (seq![], other),
        ));
        lemma_euler_tags(euler_at(tag)->0, tag);
        assert(s.labels[tag as int] == euler_name(euler_at(tag)->0));
        assert(variant_head(s, tag) == (euler_at(tag)->0).val(straight()).head);
    }

    fn deserialize_columns(cursors: &mut [ColumnCursor<'de>]) -> (result: Result<Self>) {
        proof {
            lemma_euler_columns();
        }
        match read_varint(cursors, 0, Ghost(nothing(1))) {
            Ok(tag) => match euler_rot_at(tag) {
                Some(rot) => Ok(rot),
                None => Err(invalid_variant(tag)),
            },
            Err(error) => Err(error),
        }
    }
}

impl<'de> RoundTrip<'de> for EulerRot {
    proof fn lemma_read_back(&self, w: Walk, cur: Cur) {
        lemma_euler_columns();
        let tag = euler_tag(*self);
        let image = self.image(w);
        let code = varint::encoded(tag);
        assert(image[0] == code);
        assert(prefix(image[0], cur.rest(0)));
        let tail = cur.rest(0).subrange(code.len() as int, cur.rest(0).len() as int);
        assert(cur.rest(0) =~= code + tail);
        varint::lemma_decode_encode(tag as u64, tail);
        lemma_euler_tags(*self, tag);
        assert(cur.advance(0, code.len()).pos =~= passed(cur, image).pos);
    }
}

} // verus!
