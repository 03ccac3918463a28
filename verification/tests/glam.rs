//! The types of `glam`.

use carbonite::float::{Double, Single};
use carbonite::glam_types::{
    euler_rot_at, euler_rot_name, euler_rot_tag, Affine2, Affine3, Affine3A, BVec2, BVec3, BVec4,
    Components, DAffine2, DAffine3, DMat2, DMat3, DMat4, DQuat, DVec2, DVec3, DVec4, I16Vec2,
    I16Vec3, I16Vec4, I64Vec2, I64Vec3, I64Vec4, I8Vec2, I8Vec3, I8Vec4, ISizeVec2, ISizeVec3, ISizeVec4, IVec2, IVec3, IVec4, Kindred,
    Mat2, Mat3, Mat3A, Mat4, Quat, U16Vec2, U16Vec3, U16Vec4, U64Vec2, U64Vec3, U64Vec4, U8Vec2,
    U8Vec3, U8Vec4, USizeVec2, USizeVec3, USizeVec4, UVec2, UVec3, UVec4, Vec2, Vec3, Vec3A, Vec4,
    EULER_ROT_COUNT,
};
use carbonite::layout::Layout;
use carbonite::value::{Scalar, Value};
use carbonite::{
    ColumnCursor, Deserializer, DeserializeColumns, Error, Primitive, SchemaNode,
    SerializeColumns, Serializer, StaticSchema, VariantNode,
};
use glam::EulerRot;

/// `columns()` must equal what the layout builder derives from the same
/// type's schema tree, which the columnar paths index off.
fn assert_columns_agree<T: StaticSchema>() {
    assert_eq!(
        T::columns(),
        Layout::new(&T::schema_node()).columns,
        "columns() disagrees with the layout of {}",
        T::schema_node().describe(),
    );
}

#[test]
fn glam_column_counts_match_the_layout() {
    assert_columns_agree::<Vec2>();
    assert_columns_agree::<Vec3A>();
    assert_columns_agree::<DVec4>();
    assert_columns_agree::<BVec3>();
    assert_columns_agree::<USizeVec2>();
    assert_columns_agree::<Quat>();
    assert_columns_agree::<Mat4>();
    assert_columns_agree::<Affine3A>();
    assert_columns_agree::<EulerRot>();
}

#[test]
fn vectors_are_tuple_structs_of_components() {
    assert_eq!(
        Vec3::schema_node(),
        SchemaNode::TupleStruct {
            name: "Vec3".to_owned(),
            fields: vec![SchemaNode::Primitive(Primitive::F32); 3],
        }
    );
    assert_eq!(Vec3::columns(), 3);

    // serde puts usize on the wire as u64, so the mirror does too.
    assert_eq!(
        USizeVec2::schema_node(),
        SchemaNode::TupleStruct {
            name: "USizeVec2".to_owned(),
            fields: vec![SchemaNode::Primitive(Primitive::U64); 2],
        }
    );
}

#[test]
fn euler_rot_is_a_unit_only_enum() {
    let SchemaNode::Enum { name, variants } = EulerRot::schema_node() else {
        panic!("expected an enum schema");
    };
    assert_eq!(name, "EulerRot");
    assert_eq!(variants.len(), 24);
    assert_eq!(variants[0].0, "ZYX");
    assert_eq!(variants[23].0, "XZXEx");
    assert!(variants
        .iter()
        .all(|(_, shape)| *shape == VariantNode::Unit));
}

/// Tags are positions in glam's declaration, so the two directions have to
/// agree on every one of them.
#[test]
fn euler_rot_tags_round_trip() {
    assert_eq!(EULER_ROT_COUNT, 24);
    for index in 0..24u8 {
        let rot = euler_rot_at(u64::from(index)).unwrap();
        let mut columns = vec![Vec::new()];
        rot.serialize_columns(&mut columns).unwrap();
        assert_eq!(columns[0], [index]);

        let mut cursors = [ColumnCursor::new(&columns[0])];
        assert_eq!(EulerRot::deserialize_columns(&mut cursors).unwrap(), rot);
    }
    assert!(euler_rot_at(24).is_none());
    let mut cursors = [ColumnCursor::new(&[24])];
    assert!(matches!(
        EulerRot::deserialize_columns(&mut cursors),
        Err(Error::InvalidTag {
            what: "enum variant",
            value: 24
        })
    ));
}

/// A value that can present itself as a tree.
trait Presents {
    fn present(&self) -> Value;
}

fn scalar(x: Scalar) -> Value {
    Value::Scalar(x)
}

impl Presents for bool {
    fn present(&self) -> Value {
        scalar(Scalar::Bool(*self))
    }
}

impl Presents for i8 {
    fn present(&self) -> Value {
        scalar(Scalar::I8(*self))
    }
}

impl Presents for i16 {
    fn present(&self) -> Value {
        scalar(Scalar::I16(*self))
    }
}

impl Presents for i32 {
    fn present(&self) -> Value {
        scalar(Scalar::I32(*self))
    }
}

impl Presents for i64 {
    fn present(&self) -> Value {
        scalar(Scalar::I64(*self))
    }
}

impl Presents for isize {
    fn present(&self) -> Value {
        scalar(Scalar::I64(*self as i64))
    }
}

impl Presents for u8 {
    fn present(&self) -> Value {
        scalar(Scalar::U8(*self))
    }
}

impl Presents for u16 {
    fn present(&self) -> Value {
        scalar(Scalar::U16(*self))
    }
}

impl Presents for u32 {
    fn present(&self) -> Value {
        scalar(Scalar::U32(*self))
    }
}

impl Presents for u64 {
    fn present(&self) -> Value {
        scalar(Scalar::U64(*self))
    }
}

impl Presents for usize {
    fn present(&self) -> Value {
        scalar(Scalar::U64(*self as u64))
    }
}

impl Presents for Single {
    fn present(&self) -> Value {
        scalar(Scalar::F32(self.0))
    }
}

impl Presents for Double {
    fn present(&self) -> Value {
        scalar(Scalar::F64(self.0))
    }
}

impl<K: Kindred, T: Presents, const N: usize> Presents for Components<K, T, N> {
    fn present(&self) -> Value {
        Value::TupleStruct {
            name: K::name().to_owned(),
            fields: self.parts.iter().map(Presents::present).collect(),
        }
    }
}

impl Presents for EulerRot {
    fn present(&self) -> Value {
        Value::UnitVariant {
            index: euler_rot_tag(*self),
            variant: euler_rot_name(*self).to_owned(),
        }
    }
}

impl<T: Presents> Presents for Vec<T> {
    fn present(&self) -> Value {
        Value::Sequence(self.iter().map(Presents::present).collect())
    }
}

impl<T: Presents> Presents for Option<T> {
    fn present(&self) -> Value {
        match self {
            Some(x) => Value::Present(Box::new(x.present())),
            None => Value::Absent,
        }
    }
}

impl<A: Presents, B: Presents, C: Presents> Presents for (A, B, C) {
    fn present(&self) -> Value {
        Value::Tuple(vec![self.0.present(), self.1.present(), self.2.present()])
    }
}

impl Presents for Entity {
    fn present(&self) -> Value {
        Value::Tuple(vec![
            self.0.present(),
            self.1.present(),
            self.2.present(),
            self.3.present(),
            self.4.present(),
            self.5.present(),
        ])
    }
}

/// The full contract for one type: both writers emit identical bytes, and both
/// readers recover the value.
fn assert_supported<T>(value: T)
where
    T: SerializeColumns + for<'de> DeserializeColumns<'de> + Presents,
{
    let schema = T::schema();
    let ser = Serializer::new(&schema);
    let driven = ser.to_vec(&value.present()).unwrap();
    let columnar = ser.to_vec_columns(&value).unwrap();
    assert_eq!(driven, columnar);

    let de = Deserializer::new_static(T::schema());
    assert!(de.uses_fast_path());
    assert_eq!(de.from_slice(&driven).unwrap(), value.present());
    let back: T = de.from_slice_columns(&driven).unwrap();
    assert_eq!(back.present(), value.present());
}

fn singles<const N: usize>(xs: [f32; N]) -> [Single; N] {
    xs.map(|x| Single(x.to_bits()))
}

fn doubles<const N: usize>(xs: [f64; N]) -> [Double; N] {
    xs.map(|x| Double(x.to_bits()))
}

#[test]
fn float_vectors_are_supported() {
    assert_supported(Vec2::new(singles([1.5, -2.25])));
    assert_supported(Vec3::new(singles([1.5, -2.25, f32::MAX])));
    assert_supported(Vec3A::new(singles([0.0, -0.5, 7.75])));
    assert_supported(Vec4::new(singles([1.5, -2.25, 3.0, f32::MIN_POSITIVE])));
    assert_supported(DVec2::new(doubles([1.5, -2.25])));
    assert_supported(DVec3::new(doubles([1.5, -2.25, f64::MAX])));
    assert_supported(DVec4::new(doubles([1.5, -2.25, 3.0, -0.0])));
}

#[test]
fn signed_integer_vectors_are_supported() {
    assert_supported(I8Vec2::new([i8::MIN, 7]));
    assert_supported(I8Vec3::new([-1, 0, i8::MAX]));
    assert_supported(I8Vec4::new([-1, 0, 1, 2]));
    assert_supported(I16Vec2::new([i16::MIN, 7]));
    assert_supported(I16Vec3::new([-1, 0, i16::MAX]));
    assert_supported(I16Vec4::new([-1, 0, 1, 2]));
    assert_supported(IVec2::new([i32::MIN, 7]));
    assert_supported(IVec3::new([-1, 0, i32::MAX]));
    assert_supported(IVec4::new([-1, 0, 1, 2]));
    assert_supported(I64Vec2::new([i64::MIN, 7]));
    assert_supported(I64Vec3::new([-1, 0, i64::MAX]));
    assert_supported(I64Vec4::new([-1, 0, 1, 2]));
    assert_supported(ISizeVec2::new([isize::MIN, 7]));
    assert_supported(ISizeVec3::new([-1, 0, isize::MAX]));
    assert_supported(ISizeVec4::new([-1, 0, 1, 2]));
}

#[test]
fn unsigned_integer_vectors_are_supported() {
    assert_supported(U8Vec2::new([0, u8::MAX]));
    assert_supported(U8Vec3::new([1, 2, 3]));
    assert_supported(U8Vec4::new([1, 2, 3, 4]));
    assert_supported(U16Vec2::new([0, u16::MAX]));
    assert_supported(U16Vec3::new([1, 2, 3]));
    assert_supported(U16Vec4::new([1, 2, 3, 4]));
    assert_supported(UVec2::new([0, u32::MAX]));
    assert_supported(UVec3::new([1, 2, 3]));
    assert_supported(UVec4::new([1, 2, 3, 4]));
    assert_supported(U64Vec2::new([0, u64::MAX]));
    assert_supported(U64Vec3::new([1, 2, 3]));
    assert_supported(U64Vec4::new([1, 2, 3, 4]));
    assert_supported(USizeVec2::new([0, usize::MAX]));
    assert_supported(USizeVec3::new([1, 2, 3]));
    assert_supported(USizeVec4::new([1, 2, 3, 4]));
}

#[test]
fn bool_vectors_are_supported() {
    assert_supported(BVec2::new([true, false]));
    assert_supported(BVec3::new([false, true, true]));
    assert_supported(BVec4::new([true, false, false, true]));
}

#[test]
fn quaternions_are_supported() {
    assert_supported(Quat::new(singles([0.5, -0.5, 0.5, 0.5])));
    assert_supported(DQuat::new(doubles([0.5, -0.5, 0.5, 0.5])));
}

#[test]
fn matrices_are_supported() {
    let nine = [1.0, 2.0, 3.0, 4.0, 5.0, 6.0, 7.0, 8.0, 9.0];
    let sixteen = [
        1.0, 2.0, 3.0, 4.0, 5.0, 6.0, 7.0, 8.0, 9.0, 10.0, 11.0, 12.0, 13.0, 14.0, 15.0, 16.0,
    ];
    assert_supported(Mat2::new(singles([1.0, 2.0, 3.0, 4.0])));
    assert_supported(Mat3::new(singles(nine)));
    assert_supported(Mat3A::new(singles(nine)));
    assert_supported(Mat4::new(singles(sixteen)));
    let nine = nine.map(f64::from);
    let sixteen = sixteen.map(f64::from);
    assert_supported(DMat2::new(doubles([1.0, 2.0, 3.0, 4.0])));
    assert_supported(DMat3::new(doubles(nine)));
    assert_supported(DMat4::new(doubles(sixteen)));
}

#[test]
fn affine_transforms_are_supported() {
    let six = [1.0, 0.5, -0.5, 1.0, 3.0, 4.0];
    let twelve = [
        1.0, 0.0, 0.0, 0.0, 2.0, 0.0, 0.0, 0.0, 3.0, 4.0, 5.0, 6.0,
    ];
    assert_supported(Affine2::new(singles(six)));
    assert_supported(Affine3::new(singles(twelve)));
    assert_supported(Affine3A::new(singles(twelve)));
    assert_supported(DAffine2::new(doubles(six.map(f64::from))));
    assert_supported(DAffine3::new(doubles(twelve.map(f64::from))));
}

#[test]
fn euler_rot_is_supported() {
    // Every variant, so that the tags are checked against the schema's order.
    for rot in [
        EulerRot::ZYX,
        EulerRot::ZXY,
        EulerRot::YXZ,
        EulerRot::YZX,
        EulerRot::XYZ,
        EulerRot::XZY,
        EulerRot::ZYZ,
        EulerRot::ZXZ,
        EulerRot::YXY,
        EulerRot::YZY,
        EulerRot::XYX,
        EulerRot::XZX,
        EulerRot::ZYXEx,
        EulerRot::ZXYEx,
        EulerRot::YXZEx,
        EulerRot::YZXEx,
        EulerRot::XYZEx,
        EulerRot::XZYEx,
        EulerRot::ZYZEx,
        EulerRot::ZXZEx,
        EulerRot::YXYEx,
        EulerRot::YZYEx,
        EulerRot::XYXEx,
        EulerRot::XZXEx,
    ] {
        assert_supported(rot);
    }
}

#[test]
fn glam_types_nest_in_containers() {
    assert_supported(vec![
        Vec3::new(singles([1.0, 2.0, 3.0])),
        Vec3::new(singles([-1.0, -2.0, -3.0])),
    ]);
    assert_supported(Some(Quat::new(singles([0.0, 0.0, 0.0, 1.0]))));
    assert_supported((
        Vec2::new(singles([1.0, 1.0])),
        Mat2::new(singles([1.0, 0.0, 0.0, 1.0])),
        EulerRot::XYZ,
    ));
    assert_supported(vec![Option::<IVec2>::None, Some(IVec2::new([3, 4]))]);
}

/// Translation, rotation and scale.
type Transform = (Vec3, Quat, Vec3);

/// An id, a transform, a tint, what is visible, a matrix and an order.
type Entity = (u32, Transform, U8Vec4, BVec3, Affine3A, EulerRot);

fn entity() -> Entity {
    (
        7,
        (
            Vec3::new(singles([1.0, 2.0, 3.0])),
            Quat::new(singles([0.0, 0.0, 0.0, 1.0])),
            Vec3::new(singles([2.0, 2.0, 2.0])),
        ),
        U8Vec4::new([255, 128, 64, 32]),
        BVec3::new([true, false, true]),
        Affine3A::new(singles([
            0.5, 0.0, 0.0, 0.0, 0.5, 0.0, 0.0, 0.0, 0.5, 0.0, 0.0, 0.0,
        ])),
        EulerRot::YXZ,
    )
}

/// A type of several fields holds glam fields directly.
#[test]
fn derived_types_hold_glam_fields() {
    assert_supported(entity());
    assert_supported(vec![entity(), entity()]);
}

/// A `Vec<Vec3>` is what the fast path is for: three contiguous runs, one
/// column each, and no schema interpretation per element.
#[test]
fn vectors_of_vectors_are_column_oriented() {
    let points: Vec<Vec3> = (0..64u8)
        .map(|i| {
            let x = f32::from(i);
            Vec3::new(singles([x, x * 2.0, x * 3.0]))
        })
        .collect();

    let schema = <Vec<Vec3>>::schema();
    // Length column plus one column per component.
    assert_eq!(<Vec<Vec3>>::columns(), 4);

    let blob = Serializer::new(&schema).to_vec_columns(&points).unwrap();
    let back: Vec<Vec3> = Deserializer::new_static(schema)
        .from_slice_columns(&blob)
        .unwrap();
    assert_eq!(back.present(), points.present());
}

#[test]
fn components_stand_column_by_column() {
    let schema = <Vec<IVec3>>::schema();
    let value = vec![IVec3::new([1, 2, 3]), IVec3::new([4, 5, 6])];
    let blob = Serializer::new(&schema).to_vec_columns(&value).unwrap();
    assert_eq!(
        blob,
        [
            1, 4, 1, 8, 8, 8, // one row, four columns and their lengths
            2, // two vectors
            1, 0, 0, 0, 4, 0, 0, 0, // x
            2, 0, 0, 0, 5, 0, 0, 0, // y
            3, 0, 0, 0, 6, 0, 0, 0, // z
        ]
    );
}

/// Nothing glam-specific reaches the data layer: a `Vec3` occupies the same
/// columns and bytes as any other tuple struct of three floats.
#[test]
fn blobs_carry_nothing_glam_specific() {
    let parts = singles([1.5, -2.5, 3.5]);
    let from_glam = Serializer::new(&Vec3::schema())
        .to_vec_columns(&Vec3::new(parts))
        .unwrap();
    let schema = carbonite::Schema::<()>::from_node(SchemaNode::TupleStruct {
        name: "Point".to_owned(),
        fields: vec![SchemaNode::Primitive(Primitive::F32); 3],
    });
    let point = Value::TupleStruct {
        name: "Point".to_owned(),
        fields: parts.iter().map(Presents::present).collect(),
    };
    assert_eq!(Serializer::new(&schema).to_vec(&point).unwrap(), from_glam);
    assert_eq!(
        Deserializer::<()>::new_untraced(schema)
            .from_slice(&from_glam)
            .unwrap(),
        point
    );
}
