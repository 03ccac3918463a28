//! The mathematical view of a schema: a labelled tree.

use vstd::prelude::*;

use crate::schema::Primitive;
use crate::text::decimal;

verus! {

/// What a schema position is.
pub enum Kind {
    Primitive(Primitive),
    String,
    Bytes,
    Unit,
    Option,
    UnitStruct,
    NewtypeStruct,
    Sequence,
    Tuple,
    TupleStruct,
    Mapping,
    Struct,
    Enum,
    Shared,
    UnitVariant,
    NewtypeVariant,
    TupleVariant,
    StructVariant,
}

/// A schema as a tree. `name` is the type name where the kind has one,
/// `labels` names the children where the kind names them (one label for each
/// child); otherwise both are empty.
pub struct Shape {
    pub kind: Kind,
    pub name: Seq<char>,
    pub labels: Seq<Seq<char>>,
    pub kids: Seq<Shape>,
}

/// Whether a kind carries a type name.
pub open spec fn has_name(kind: Kind) -> bool {
    match kind {
        Kind::UnitStruct
        | Kind::NewtypeStruct
        | Kind::TupleStruct
        | Kind::Struct
        | Kind::Enum => true,
        _ => false,
    }
}

/// Whether a kind names its children.
pub open spec fn has_labels(kind: Kind) -> bool {
    match kind {
        Kind::Struct | Kind::Enum | Kind::StructVariant => true,
        _ => false,
    }
}

/// Whether a kind has any number of children, rather than a fixed one.
pub open spec fn is_counted(kind: Kind) -> bool {
    match kind {
        Kind::Tuple
        | Kind::TupleStruct
        | Kind::Struct
        | Kind::Enum
        | Kind::TupleVariant
        | Kind::StructVariant => true,
        _ => false,
    }
}

/// The number of children of a kind that has a fixed number.
pub open spec fn fixed_kids(kind: Kind) -> nat {
    match kind {
        Kind::Option | Kind::NewtypeStruct | Kind::Sequence | Kind::Shared | Kind::NewtypeVariant => 1,
        Kind::Mapping => 2,
        _ => 0,
    }
}

/// Whether a kind is the shape of an enum variant.
pub open spec fn is_variant(kind: Kind) -> bool {
    match kind {
        Kind::UnitVariant | Kind::NewtypeVariant | Kind::TupleVariant | Kind::StructVariant => true,
        _ => false,
    }
}

/// A tree without children.
pub open spec fn leaf(kind: Kind, name: Seq<char>) -> Shape {
    node(kind, name, seq![])
}

/// A tree without labels.
pub open spec fn node(kind: Kind, name: Seq<char>, kids: Seq<Shape>) -> Shape {
    Shape { kind, name, labels: seq![], kids }
}

/// The name of a primitive.
pub open spec fn primitive_name(p: Primitive) -> Seq<char> {
    match p {
        Primitive::Bool => "bool"@,
        Primitive::I8 => "i8"@,
        Primitive::I16 => "i16"@,
        Primitive::I32 => "i32"@,
        Primitive::I64 => "i64"@,
        Primitive::I128 => "i128"@,
        Primitive::U8 => "u8"@,
        Primitive::U16 => "u16"@,
        Primitive::U32 => "u32"@,
        Primitive::U64 => "u64"@,
        Primitive::U128 => "u128"@,
        Primitive::F32 => "f32"@,
        Primitive::F64 => "f64"@,
        Primitive::Char => "char"@,
    }
}

/// Encoded width in bytes of one value of a primitive.
pub open spec fn primitive_width(p: Primitive) -> nat {
    match p {
        Primitive::Bool | Primitive::I8 | Primitive::U8 => 1,
        Primitive::I16 | Primitive::U16 => 2,
        Primitive::I32 | Primitive::U32 | Primitive::F32 | Primitive::Char => 4,
        Primitive::I64 | Primitive::U64 | Primitive::F64 => 8,
        Primitive::I128 | Primitive::U128 => 16,
    }
}

/// A short human-readable description of a schema, as error messages give it.
pub open spec fn description(s: Shape) -> Seq<char>
    decreases s,
{
    match s.kind {
        Kind::Primitive(p) => primitive_name(p),
        Kind::String => "string"@,
        Kind::Bytes => "bytes"@,
        Kind::Unit => "unit"@,
        Kind::Option => if s.kids.len() > 0 {
            "option<"@ + description(s.kids[0]) + ">"@
        } else {
            seq![]
        },
        Kind::UnitStruct => "unit struct `"@ + s.name + "`"@,
        Kind::NewtypeStruct => "newtype struct `"@ + s.name + "`"@,
        Kind::Sequence => "sequence"@,
        Kind::Tuple => decimal(s.kids.len()) + "-tuple"@,
        Kind::TupleStruct => "tuple struct `"@ + s.name + "`"@,
        Kind::Mapping => "map"@,
        Kind::Struct => "struct `"@ + s.name + "`"@,
        Kind::Enum => "enum `"@ + s.name + "`"@,
        Kind::Shared => if s.kids.len() > 0 {
            "shared<"@ + description(s.kids[0]) + ">"@
        } else {
            seq![]
        },
        Kind::UnitVariant => "unit variant"@,
        Kind::NewtypeVariant => "newtype variant"@,
        Kind::TupleVariant => "tuple variant"@,
        Kind::StructVariant => "struct variant"@,
    }
}

impl Shape {
    /// The tree has the arity, names and labels that its kinds call for, and
    /// variants stand exactly below enums.
    pub open spec fn well_formed(self) -> bool
        decreases self,
    {
        &&& !has_name(self.kind) ==> self.name.len() == 0
        &&& self.labels.len() == if has_labels(self.kind) {
            self.kids.len()
        } else {
            0
        }
        &&& !is_counted(self.kind) ==> self.kids.len() == fixed_kids(self.kind)
        &&& forall|i: int|
            0 <= i < self.kids.len() ==> {
                &&& (#[trigger] self.kids[i]).well_formed()
                &&& is_variant(self.kids[i].kind) == (self.kind is Enum)
            }
    }

    /// The height of the tree: one for a leaf.
    pub open spec fn height(self) -> nat
        decreases self, self.kids.len() + 1,
    {
        1 + self.kids_height(self.kids.len())
    }

    /// The greatest height among the first `n` children.
    pub open spec fn kids_height(self, n: nat) -> nat
        decreases self, n,
    {
        if n == 0 || n > self.kids.len() {
            0
        } else {
            let before = self.kids_height((n - 1) as nat);
            let last = self.kids[n - 1].height();
            if before >= last {
                before
            } else {
                last
            }
        }
    }
}


/// The columns that a position owns itself.
pub open spec fn own_columns(kind: Kind) -> nat {
    match kind {
        Kind::Primitive(_)
        | Kind::Option
        | Kind::Sequence
        | Kind::Mapping
        | Kind::Enum
        | Kind::Shared => 1,
        Kind::String | Kind::Bytes => 2,
        _ => 0,
    }
}

/// The number of columns of a schema: its own and its children's.
pub open spec fn width_of(s: Shape) -> nat
    decreases s, s.kids.len() + 1,
{
    own_columns(s.kind) + columns_before(s, s.kids.len())
}

/// The number of columns of the first `n` children.
pub open spec fn columns_before(s: Shape, n: nat) -> nat
    decreases s, n,
{
    if n == 0 || n > s.kids.len() {
        0
    } else {
        columns_before(s, (n - 1) as nat) + width_of(s.kids[n - 1])
    }
}

/// Where the columns of child `i` start, for a position whose own columns
/// start at `base`: columns are numbered in pre-order.
pub open spec fn kid_base(s: Shape, base: nat, i: nat) -> nat {
    base + own_columns(s.kind) + columns_before(s, i)
}

/// The columns of the first children are part of the columns of more.
pub proof fn lemma_columns_before_mono(s: Shape, i: nat, n: nat)
    requires
        i <= n <= s.kids.len(),
    ensures
        columns_before(s, i) <= columns_before(s, n),
    decreases n,
{
    if i < n {
        lemma_columns_before_mono(s, i, (n - 1) as nat);
    }
}

/// The columns of a child lie within those of its parent.
pub proof fn lemma_kid_columns(s: Shape, i: nat)
    requires
        i < s.kids.len(),
    ensures
        own_columns(s.kind) + columns_before(s, i) + width_of(s.kids[i as int]) <= width_of(s),
        columns_before(s, i + 1) == columns_before(s, i) + width_of(s.kids[i as int]),
{
    lemma_columns_before_mono(s, i + 1, s.kids.len());
}

/// The columns of a position with a single child.
pub proof fn lemma_one_kid_columns(s: Shape)
    requires
        s.kids.len() == 1,
    ensures
        columns_before(s, 0) == 0,
        columns_before(s, 1) == width_of(s.kids[0]),
        width_of(s) == own_columns(s.kind) + width_of(s.kids[0]),
{
    reveal_with_fuel(columns_before, 2);
}

/// The columns of a position with two children.
pub proof fn lemma_two_kids_columns(s: Shape)
    requires
        s.kids.len() == 2,
    ensures
        columns_before(s, 0) == 0,
        columns_before(s, 1) == width_of(s.kids[0]),
        columns_before(s, 2) == width_of(s.kids[0]) + width_of(s.kids[1]),
        width_of(s) == own_columns(s.kind) + width_of(s.kids[0]) + width_of(s.kids[1]),
{
    reveal_with_fuel(columns_before, 3);
}

} // verus!
