//! Plain values: the data that crosses the boundary between a typed value and
//! its columns, as a tree.

use std::rc::Rc;

use vstd::prelude::*;

use crate::error::Fault;
use crate::schema::{labels, Primitive};
use crate::shape::{primitive_name, primitive_width};
use crate::text::{self, decimal};

verus! {

/// One value of a fixed-width primitive. Floats are held by their IEEE 754
/// bits.
#[derive(Clone, Copy, Debug, PartialEq, Eq, Structural)]
pub enum Scalar {
    Bool(bool),
    I8(i8),
    I16(i16),
    I32(i32),
    I64(i64),
    I128(i128),
    U8(u8),
    U16(u16),
    U32(u32),
    U64(u64),
    U128(u128),
    /// The bits of a single-precision float.
    F32(u32),
    /// The bits of a double-precision float.
    F64(u64),
    Char(char),
}

/// A value, in the terms in which a typed value presents itself for
/// serialization.
#[allow(inconsistent_fields)]
#[derive(Debug, PartialEq)]
pub enum Value {
    Scalar(Scalar),
    Str(String),
    Bytes(Vec<u8>),
    Unit,
    Absent,
    Present(Box<Value>),
    UnitStruct { name: String },
    NewtypeStruct { name: String, inner: Box<Value> },
    Sequence(Vec<Value>),
    Tuple(Vec<Value>),
    TupleStruct { name: String, fields: Vec<Value> },
    Mapping(Vec<(Value, Value)>),
    Struct { name: String, fields: Vec<(String, Value)> },
    /// A unit variant: its position in the type's variant list, and its name.
    UnitVariant { index: u64, variant: String },
    NewtypeVariant { index: u64, variant: String, inner: Box<Value> },
    TupleVariant { index: u64, variant: String, fields: Vec<Value> },
    StructVariant { index: u64, variant: String, fields: Vec<(String, Value)> },
    /// A value that others may share, with the identity of the object: its
    /// address when it is written, its key when it was read.
    Shared { id: u64, inner: Rc<Value> },
}

/// What a value is, without its parts.
pub enum Head {
    Scalar(Scalar),
    Str(Seq<char>),
    Bytes(Seq<u8>),
    Unit,
    Absent,
    Present,
    UnitStruct(Seq<char>),
    NewtypeStruct(Seq<char>),
    Sequence,
    Tuple,
    TupleStruct(Seq<char>),
    Mapping,
    /// One entry of a mapping: a key and a value.
    Entry,
    Struct(Seq<char>, Seq<Seq<char>>),
    UnitVariant(u64, Seq<char>),
    NewtypeVariant(u64, Seq<char>),
    TupleVariant(u64, Seq<char>),
    StructVariant(u64, Seq<char>, Seq<Seq<char>>),
    Shared(u64),
}

/// The view of a value: a tree.
pub struct Val {
    pub head: Head,
    pub kids: Seq<Val>,
}

/// A value without parts.
pub open spec fn atom(head: Head) -> Val {
    Val { head, kids: seq![] }
}

impl Value {
    /// The tree that this value is.
    pub open spec fn val(&self) -> Val
        decreases self,
    {
        match *self {
            Value::Scalar(x) => atom(Head::Scalar(x)),
            Value::Str(s) => atom(Head::Str(s@)),
            Value::Bytes(b) => atom(Head::Bytes(b@)),
            Value::Unit => atom(Head::Unit),
            Value::Absent => atom(Head::Absent),
            Value::Present(inner) => Val { head: Head::Present, kids: seq![inner.val()] },
            Value::UnitStruct { name } => atom(Head::UnitStruct(name@)),
            Value::NewtypeStruct { name, inner } => Val {
                head: Head::NewtypeStruct(name@),
                kids: seq![inner.val()],
            },
            Value::Sequence(items) => Val { head: Head::Sequence, kids: vals(items@) },
            Value::Tuple(fields) => Val { head: Head::Tuple, kids: vals(fields@) },
            Value::TupleStruct { name, fields } => Val {
                head: Head::TupleStruct(name@),
                kids: vals(fields@),
            },
            Value::Mapping(entries) => Val { head: Head::Mapping, kids: entry_vals(entries@) },
            Value::Struct { name, fields } => Val {
                head: Head::Struct(name@, labels(fields@)),
                kids: named_vals(fields@),
            },
            Value::UnitVariant { index, variant } => atom(Head::UnitVariant(index, variant@)),
            Value::NewtypeVariant { index, variant, inner } => Val {
                head: Head::NewtypeVariant(index, variant@),
                kids: seq![inner.val()],
            },
            Value::TupleVariant { index, variant, fields } => Val {
                head: Head::TupleVariant(index, variant@),
                kids: vals(fields@),
            },
            Value::StructVariant { index, variant, fields } => Val {
                head: Head::StructVariant(index, variant@, labels(fields@)),
                kids: named_vals(fields@),
            },
            Value::Shared { id, inner } => Val { head: Head::Shared(id), kids: seq![inner.val()] },
        }
    }
}

/// The trees of a list of values.
pub open spec fn vals(items: Seq<Value>) -> Seq<Val>
    decreases items,
{
    Seq::new(
        items.len(),
        |i: int|
            if 0 <= i < items.len() {
                items[i].val()
            } else {
                atom(Head::Unit)
            },
    )
}

/// The trees of a list of named values.
pub open spec fn named_vals(fields: Seq<(String, Value)>) -> Seq<Val>
    decreases fields,
{
    Seq::new(
        fields.len(),
        |i: int|
            if 0 <= i < fields.len() {
                fields[i].1.val()
            } else {
                atom(Head::Unit)
            },
    )
}

/// The trees of a list of entries.
pub open spec fn entry_vals(entries: Seq<(Value, Value)>) -> Seq<Val>
    decreases entries,
{
    Seq::new(
        entries.len(),
        |i: int|
            if 0 <= i < entries.len() {
                entry(entries[i].0.val(), entries[i].1.val())
            } else {
                atom(Head::Unit)
            },
    )
}

/// One entry of a mapping.
pub open spec fn entry(key: Val, value: Val) -> Val {
    Val { head: Head::Entry, kids: seq![key, value] }
}

impl View for Value {
    type V = Val;

    open spec fn view(&self) -> Val {
        self.val()
    }
}

/// The type of a scalar.
pub open spec fn scalar_type(x: Scalar) -> Primitive {
    match x {
        Scalar::Bool(_) => Primitive::Bool,
        Scalar::I8(_) => Primitive::I8,
        Scalar::I16(_) => Primitive::I16,
        Scalar::I32(_) => Primitive::I32,
        Scalar::I64(_) => Primitive::I64,
        Scalar::I128(_) => Primitive::I128,
        Scalar::U8(_) => Primitive::U8,
        Scalar::U16(_) => Primitive::U16,
        Scalar::U32(_) => Primitive::U32,
        Scalar::U64(_) => Primitive::U64,
        Scalar::U128(_) => Primitive::U128,
        Scalar::F32(_) => Primitive::F32,
        Scalar::F64(_) => Primitive::F64,
        Scalar::Char(_) => Primitive::Char,
    }
}

/// The bits of a scalar as a number; a signed integer by its two's complement.
pub open spec fn scalar_bits(x: Scalar) -> nat {
    match x {
        Scalar::Bool(b) => if b {
            1
        } else {
            0
        },
        Scalar::I8(v) => (v as u8) as nat,
        Scalar::I16(v) => (v as u16) as nat,
        Scalar::I32(v) => (v as u32) as nat,
        Scalar::I64(v) => (v as u64) as nat,
        Scalar::I128(v) => (v as u128) as nat,
        Scalar::U8(v) => v as nat,
        Scalar::U16(v) => v as nat,
        Scalar::U32(v) => v as nat,
        Scalar::U64(v) => v as nat,
        Scalar::U128(v) => v as nat,
        Scalar::F32(v) => v as nat,
        Scalar::F64(v) => v as nat,
        Scalar::Char(c) => c as nat,
    }
}

/// `bits` in `width` bytes, least significant first.
pub open spec fn little_endian(bits: nat, width: nat) -> Seq<u8>
    decreases width,
{
    if width == 0 {
        seq![]
    } else {
        seq![(bits % 256) as u8] + little_endian(bits / 256, (width - 1) as nat)
    }
}

/// The number that bytes hold, least significant first.
pub open spec fn from_little_endian(bytes: Seq<u8>) -> nat
    decreases bytes.len(),
{
    if bytes.len() == 0 {
        0
    } else {
        bytes[0] as nat + 256 * from_little_endian(bytes.drop_first())
    }
}

/// The bytes of a scalar.
pub open spec fn scalar_bytes(x: Scalar) -> Seq<u8> {
    little_endian(scalar_bits(x), primitive_width(scalar_type(x)))
}

/// Whether a number is a Unicode scalar value.
pub open spec fn is_char(bits: nat) -> bool {
    bits < 0xD800 || 0xE000 <= bits < 0x11_0000
}

/// The scalar of the given type with the given bits. Not every byte is a
/// `bool`, and not every number is a `char`.
pub open spec fn scalar_of(p: Primitive, bits: nat) -> Result<Scalar, Fault> {
    match p {
        Primitive::Bool => if bits == 0 {
            Ok(Scalar::Bool(false))
        } else if bits == 1 {
            Ok(Scalar::Bool(true))
        } else {
            Err(Fault::InvalidTag("bool"@, bits as u64))
        },
        Primitive::I8 => Ok(Scalar::I8((bits as u8) as i8)),
        Primitive::I16 => Ok(Scalar::I16((bits as u16) as i16)),
        Primitive::I32 => Ok(Scalar::I32((bits as u32) as i32)),
        Primitive::I64 => Ok(Scalar::I64((bits as u64) as i64)),
        Primitive::I128 => Ok(Scalar::I128((bits as u128) as i128)),
        Primitive::U8 => Ok(Scalar::U8(bits as u8)),
        Primitive::U16 => Ok(Scalar::U16(bits as u16)),
        Primitive::U32 => Ok(Scalar::U32(bits as u32)),
        Primitive::U64 => Ok(Scalar::U64(bits as u64)),
        Primitive::U128 => Ok(Scalar::U128(bits as u128)),
        Primitive::F32 => Ok(Scalar::F32(bits as u32)),
        Primitive::F64 => Ok(Scalar::F64(bits as u64)),
        Primitive::Char => if is_char(bits) {
            Ok(Scalar::Char((bits as u32) as char))
        } else {
            Err(Fault::InvalidTag("char"@, bits as u64))
        },
    }
}

/// What a value calls itself in a mismatch report.
pub open spec fn found(v: Val) -> Seq<char> {
    match v.head {
        Head::Scalar(x) => primitive_name(scalar_type(x)),
        Head::Str(_) => "string"@,
        Head::Bytes(_) => "bytes"@,
        Head::Unit => "unit"@,
        Head::Absent => "option"@,
        Head::Present => "option"@,
        Head::UnitStruct(name) => "unit struct `"@ + name + "`"@,
        Head::NewtypeStruct(name) => "newtype struct `"@ + name + "`"@,
        Head::Sequence => "sequence"@,
        Head::Tuple => decimal(v.kids.len()) + "-tuple"@,
        Head::TupleStruct(name) => "tuple struct `"@ + name + "`"@,
        Head::Mapping => "map"@,
        Head::Entry => "map entry"@,
        Head::Struct(name, _) => "struct `"@ + name + "`"@,
        Head::UnitVariant(_, variant) => "variant `"@ + variant + "`"@,
        Head::NewtypeVariant(_, variant) => "variant `"@ + variant + "`"@,
        Head::TupleVariant(_, variant) => "variant `"@ + variant + "`"@,
        Head::StructVariant(_, variant, _) => "variant `"@ + variant + "`"@,
        Head::Shared(_) => "newtype struct `"@ + SHARED_TOKEN@ + "`"@,
    }
}

/// The newtype-struct name under which shared values present themselves.
pub const SHARED_TOKEN: &'static str = "$carbonite::Shared";

/// 256 to the power `n`.
pub open spec fn pow256(n: nat) -> nat
    decreases n,
{
    if n == 0 {
        1
    } else {
        256 * pow256((n - 1) as nat)
    }
}

/// Reading gives back the number that little-endian bytes were written for.
pub proof fn lemma_little_endian(bits: nat, width: nat)
    requires
        bits < pow256(width),
    ensures
        little_endian(bits, width).len() == width,
        from_little_endian(little_endian(bits, width)) == bits,
    decreases width,
{
    if width > 0 {
        let rest = little_endian(bits / 256, (width - 1) as nat);
        lemma_little_endian(bits / 256, (width - 1) as nat);
        assert(little_endian(bits, width).drop_first() =~= rest);
    }
}

/// `n` bytes hold a number below 256 to the power `n`.
pub proof fn lemma_from_little_endian_bound(bytes: Seq<u8>)
    ensures
        from_little_endian(bytes) < pow256(bytes.len()),
    decreases bytes.len(),
{
    if bytes.len() > 0 {
        lemma_from_little_endian_bound(bytes.drop_first());
    }
}

pub proof fn lemma_pow256()
    ensures
        pow256(1) == 0x100,
        pow256(2) == 0x1_0000,
        pow256(4) == 0x1_0000_0000,
        pow256(8) == 0x1_0000_0000_0000_0000,
        pow256(16) == 0x1_0000_0000_0000_0000_0000_0000_0000_0000,
{
    reveal_with_fuel(pow256, 17);
}

/// The bits of a scalar determine it, and fit its width.
pub proof fn lemma_scalar_bits(x: Scalar)
    ensures
        scalar_bits(x) < pow256(primitive_width(scalar_type(x))),
        scalar_of(scalar_type(x), scalar_bits(x)) == Ok::<Scalar, Fault>(x),
{
    lemma_pow256();
    match x {
        Scalar::I8(v) => assert((v as u8) as i8 == v) by (bit_vector),
        Scalar::I16(v) => assert((v as u16) as i16 == v) by (bit_vector),
        Scalar::I32(v) => assert((v as u32) as i32 == v) by (bit_vector),
        Scalar::I64(v) => assert((v as u64) as i64 == v) by (bit_vector),
        Scalar::I128(v) => assert((v as u128) as i128 == v) by (bit_vector),
        Scalar::Char(c) => vstd::utf8::char_u32_cast(c, c as u32),
        _ => {},
    }
}

/// Reading gives back the scalar that was written, and its bytes are as wide
/// as its type says.
pub proof fn lemma_scalar_bytes(x: Scalar)
    ensures
        scalar_bytes(x).len() == primitive_width(scalar_type(x)),
        scalar_of(scalar_type(x), from_little_endian(scalar_bytes(x))) == Ok::<Scalar, Fault>(x),
{
    lemma_scalar_bits(x);
    lemma_little_endian(scalar_bits(x), primitive_width(scalar_type(x)));
}


/// Calls `char::from_u32`: the character with the given number, if the number
/// is a Unicode scalar value.
#[verifier::external_body]
fn char_from_u32(bits: u32) -> (result: Option<char>)
    ensures
        match result {
            Some(c) => is_char(bits as nat) && c as u32 == bits,
            None => !is_char(bits as nat),
        },
{
    char::from_u32(bits)
}

/// Appends the `width` low bytes of `bits`, least significant first.
fn push_little_endian(out: &mut Vec<u8>, bits: u128, width: usize)
    ensures
        final(out)@ == old(out)@ + little_endian(bits as nat, width as nat),
{
    let mut rest: u128 = bits;
    let mut left: usize = width;
    while left > 0
        invariant
            out@ + little_endian(rest as nat, left as nat) == old(out)@ + little_endian(
                bits as nat,
                width as nat,
            ),
        decreases left,
    {
        let ghost before = out@;
        out.push((rest % 256) as u8);
        assert(out@ + little_endian((rest / 256) as nat, (left - 1) as nat) =~= before
            + little_endian(rest as nat, left as nat));
        rest = rest / 256;
        left = left - 1;
    }
    assert(out@ + little_endian(rest as nat, 0) =~= out@);
}

/// The number that at most sixteen bytes hold, least significant first.
pub fn read_little_endian(bytes: &[u8]) -> (result: u128)
    requires
        bytes@.len() <= 16,
    ensures
        result as nat == from_little_endian(bytes@),
{
    let mut value: u128 = 0;
    let mut i: usize = bytes.len();
    assert(bytes@.subrange(bytes@.len() as int, bytes@.len() as int) =~= seq![]);
    while i > 0
        invariant
            i <= bytes@.len() <= 16,
            value as nat == from_little_endian(bytes@.subrange(i as int, bytes@.len() as int)),
        decreases i,
    {
        let ghost tail = bytes@.subrange(i as int, bytes@.len() as int);
        let ghost longer = bytes@.subrange(i - 1, bytes@.len() as int);
        proof {
            assert(longer.drop_first() =~= tail);
            lemma_from_little_endian_bound(longer);
            lemma_pow256_mono(longer.len(), 16);
            lemma_pow256();
        }
        i = i - 1;
        value = value * 256 + bytes[i] as u128;
    }
    assert(bytes@.subrange(0, bytes@.len() as int) =~= bytes@);
    value
}

proof fn lemma_pow256_mono(a: nat, b: nat)
    requires
        a <= b,
    ensures
        pow256(a) <= pow256(b),
    decreases b,
{
    if a < b {
        lemma_pow256_mono(a, (b - 1) as nat);
    }
}

impl Scalar {
    /// The scalar's type.
    pub fn primitive(&self) -> (result: Primitive)
        ensures
            result == scalar_type(*self),
    {
        match self {
            Scalar::Bool(_) => Primitive::Bool,
            Scalar::I8(_) => Primitive::I8,
            Scalar::I16(_) => Primitive::I16,
            Scalar::I32(_) => Primitive::I32,
            Scalar::I64(_) => Primitive::I64,
            Scalar::I128(_) => Primitive::I128,
            Scalar::U8(_) => Primitive::U8,
            Scalar::U16(_) => Primitive::U16,
            Scalar::U32(_) => Primitive::U32,
            Scalar::U64(_) => Primitive::U64,
            Scalar::U128(_) => Primitive::U128,
            Scalar::F32(_) => Primitive::F32,
            Scalar::F64(_) => Primitive::F64,
            Scalar::Char(_) => Primitive::Char,
        }
    }

    /// The scalar's bits as a number.
    fn bits(&self) -> (result: u128)
        ensures
            result as nat == scalar_bits(*self),
    {
        match self {
            Scalar::Bool(b) => if *b {
                1
            } else {
                0
            },
            Scalar::I8(v) => (*v as u8) as u128,
            Scalar::I16(v) => (*v as u16) as u128,
            Scalar::I32(v) => (*v as u32) as u128,
            Scalar::I64(v) => (*v as u64) as u128,
            Scalar::I128(v) => *v as u128,
            Scalar::U8(v) => *v as u128,
            Scalar::U16(v) => *v as u128,
            Scalar::U32(v) => *v as u128,
            Scalar::U64(v) => *v as u128,
            Scalar::U128(v) => *v,
            Scalar::F32(v) => *v as u128,
            Scalar::F64(v) => *v as u128,
            Scalar::Char(c) => (*c as u32) as u128,
        }
    }

    /// Appends the scalar's bytes.
    pub fn write(&self, out: &mut Vec<u8>)
        ensures
            final(out)@ == old(out)@ + scalar_bytes(*self),
    {
        push_little_endian(out, self.bits(), self.primitive().width());
    }

    /// The scalar of the given type that bytes of its width hold.
    pub fn read(p: Primitive, bytes: &[u8]) -> (result: crate::error::Result<Self>)
        requires
            bytes@.len() == primitive_width(p),
        ensures
            match result {
                Ok(x) => scalar_of(p, from_little_endian(bytes@)) == Ok::<Scalar, Fault>(x),
                Err(error) => scalar_of(p, from_little_endian(bytes@)) == Err::<Scalar, Fault>(
                    error@,
                ),
            },
    {
        let bits: u128 = read_little_endian(bytes);
        proof {
            lemma_from_little_endian_bound(bytes@);
            lemma_pow256();
        }
        match p {
            Primitive::Bool => if bits == 0 {
                Ok(Scalar::Bool(false))
            } else if bits == 1 {
                Ok(Scalar::Bool(true))
            } else {
                Err(crate::error::Error::InvalidTag { what: "bool", value: bits as u64 })
            },
            Primitive::I8 => Ok(Scalar::I8((bits as u8) as i8)),
            Primitive::I16 => Ok(Scalar::I16((bits as u16) as i16)),
            Primitive::I32 => Ok(Scalar::I32((bits as u32) as i32)),
            Primitive::I64 => Ok(Scalar::I64((bits as u64) as i64)),
            Primitive::I128 => Ok(Scalar::I128(bits as i128)),
            Primitive::U8 => Ok(Scalar::U8(bits as u8)),
            Primitive::U16 => Ok(Scalar::U16(bits as u16)),
            Primitive::U32 => Ok(Scalar::U32(bits as u32)),
            Primitive::U64 => Ok(Scalar::U64(bits as u64)),
            Primitive::U128 => Ok(Scalar::U128(bits)),
            Primitive::F32 => Ok(Scalar::F32(bits as u32)),
            Primitive::F64 => Ok(Scalar::F64(bits as u64)),
            Primitive::Char => match char_from_u32(bits as u32) {
                Some(c) => {
                    proof {
                        vstd::utf8::char_u32_cast(c, bits as u32);
                    }
                    Ok(Scalar::Char(c))
                },
                None => Err(
                    crate::error::Error::InvalidTag { what: "char", value: bits as u64 },
                ),
            },
        }
    }
}


impl Value {
    /// What the value calls itself in a mismatch report.
    pub fn describe(&self) -> (result: String)
        ensures
            result@ == found(self@),
    {
        match self {
            Value::Scalar(x) => x.primitive().name().to_owned(),
            Value::Str(_) => "string".to_owned(),
            Value::Bytes(_) => "bytes".to_owned(),
            Value::Unit => "unit".to_owned(),
            Value::Absent => "option".to_owned(),
            Value::Present(_) => "option".to_owned(),
            Value::UnitStruct { name } => text::join("unit struct `", name.as_str(), "`"),
            Value::NewtypeStruct { name, .. } => text::join("newtype struct `", name.as_str(), "`"),
            Value::Sequence(_) => "sequence".to_owned(),
            Value::Tuple(fields) => {
                let result = text::join("", text::to_decimal(fields.len() as u64).as_str(), "-tuple");
                proof {
                    reveal_strlit("");
                    assert(self@.kids == vals(fields@));
                }
                assert(result@ =~= found(self@));
                result
            },
            Value::TupleStruct { name, .. } => text::join("tuple struct `", name.as_str(), "`"),
            Value::Mapping(_) => "map".to_owned(),
            Value::Struct { name, .. } => text::join("struct `", name.as_str(), "`"),
            Value::UnitVariant { variant, .. } => text::join("variant `", variant.as_str(), "`"),
            Value::NewtypeVariant { variant, .. } => text::join("variant `", variant.as_str(), "`"),
            Value::TupleVariant { variant, .. } => text::join("variant `", variant.as_str(), "`"),
            Value::StructVariant { variant, .. } => text::join("variant `", variant.as_str(), "`"),
            Value::Shared { .. } => text::join("newtype struct `", SHARED_TOKEN, "`"),
        }
    }
}

} // verus!
