//! Schema types: a serializable description of how a value is laid out.

use std::borrow::Cow;

use vstd::prelude::*;
use vstd::std_specs::convert::FromSpecImpl;

use crate::error::{Error, Fault, Result};
use crate::shape::{
    description, has_labels, leaf, node, primitive_name, primitive_width, Kind, Shape,
};
use crate::text;
use crate::varint;
use crate::wire;

verus! {

/// Maximum nesting depth for schemas, guarding both the tracer (recursive
/// types) and schema decoding (hostile input).
pub const MAX_DEPTH: usize = 256;

/// Version of the schema encoding, written as the first byte of
/// [`Schema::to_bytes`].
///
/// Every schema version up to and including this one is read. A schema
/// declaring a *newer* version is rejected with
/// [`Error::UnsupportedVersion`] rather than misinterpreted.
///
/// Data blobs carry no version of their own: a blob is only readable with its
/// schema in hand, so its encoding is versioned by the schema that accompanies
/// it.
pub const SCHEMA_VERSION: u64 = 1;

/// A fixed-width primitive.
#[non_exhaustive]
#[derive(Clone, Copy, Debug, PartialEq, Eq, Hash, Structural)]
pub enum Primitive {
    /// `bool`, one byte per value (`0` or `1`).
    Bool,
    /// `i8`.
    I8,
    /// `i16`, little-endian.
    I16,
    /// `i32`, little-endian.
    I32,
    /// `i64`, little-endian.
    I64,
    /// `i128`, little-endian.
    I128,
    /// `u8`.
    U8,
    /// `u16`, little-endian.
    U16,
    /// `u32`, little-endian.
    U32,
    /// `u64`, little-endian.
    U64,
    /// `u128`, little-endian.
    U128,
    /// A single-precision float, little-endian IEEE 754.
    F32,
    /// A double-precision float, little-endian IEEE 754.
    F64,
    /// `char`, encoded as a little-endian `u32` scalar value.
    Char,
}

/// An untyped description of how a value is laid out.
#[allow(inconsistent_fields)]
#[non_exhaustive]
#[derive(Debug, PartialEq, Eq)]
pub enum SchemaNode {
    /// A fixed-width primitive.
    Primitive(Primitive),
    /// A UTF-8 string: a varint length column plus a byte-data column.
    String,
    /// A byte array: a varint length column plus a byte-data column.
    Bytes,
    /// `()`. Occupies no columns.
    Unit,
    /// `Option<T>`: a presence-byte column; the inner value's columns only
    /// receive entries for `Some` values (dense encoding).
    Option(Box<SchemaNode>),
    /// A named unit struct. Occupies no columns.
    UnitStruct {
        /// Type name.
        name: String,
    },
    /// A named newtype struct; laid out exactly as its inner value.
    NewtypeStruct {
        /// Type name.
        name: String,
        /// The wrapped value.
        inner: Box<SchemaNode>,
    },
    /// A variable-length sequence: a varint length column, with element
    /// values flattened into the element's columns.
    Sequence(Box<SchemaNode>),
    /// A fixed-length heterogeneous tuple; each element gets its own columns.
    Tuple(Vec<SchemaNode>),
    /// A named tuple struct.
    TupleStruct {
        /// Type name.
        name: String,
        /// Field schemas in declaration order.
        fields: Vec<SchemaNode>,
    },
    /// A map: a varint length column, with keys and values flattened into
    /// their own columns.
    Mapping {
        /// Key schema.
        key: Box<SchemaNode>,
        /// Value schema.
        value: Box<SchemaNode>,
    },
    /// A named struct with named fields; each field gets its own columns.
    Struct {
        /// Type name.
        name: String,
        /// `(field name, field schema)` in declaration order.
        fields: Vec<(String, SchemaNode)>,
    },
    /// An enum: a varint tag column (the variant index in this list); each
    /// variant's payload columns only receive entries for rows of that
    /// variant (dense encoding).
    Enum {
        /// Type name.
        name: String,
        /// `(variant name, variant shape)` in declaration order.
        variants: Vec<(String, VariantNode)>,
    },
    /// A per-row-deduplicated value: a varint key column (one entry per
    /// occurrence); the inner value's columns form a dictionary with one
    /// entry per unique object, in first-occurrence order.
    Shared(Box<SchemaNode>),
}

/// The shape of one enum variant.
#[non_exhaustive]
#[derive(Debug, PartialEq, Eq)]
pub enum VariantNode {
    /// A variant with no payload.
    Unit,
    /// A variant wrapping a single value.
    Newtype(Box<SchemaNode>),
    /// A tuple variant.
    Tuple(Vec<SchemaNode>),
    /// A struct variant with named fields.
    Struct(Vec<(String, SchemaNode)>),
}

impl SchemaNode {
    /// The tree that this schema describes.
    pub open spec fn shape(&self) -> Shape
        decreases self,
    {
        match *self {
            SchemaNode::Primitive(p) => leaf(Kind::Primitive(p), seq![]),
            SchemaNode::String => leaf(Kind::String, seq![]),
            SchemaNode::Bytes => leaf(Kind::Bytes, seq![]),
            SchemaNode::Unit => leaf(Kind::Unit, seq![]),
            SchemaNode::Option(inner) => node(Kind::Option, seq![], seq![inner.shape()]),
            SchemaNode::UnitStruct { name } => leaf(Kind::UnitStruct, name@),
            SchemaNode::NewtypeStruct { name, inner } => node(
                Kind::NewtypeStruct,
                name@,
                seq![inner.shape()],
            ),
            SchemaNode::Sequence(elem) => node(Kind::Sequence, seq![], seq![elem.shape()]),
            SchemaNode::Tuple(fields) => node(Kind::Tuple, seq![], shapes(fields@)),
            SchemaNode::TupleStruct { name, fields } => node(
                Kind::TupleStruct,
                name@,
                shapes(fields@),
            ),
            SchemaNode::Mapping { key, value } => node(
                Kind::Mapping,
                seq![],
                seq![key.shape(), value.shape()],
            ),
            SchemaNode::Struct { name, fields } => Shape {
                kind: Kind::Struct,
                name: name@,
                labels: labels(fields@),
                kids: named_shapes(fields@),
            },
            SchemaNode::Enum { name, variants } => Shape {
                kind: Kind::Enum,
                name: name@,
                labels: labels(variants@),
                kids: variant_shapes(variants@),
            },
            SchemaNode::Shared(inner) => node(Kind::Shared, seq![], seq![inner.shape()]),
        }
    }
}

impl VariantNode {
    /// The tree that this variant shape describes.
    pub open spec fn shape(&self) -> Shape
        decreases self,
    {
        match *self {
            VariantNode::Unit => leaf(Kind::UnitVariant, seq![]),
            VariantNode::Newtype(inner) => node(
                Kind::NewtypeVariant,
                seq![],
                seq![inner.shape()],
            ),
            VariantNode::Tuple(fields) => node(Kind::TupleVariant, seq![], shapes(fields@)),
            VariantNode::Struct(fields) => Shape {
                kind: Kind::StructVariant,
                name: seq![],
                labels: labels(fields@),
                kids: named_shapes(fields@),
            },
        }
    }
}

/// The trees of a list of schemas.
pub open spec fn shapes(fields: Seq<SchemaNode>) -> Seq<Shape>
    decreases fields,
{
    Seq::new(
        fields.len(),
        |i: int|
            if 0 <= i < fields.len() {
                fields[i].shape()
            } else {
                leaf(Kind::Unit, seq![])
            },
    )
}

/// The trees of a list of named schemas.
pub open spec fn named_shapes(fields: Seq<(String, SchemaNode)>) -> Seq<Shape>
    decreases fields,
{
    Seq::new(
        fields.len(),
        |i: int|
            if 0 <= i < fields.len() {
                fields[i].1.shape()
            } else {
                leaf(Kind::Unit, seq![])
            },
    )
}

/// The trees of a list of named variants.
pub open spec fn variant_shapes(variants: Seq<(String, VariantNode)>) -> Seq<Shape>
    decreases variants,
{
    Seq::new(
        variants.len(),
        |i: int|
            if 0 <= i < variants.len() {
                variants[i].1.shape()
            } else {
                leaf(Kind::Unit, seq![])
            },
    )
}

/// The names in a list of named things.
pub open spec fn labels<N>(fields: Seq<(String, N)>) -> Seq<Seq<char>> {
    fields.map_values(|field: (String, N)| field.0@)
}

impl View for SchemaNode {
    type V = Shape;

    open spec fn view(&self) -> Shape {
        self.shape()
    }
}

impl View for VariantNode {
    type V = Shape;

    open spec fn view(&self) -> Shape {
        self.shape()
    }
}


/// Every schema node stands for a well-formed tree.
pub proof fn lemma_node_well_formed(n: SchemaNode)
    ensures
        n@.well_formed(),
        !crate::shape::is_variant(n@.kind),
    decreases n,
{
    let s = n@;
    assert forall|i: int| 0 <= i < s.kids.len() implies (#[trigger] s.kids[i]).well_formed()
        && crate::shape::is_variant(s.kids[i].kind) == (s.kind is Enum) by {
        match n {
            SchemaNode::Option(inner) => lemma_node_well_formed(*inner),
            SchemaNode::NewtypeStruct { name: _, inner } => lemma_node_well_formed(*inner),
            SchemaNode::Sequence(elem) => lemma_node_well_formed(*elem),
            SchemaNode::Shared(inner) => lemma_node_well_formed(*inner),
            SchemaNode::Mapping { key, value } => {
                lemma_node_well_formed(*key);
                lemma_node_well_formed(*value);
            },
            SchemaNode::Tuple(fields) => {
                assert(s.kids == shapes(fields@));
                lemma_node_well_formed(fields@[i]);
            },
            SchemaNode::TupleStruct { name: _, fields } => {
                assert(s.kids == shapes(fields@));
                lemma_node_well_formed(fields@[i]);
            },
            SchemaNode::Struct { name: _, fields } => {
                assert(s.kids == named_shapes(fields@));
                lemma_node_well_formed(fields@[i].1);
            },
            SchemaNode::Enum { name: _, variants } => {
                assert(s.kids == variant_shapes(variants@));
                lemma_variant_well_formed(variants@[i].1);
            },
            _ => {},
        }
    }
    match n {
        SchemaNode::Struct { name: _, fields } => assert(s.kids == named_shapes(fields@)),
        SchemaNode::Enum { name: _, variants } => assert(s.kids == variant_shapes(variants@)),
        _ => {},
    }
}

/// Every variant node stands for a well-formed tree.
pub proof fn lemma_variant_well_formed(n: VariantNode)
    ensures
        n@.well_formed(),
        crate::shape::is_variant(n@.kind),
    decreases n,
{
    let s = n@;
    assert forall|i: int| 0 <= i < s.kids.len() implies (#[trigger] s.kids[i]).well_formed()
        && crate::shape::is_variant(s.kids[i].kind) == (s.kind is Enum) by {
        match n {
            VariantNode::Unit => {},
            VariantNode::Newtype(inner) => lemma_node_well_formed(*inner),
            VariantNode::Tuple(fields) => {
                assert(s.kids == shapes(fields@));
                lemma_node_well_formed(fields@[i]);
            },
            VariantNode::Struct(fields) => {
                assert(s.kids == named_shapes(fields@));
                lemma_node_well_formed(fields@[i].1);
            },
        }
    }
    match n {
        VariantNode::Struct(fields) => assert(s.kids == named_shapes(fields@)),
        _ => {},
    }
}

impl Primitive {
    /// Encoded width in bytes of one value.
    pub fn width(self) -> (result: usize)
        ensures
            result == primitive_width(self),
    {
        match self {
            Primitive::Bool | Primitive::I8 | Primitive::U8 => 1,
            Primitive::I16 | Primitive::U16 => 2,
            Primitive::I32 | Primitive::U32 | Primitive::F32 | Primitive::Char => 4,
            Primitive::I64 | Primitive::U64 | Primitive::F64 => 8,
            Primitive::I128 | Primitive::U128 => 16,
        }
    }

    /// The type's name.
    pub fn name(self) -> (result: &'static str)
        ensures
            result@ == primitive_name(self),
    {
        match self {
            Primitive::Bool => "bool",
            Primitive::I8 => "i8",
            Primitive::I16 => "i16",
            Primitive::I32 => "i32",
            Primitive::I64 => "i64",
            Primitive::I128 => "i128",
            Primitive::U8 => "u8",
            Primitive::U16 => "u16",
            Primitive::U32 => "u32",
            Primitive::U64 => "u64",
            Primitive::U128 => "u128",
            Primitive::F32 => "f32",
            Primitive::F64 => "f64",
            Primitive::Char => "char",
        }
    }

    /// Stable wire tag.
    fn tag(self) -> (result: u8)
        ensures
            result == wire::primitive_tag(self),
    {
        match self {
            Primitive::Bool => 0,
            Primitive::I8 => 1,
            Primitive::I16 => 2,
            Primitive::I32 => 3,
            Primitive::I64 => 4,
            Primitive::I128 => 5,
            Primitive::U8 => 6,
            Primitive::U16 => 7,
            Primitive::U32 => 8,
            Primitive::U64 => 9,
            Primitive::U128 => 10,
            Primitive::F32 => 11,
            Primitive::F64 => 12,
            Primitive::Char => 13,
        }
    }

    /// The primitive with the given wire tag.
    fn from_tag(tag: u8) -> (result: Option<Self>)
        ensures
            result == wire::primitive_of(tag),
    {
        match tag {
            0 => Some(Primitive::Bool),
            1 => Some(Primitive::I8),
            2 => Some(Primitive::I16),
            3 => Some(Primitive::I32),
            4 => Some(Primitive::I64),
            5 => Some(Primitive::I128),
            6 => Some(Primitive::U8),
            7 => Some(Primitive::U16),
            8 => Some(Primitive::U32),
            9 => Some(Primitive::U64),
            10 => Some(Primitive::U128),
            11 => Some(Primitive::F32),
            12 => Some(Primitive::F64),
            13 => Some(Primitive::Char),
            _ => None,
        }
    }
}

impl SchemaNode {
    /// A short human-readable description, used in error messages.
    pub fn describe(&self) -> (result: String)
        ensures
            result@ == description(self@),
        decreases self,
    {
        match self {
            SchemaNode::Primitive(p) => p.name().to_owned(),
            SchemaNode::String => "string".to_owned(),
            SchemaNode::Bytes => "bytes".to_owned(),
            SchemaNode::Unit => "unit".to_owned(),
            SchemaNode::Option(inner) => text::join("option<", inner.describe().as_str(), ">"),
            SchemaNode::UnitStruct { name } => text::join("unit struct `", name.as_str(), "`"),
            SchemaNode::NewtypeStruct { name, .. } => text::join(
                "newtype struct `",
                name.as_str(),
                "`",
            ),
            SchemaNode::Sequence(_) => "sequence".to_owned(),
            SchemaNode::Tuple(fields) => {
                let result = text::join("", text::to_decimal(fields.len() as u64).as_str(), "-tuple");
                proof {
                    reveal_strlit("");
                    assert(self@.kids == shapes(fields@));
                }
                assert(result@ =~= description(self@));
                result
            },
            SchemaNode::TupleStruct { name, .. } => text::join(
                "tuple struct `",
                name.as_str(),
                "`",
            ),
            SchemaNode::Mapping { .. } => "map".to_owned(),
            SchemaNode::Struct { name, .. } => text::join("struct `", name.as_str(), "`"),
            SchemaNode::Enum { name, .. } => text::join("enum `", name.as_str(), "`"),
            SchemaNode::Shared(inner) => text::join("shared<", inner.describe().as_str(), ">"),
        }
    }

    /// Encodes this schema in its versioned binary form.
    #[must_use]
    pub fn to_bytes(&self) -> (result: Vec<u8>)
        ensures
            result@ == wire::versioned(self@),
            wire::fits(self@),
    {
        let mut out: Vec<u8> = Vec::new();
        varint::write(&mut out, SCHEMA_VERSION);
        self.encode_into(&mut out);
        assert(out@ =~= wire::versioned(self@));
        out
    }

    /// Decodes a schema from its versioned binary form.
    ///
    /// # Errors
    ///
    /// Returns an error if the input declares a newer [`SCHEMA_VERSION`] than
    /// this build supports, is truncated, contains unknown tags, nests deeper
    /// than the supported limit, or has trailing bytes.
    pub fn from_bytes(bytes: &[u8]) -> (result: Result<Self>)
        ensures
            match result {
                Ok(node) => wire::parsed(bytes@) == Ok::<Shape, Fault>(node@),
                Err(error) => wire::parsed(bytes@) == Err::<Shape, Fault>(error@),
            },
    {
        let (version, used) = match varint::read(bytes) {
            Ok(pair) => pair,
            Err(error) => return Err(error),
        };
        proof {
            varint::lemma_encode_decode(bytes@);
        }
        if version == 0 {
            return Err(Error::Malformed("invalid schema version"));
        }
        if version > SCHEMA_VERSION {
            return Err(
                Error::UnsupportedVersion {
                    what: "schema",
                    found: version,
                    supported: SCHEMA_VERSION,
                },
            );
        }
        let mut pos: usize = used;
        let node = match Self::decode(bytes, &mut pos, 0) {
            Ok(node) => node,
            Err(error) => return Err(error),
        };
        if pos != bytes.len() {
            return Err(Error::TrailingBytes);
        }
        Ok(node)
    }

    /// Appends the unversioned encoding of this schema.
    pub fn encode_into(&self, out: &mut Vec<u8>)
        ensures
            final(out)@ == old(out)@ + wire::encoding(self@),
            wire::fits(self@),
        decreases self,
    {
        let ghost s = self@;
        proof {
            lemma_node_well_formed(*self);
        }
        let ghost start = out@;
        match self {
            SchemaNode::Primitive(p) => {
                out.push(p.tag());
                proof {
                    lemma_assembled(s, start, out@, out@, out@);
                }
            },
            SchemaNode::String => {
                out.push(14);
                proof {
                    lemma_assembled(s, start, out@, out@, out@);
                }
            },
            SchemaNode::Bytes => {
                out.push(15);
                proof {
                    lemma_assembled(s, start, out@, out@, out@);
                }
            },
            SchemaNode::Unit => {
                out.push(16);
                proof {
                    lemma_assembled(s, start, out@, out@, out@);
                }
            },
            SchemaNode::Option(inner) => {
                out.push(17);
                let ghost tagged = out@;
                inner.encode_into(out);
                proof {
                    assert(s.kids =~= seq![inner@]);
                    lemma_one_kid(s);
                    lemma_assembled(s, start, tagged, tagged, out@);
                }
            },
            SchemaNode::UnitStruct { name } => {
                out.push(18);
                encode_str(out, name.as_str());
                proof {
                    lemma_assembled(s, start, out@, out@, out@);
                }
            },
            SchemaNode::NewtypeStruct { name, inner } => {
                out.push(19);
                encode_str(out, name.as_str());
                let ghost named = out@;
                inner.encode_into(out);
                proof {
                    assert(s.kids =~= seq![inner@]);
                    lemma_one_kid(s);
                    lemma_assembled(s, start, named, named, out@);
                }
            },
            SchemaNode::Sequence(elem) => {
                out.push(20);
                let ghost tagged = out@;
                elem.encode_into(out);
                proof {
                    assert(s.kids =~= seq![elem@]);
                    lemma_one_kid(s);
                    lemma_assembled(s, start, tagged, tagged, out@);
                }
            },
            SchemaNode::Tuple(fields) => {
                out.push(21);
                let ghost named = out@;
                varint::write(out, fields.len() as u64);
                let ghost counted = out@;
                encode_fields(fields, out, Ghost(s));
                proof {
                    lemma_assembled(s, start, named, counted, out@);
                }
            },
            SchemaNode::TupleStruct { name, fields } => {
                out.push(22);
                encode_str(out, name.as_str());
                let ghost named = out@;
                varint::write(out, fields.len() as u64);
                let ghost counted = out@;
                encode_fields(fields, out, Ghost(s));
                proof {
                    lemma_assembled(s, start, named, counted, out@);
                }
            },
            SchemaNode::Mapping { key, value } => {
                out.push(23);
                let ghost tagged = out@;
                key.encode_into(out);
                value.encode_into(out);
                proof {
                    assert(s.kids =~= seq![key@, value@]);
                    lemma_two_kids(s);
                    assert(out@ =~= tagged + wire::kids_encoding(s, 2));
                    lemma_assembled(s, start, tagged, tagged, out@);
                }
            },
            SchemaNode::Struct { name, fields } => {
                out.push(24);
                encode_str(out, name.as_str());
                let ghost named = out@;
                varint::write(out, fields.len() as u64);
                let ghost counted = out@;
                encode_named(fields, out, Ghost(s));
                proof {
                    lemma_assembled(s, start, named, counted, out@);
                }
            },
            SchemaNode::Enum { name, variants } => {
                out.push(25);
                encode_str(out, name.as_str());
                let ghost named = out@;
                varint::write(out, variants.len() as u64);
                let ghost counted = out@;
                encode_variants(variants, out, Ghost(s));
                proof {
                    lemma_assembled(s, start, named, counted, out@);
                }
            },
            SchemaNode::Shared(inner) => {
                out.push(26);
                let ghost tagged = out@;
                inner.encode_into(out);
                proof {
                    assert(s.kids =~= seq![inner@]);
                    lemma_one_kid(s);
                    lemma_assembled(s, start, tagged, tagged, out@);
                }
            },
        }
    }
}

/// The parts of a tree, appended one after the other, are its encoding.
/// `named`, `counted` and `end` are the output after the name, after the
/// number of children and after the children.
proof fn lemma_assembled(
    s: Shape,
    start: Seq<u8>,
    named: Seq<u8>,
    counted: Seq<u8>,
    end: Seq<u8>,
)
    requires
        s.well_formed(),
        named == if crate::shape::has_name(s.kind) {
            start.push(wire::tag(s.kind)) + wire::text(s.name)
        } else {
            start.push(wire::tag(s.kind))
        },
        counted == if crate::shape::is_counted(s.kind) {
            named + varint::encoded(s.kids.len())
        } else {
            named
        },
        s.kids.len() > 0 ==> end == counted + wire::kids_encoding(s, s.kids.len()),
        s.kids.len() == 0 ==> end == counted || end == counted + wire::kids_encoding(
            s,
            s.kids.len(),
        ),
        crate::shape::has_name(s.kind) ==> vstd::utf8::encode_utf8(s.name).len() <= usize::MAX,
        s.kids.len() <= usize::MAX,
        forall|i: int|
            0 <= i < s.labels.len() ==> vstd::utf8::encode_utf8(#[trigger] s.labels[i]).len()
                <= usize::MAX,
        forall|i: int| 0 <= i < s.kids.len() ==> wire::fits(#[trigger] s.kids[i]),
    ensures
        end == start + wire::encoding(s),
        wire::fits(s),
{
    if s.kids.len() == 0 {
        assert(counted + wire::kids_encoding(s, s.kids.len()) =~= counted);
    }
    assert(end =~= start + wire::encoding(s));
    if !crate::shape::has_name(s.kind) {
        assert(s.name =~= seq![]);
    }
}

proof fn lemma_one_kid(s: Shape)
    requires
        s.kids.len() == 1,
        !has_labels(s.kind),
    ensures
        wire::kids_encoding(s, 1) == wire::encoding(s.kids[0]),
{
    reveal_with_fuel(wire::kids_encoding, 2);
    assert(wire::kids_encoding(s, 1) =~= wire::encoding(s.kids[0]));
}

proof fn lemma_two_kids(s: Shape)
    requires
        s.kids.len() == 2,
        !has_labels(s.kind),
    ensures
        wire::kids_encoding(s, 2) == wire::encoding(s.kids[0]) + wire::encoding(s.kids[1]),
{
    reveal_with_fuel(wire::kids_encoding, 3);
    assert(wire::kids_encoding(s, 2) =~= wire::encoding(s.kids[0]) + wire::encoding(s.kids[1]));
}

/// Appends the encodings of positional fields, the children of `whole`.
fn encode_fields(fields: &Vec<SchemaNode>, out: &mut Vec<u8>, Ghost(whole): Ghost<Shape>)
    requires
        !has_labels(whole.kind),
        whole.kids == shapes(fields@),
    ensures
        whole.kids.len() == fields@.len(),
        final(out)@ == old(out)@ + wire::kids_encoding(whole, fields@.len()),
        forall|i: int| 0 <= i < fields@.len() ==> wire::fits(#[trigger] whole.kids[i]),
    decreases fields@,
{
    let mut i: usize = 0;
    assert(out@ =~= old(out)@ + wire::kids_encoding(whole, 0));
    while i < fields.len()
        invariant
            i <= fields@.len(),
            !has_labels(whole.kind),
            whole.kids == shapes(fields@),
            out@ == old(out)@ + wire::kids_encoding(whole, i as nat),
            forall|k: int| 0 <= k < i ==> wire::fits(#[trigger] whole.kids[k]),
        decreases fields@.len() - i,
    {
        let ghost before = out@;
        fields[i].encode_into(out);
        assert(whole.kids[i as int] == fields@[i as int]@);
        assert(out@ =~= old(out)@ + wire::kids_encoding(whole, (i + 1) as nat));
        i += 1;
    }
}

/// Appends the encodings of named fields, the children of `whole`.
fn encode_named(fields: &Vec<(String, SchemaNode)>, out: &mut Vec<u8>, Ghost(whole): Ghost<Shape>)
    requires
        has_labels(whole.kind),
        whole.kids == named_shapes(fields@),
        whole.labels == labels(fields@),
    ensures
        whole.kids.len() == fields@.len(),
        final(out)@ == old(out)@ + wire::kids_encoding(whole, fields@.len()),
        forall|i: int| 0 <= i < fields@.len() ==> wire::fits(#[trigger] whole.kids[i]),
        forall|i: int|
            0 <= i < fields@.len() ==> vstd::utf8::encode_utf8(#[trigger] whole.labels[i]).len()
                <= usize::MAX,
    decreases fields@,
{
    let mut i: usize = 0;
    assert(out@ =~= old(out)@ + wire::kids_encoding(whole, 0));
    while i < fields.len()
        invariant
            i <= fields@.len(),
            has_labels(whole.kind),
            whole.kids == named_shapes(fields@),
            whole.labels == labels(fields@),
            out@ == old(out)@ + wire::kids_encoding(whole, i as nat),
            forall|k: int| 0 <= k < i ==> wire::fits(#[trigger] whole.kids[k]),
            forall|k: int|
                0 <= k < i ==> vstd::utf8::encode_utf8(#[trigger] whole.labels[k]).len()
                    <= usize::MAX,
        decreases fields@.len() - i,
    {
        let ghost before = out@;
        encode_str(out, fields[i].0.as_str());
        fields[i].1.encode_into(out);
        assert(whole.kids[i as int] == fields@[i as int].1@);
        assert(whole.labels[i as int] == fields@[i as int].0@);
        assert(out@ =~= old(out)@ + wire::kids_encoding(whole, (i + 1) as nat));
        i += 1;
    }
}

/// Appends the encodings of named variants, the children of `whole`.
fn encode_variants(
    variants: &Vec<(String, VariantNode)>,
    out: &mut Vec<u8>,
    Ghost(whole): Ghost<Shape>,
)
    requires
        has_labels(whole.kind),
        whole.kids == variant_shapes(variants@),
        whole.labels == labels(variants@),
    ensures
        whole.kids.len() == variants@.len(),
        final(out)@ == old(out)@ + wire::kids_encoding(whole, variants@.len()),
        forall|i: int| 0 <= i < variants@.len() ==> wire::fits(#[trigger] whole.kids[i]),
        forall|i: int|
            0 <= i < variants@.len() ==> vstd::utf8::encode_utf8(#[trigger] whole.labels[i]).len()
                <= usize::MAX,
    decreases variants@,
{
    let mut i: usize = 0;
    assert(out@ =~= old(out)@ + wire::kids_encoding(whole, 0));
    while i < variants.len()
        invariant
            i <= variants@.len(),
            has_labels(whole.kind),
            whole.kids == variant_shapes(variants@),
            whole.labels == labels(variants@),
            out@ == old(out)@ + wire::kids_encoding(whole, i as nat),
            forall|k: int| 0 <= k < i ==> wire::fits(#[trigger] whole.kids[k]),
            forall|k: int|
                0 <= k < i ==> vstd::utf8::encode_utf8(#[trigger] whole.labels[k]).len()
                    <= usize::MAX,
        decreases variants@.len() - i,
    {
        let ghost before = out@;
        encode_str(out, variants[i].0.as_str());
        variants[i].1.encode_into(out);
        assert(whole.kids[i as int] == variants@[i as int].1@);
        assert(whole.labels[i as int] == variants@[i as int].0@);
        assert(out@ =~= old(out)@ + wire::kids_encoding(whole, (i + 1) as nat));
        i += 1;
    }
}

impl VariantNode {
    /// Appends the encoding of this variant shape.
    pub fn encode_into(&self, out: &mut Vec<u8>)
        ensures
            final(out)@ == old(out)@ + wire::encoding(self@),
            wire::fits(self@),
        decreases self,
    {
        let ghost s = self@;
        proof {
            lemma_variant_well_formed(*self);
        }
        let ghost start = out@;
        match self {
            VariantNode::Unit => {
                out.push(0);
                proof {
                    lemma_assembled(s, start, out@, out@, out@);
                }
            },
            VariantNode::Newtype(inner) => {
                out.push(1);
                let ghost tagged = out@;
                inner.encode_into(out);
                proof {
                    assert(s.kids =~= seq![inner@]);
                    lemma_one_kid(s);
                    lemma_assembled(s, start, tagged, tagged, out@);
                }
            },
            VariantNode::Tuple(fields) => {
                out.push(2);
                let ghost tagged = out@;
                varint::write(out, fields.len() as u64);
                let ghost counted = out@;
                encode_fields(fields, out, Ghost(s));
                proof {
                    lemma_assembled(s, start, tagged, counted, out@);
                }
            },
            VariantNode::Struct(fields) => {
                out.push(3);
                let ghost tagged = out@;
                varint::write(out, fields.len() as u64);
                let ghost counted = out@;
                encode_named(fields, out, Ghost(s));
                proof {
                    lemma_assembled(s, start, tagged, counted, out@);
                }
            },
        }
    }
}

/// Appends a length-prefixed string.
fn encode_str(out: &mut Vec<u8>, s: &str)
    ensures
        final(out)@ == old(out)@ + wire::text(s@),
        vstd::utf8::encode_utf8(s@).len() <= usize::MAX,
{
    let bytes = s.as_bytes();
    varint::write(out, bytes.len() as u64);
    out.extend_from_slice(bytes);
    assert(out@ =~= old(out)@ + wire::text(s@));
}


impl SchemaNode {
    /// Decodes the node at `pos`, `depth` levels below the root.
    ///
    /// Where the encoding of a node stands, that node is what is decoded and
    /// nothing past it is consumed: see [`wire::lemma_decode_encode`].
    pub fn decode(buf: &[u8], pos: &mut usize, depth: usize) -> (result: Result<Self>)
        requires
            *old(pos) <= buf@.len(),
            depth <= MAX_DEPTH,
        ensures
            match result {
                Ok(node) => wire::decoding(buf@, *old(pos) as nat, depth as nat, false) == Ok::<
                    (Shape, nat),
                    Fault,
                >((node@, *final(pos) as nat)) && *final(pos) <= buf@.len(),
                Err(error) => wire::decoding(buf@, *old(pos) as nat, depth as nat, false) == Err::<
                    (Shape, nat),
                    Fault,
                >(error@),
            },
        decreases MAX_DEPTH - depth, 0nat,
    {
        if depth >= MAX_DEPTH {
            return Err(Error::DepthLimitExceeded);
        }
        let tag = match take_byte(buf, pos) {
            Ok(tag) => tag,
            Err(error) => return Err(error),
        };
        let ghost start = *pos as nat;
        if let Some(p) = Primitive::from_tag(tag) {
            return Ok(SchemaNode::Primitive(p));
        }
        match tag {
            14 => Ok(SchemaNode::String),
            15 => Ok(SchemaNode::Bytes),
            16 => Ok(SchemaNode::Unit),
            17 => {
                proof {
                    wire::lemma_one_kid(buf@, start, (depth + 1) as nat, Kind::Option);
                }
                match Self::decode(buf, pos, depth + 1) {
                    Ok(inner) => Ok(SchemaNode::Option(Box::new(inner))),
                    Err(error) => Err(error),
                }
            },
            18 => match decode_str(buf, pos) {
                Ok(name) => Ok(SchemaNode::UnitStruct { name }),
                Err(error) => Err(error),
            },
            19 => {
                let name = match decode_str(buf, pos) {
                    Ok(name) => name,
                    Err(error) => return Err(error),
                };
                proof {
                    wire::lemma_one_kid(buf@, *pos as nat, (depth + 1) as nat, Kind::NewtypeStruct);
                }
                match Self::decode(buf, pos, depth + 1) {
                    Ok(inner) => Ok(SchemaNode::NewtypeStruct { name, inner: Box::new(inner) }),
                    Err(error) => Err(error),
                }
            },
            20 => {
                proof {
                    wire::lemma_one_kid(buf@, start, (depth + 1) as nat, Kind::Sequence);
                }
                match Self::decode(buf, pos, depth + 1) {
                    Ok(elem) => Ok(SchemaNode::Sequence(Box::new(elem))),
                    Err(error) => Err(error),
                }
            },
            21 => {
                let len = match decode_len(buf, pos) {
                    Ok(len) => len,
                    Err(error) => return Err(error),
                };
                match decode_fields(buf, pos, depth + 1, len, Ghost(Kind::Tuple)) {
                    Ok(fields) => Ok(SchemaNode::Tuple(fields)),
                    Err(error) => Err(error),
                }
            },
            22 => {
                let name = match decode_str(buf, pos) {
                    Ok(name) => name,
                    Err(error) => return Err(error),
                };
                let len = match decode_len(buf, pos) {
                    Ok(len) => len,
                    Err(error) => return Err(error),
                };
                match decode_fields(buf, pos, depth + 1, len, Ghost(Kind::TupleStruct)) {
                    Ok(fields) => Ok(SchemaNode::TupleStruct { name, fields }),
                    Err(error) => Err(error),
                }
            },
            23 => {
                proof {
                    wire::lemma_two_kids(buf@, start, (depth + 1) as nat, Kind::Mapping);
                }
                let key = match Self::decode(buf, pos, depth + 1) {
                    Ok(key) => key,
                    Err(error) => return Err(error),
                };
                match Self::decode(buf, pos, depth + 1) {
                    Ok(value) => Ok(
                        SchemaNode::Mapping { key: Box::new(key), value: Box::new(value) },
                    ),
                    Err(error) => Err(error),
                }
            },
            24 => {
                let name = match decode_str(buf, pos) {
                    Ok(name) => name,
                    Err(error) => return Err(error),
                };
                let len = match decode_len(buf, pos) {
                    Ok(len) => len,
                    Err(error) => return Err(error),
                };
                match decode_named(buf, pos, depth + 1, len, Ghost(Kind::Struct)) {
                    Ok(fields) => Ok(SchemaNode::Struct { name, fields }),
                    Err(error) => Err(error),
                }
            },
            25 => {
                let name = match decode_str(buf, pos) {
                    Ok(name) => name,
                    Err(error) => return Err(error),
                };
                let len = match decode_len(buf, pos) {
                    Ok(len) => len,
                    Err(error) => return Err(error),
                };
                match decode_variants(buf, pos, depth + 1, len) {
                    Ok(variants) => Ok(SchemaNode::Enum { name, variants }),
                    Err(error) => Err(error),
                }
            },
            26 => {
                proof {
                    wire::lemma_one_kid(buf@, start, (depth + 1) as nat, Kind::Shared);
                }
                match Self::decode(buf, pos, depth + 1) {
                    Ok(inner) => Ok(SchemaNode::Shared(Box::new(inner))),
                    Err(error) => Err(error),
                }
            },
            _ => Err(Error::Malformed("unknown schema node tag")),
        }
    }
}

impl VariantNode {
    /// Decodes the variant shape at `pos`, `depth` levels below the root.
    fn decode(buf: &[u8], pos: &mut usize, depth: usize) -> (result: Result<Self>)
        requires
            *old(pos) <= buf@.len(),
            depth <= MAX_DEPTH,
        ensures
            match result {
                Ok(node) => wire::decoding(buf@, *old(pos) as nat, depth as nat, true) == Ok::<
                    (Shape, nat),
                    Fault,
                >((node@, *final(pos) as nat)) && *final(pos) <= buf@.len(),
                Err(error) => wire::decoding(buf@, *old(pos) as nat, depth as nat, true) == Err::<
                    (Shape, nat),
                    Fault,
                >(error@),
            },
        decreases MAX_DEPTH - depth, 0nat,
    {
        if depth >= MAX_DEPTH {
            return Err(Error::DepthLimitExceeded);
        }
        let tag = match take_byte(buf, pos) {
            Ok(tag) => tag,
            Err(error) => return Err(error),
        };
        match tag {
            0 => Ok(VariantNode::Unit),
            1 => {
                proof {
                    wire::lemma_one_kid(
                        buf@,
                        *pos as nat,
                        (depth + 1) as nat,
                        Kind::NewtypeVariant,
                    );
                }
                match SchemaNode::decode(buf, pos, depth + 1) {
                    Ok(inner) => Ok(VariantNode::Newtype(Box::new(inner))),
                    Err(error) => Err(error),
                }
            },
            2 => {
                let len = match decode_len(buf, pos) {
                    Ok(len) => len,
                    Err(error) => return Err(error),
                };
                match decode_fields(buf, pos, depth + 1, len, Ghost(Kind::TupleVariant)) {
                    Ok(fields) => Ok(VariantNode::Tuple(fields)),
                    Err(error) => Err(error),
                }
            },
            3 => {
                let len = match decode_len(buf, pos) {
                    Ok(len) => len,
                    Err(error) => return Err(error),
                };
                match decode_named(buf, pos, depth + 1, len, Ghost(Kind::StructVariant)) {
                    Ok(fields) => Ok(VariantNode::Struct(fields)),
                    Err(error) => Err(error),
                }
            },
            _ => Err(Error::Malformed("unknown variant node tag")),
        }
    }
}

/// Decodes `len` positional fields of a node of the given kind.
fn decode_fields(
    buf: &[u8],
    pos: &mut usize,
    depth: usize,
    len: usize,
    Ghost(kind): Ghost<Kind>,
) -> (result: Result<Vec<SchemaNode>>)
    requires
        *old(pos) <= buf@.len(),
        depth <= MAX_DEPTH,
        !has_labels(kind),
    ensures
        match result {
            Ok(fields) => wire::kids_decoding(
                buf@,
                *old(pos) as nat,
                depth as nat,
                kind,
                len as nat,
            ) == Ok::<(Seq<Seq<char>>, Seq<Shape>, nat), Fault>(
                (seq![], shapes(fields@), *final(pos) as nat),
            ) && *final(pos) <= buf@.len(),
            Err(error) => wire::kids_decoding(
                buf@,
                *old(pos) as nat,
                depth as nat,
                kind,
                len as nat,
            ) == Err::<(Seq<Seq<char>>, Seq<Shape>, nat), Fault>(error@),
        },
    decreases MAX_DEPTH - depth, 1nat,
{
    let ghost start = *pos as nat;
    let mut fields: Vec<SchemaNode> = Vec::with_capacity(
        if len < 64 {
            len
        } else {
            64
        },
    );
    let mut i: usize = 0;
    assert(shapes(fields@) =~= seq![]);
    while i < len
        invariant
            i <= len,
            *pos <= buf@.len(),
            depth <= MAX_DEPTH,
            !has_labels(kind),
            fields@.len() == i,
            start == *old(pos),
            wire::kids_decoding(buf@, start, depth as nat, kind, i as nat) == Ok::<
                (Seq<Seq<char>>, Seq<Shape>, nat),
                Fault,
            >((seq![], shapes(fields@), *pos as nat)),
        decreases len - i,
    {
        let ghost before = fields@;
        proof {
            if wire::kids_decoding(buf@, start, depth as nat, kind, (i + 1) as nat) is Err {
                wire::lemma_kids_fault(
                    buf@,
                    start,
                    depth as nat,
                    kind,
                    (i + 1) as nat,
                    len as nat,
                );
            }
        }
        match SchemaNode::decode(buf, pos, depth) {
            Ok(field) => {
                fields.push(field);
                assert(shapes(fields@) =~= shapes(before).push(field@));
            },
            Err(error) => return Err(error),
        }
        i += 1;
    }
    Ok(fields)
}

/// Decodes `len` named fields of a node of the given kind.
fn decode_named(
    buf: &[u8],
    pos: &mut usize,
    depth: usize,
    len: usize,
    Ghost(kind): Ghost<Kind>,
) -> (result: Result<Vec<(String, SchemaNode)>>)
    requires
        *old(pos) <= buf@.len(),
        depth <= MAX_DEPTH,
        has_labels(kind),
        !(kind is Enum),
    ensures
        match result {
            Ok(fields) => wire::kids_decoding(
                buf@,
                *old(pos) as nat,
                depth as nat,
                kind,
                len as nat,
            ) == Ok::<(Seq<Seq<char>>, Seq<Shape>, nat), Fault>(
                (labels(fields@), named_shapes(fields@), *final(pos) as nat),
            ) && *final(pos) <= buf@.len(),
            Err(error) => wire::kids_decoding(
                buf@,
                *old(pos) as nat,
                depth as nat,
                kind,
                len as nat,
            ) == Err::<(Seq<Seq<char>>, Seq<Shape>, nat), Fault>(error@),
        },
    decreases MAX_DEPTH - depth, 1nat,
{
    let ghost start = *pos as nat;
    let mut fields: Vec<(String, SchemaNode)> = Vec::with_capacity(
        if len < 64 {
            len
        } else {
            64
        },
    );
    let mut i: usize = 0;
    assert(named_shapes(fields@) =~= seq![]);
    assert(labels(fields@) =~= seq![]);
    while i < len
        invariant
            i <= len,
            *pos <= buf@.len(),
            depth <= MAX_DEPTH,
            has_labels(kind),
            !(kind is Enum),
            fields@.len() == i,
            start == *old(pos),
            wire::kids_decoding(buf@, start, depth as nat, kind, i as nat) == Ok::<
                (Seq<Seq<char>>, Seq<Shape>, nat),
                Fault,
            >((labels(fields@), named_shapes(fields@), *pos as nat)),
        decreases len - i,
    {
        let ghost before = fields@;
        proof {
            if wire::kids_decoding(buf@, start, depth as nat, kind, (i + 1) as nat) is Err {
                wire::lemma_kids_fault(
                    buf@,
                    start,
                    depth as nat,
                    kind,
                    (i + 1) as nat,
                    len as nat,
                );
            }
        }
        let name = match decode_str(buf, pos) {
            Ok(name) => name,
            Err(error) => return Err(error),
        };
        match SchemaNode::decode(buf, pos, depth) {
            Ok(field) => {
                let ghost label = name@;
                fields.push((name, field));
                assert(named_shapes(fields@) =~= named_shapes(before).push(field@));
                assert(labels(fields@) =~= labels(before).push(label));
            },
            Err(error) => return Err(error),
        }
        i += 1;
    }
    Ok(fields)
}

/// Decodes `len` named variants of an enum.
fn decode_variants(buf: &[u8], pos: &mut usize, depth: usize, len: usize) -> (result: Result<
    Vec<(String, VariantNode)>,
>)
    requires
        *old(pos) <= buf@.len(),
        depth <= MAX_DEPTH,
    ensures
        match result {
            Ok(variants) => wire::kids_decoding(
                buf@,
                *old(pos) as nat,
                depth as nat,
                Kind::Enum,
                len as nat,
            ) == Ok::<(Seq<Seq<char>>, Seq<Shape>, nat), Fault>(
                (labels(variants@), variant_shapes(variants@), *final(pos) as nat),
            ) && *final(pos) <= buf@.len(),
            Err(error) => wire::kids_decoding(
                buf@,
                *old(pos) as nat,
                depth as nat,
                Kind::Enum,
                len as nat,
            ) == Err::<(Seq<Seq<char>>, Seq<Shape>, nat), Fault>(error@),
        },
    decreases MAX_DEPTH - depth, 1nat,
{
    let ghost start = *pos as nat;
    let mut variants: Vec<(String, VariantNode)> = Vec::with_capacity(
        if len < 64 {
            len
        } else {
            64
        },
    );
    let mut i: usize = 0;
    assert(variant_shapes(variants@) =~= seq![]);
    assert(labels(variants@) =~= seq![]);
    while i < len
        invariant
            i <= len,
            *pos <= buf@.len(),
            depth <= MAX_DEPTH,
            variants@.len() == i,
            start == *old(pos),
            wire::kids_decoding(buf@, start, depth as nat, Kind::Enum, i as nat) == Ok::<
                (Seq<Seq<char>>, Seq<Shape>, nat),
                Fault,
            >((labels(variants@), variant_shapes(variants@), *pos as nat)),
        decreases len - i,
    {
        let ghost before = variants@;
        proof {
            if wire::kids_decoding(buf@, start, depth as nat, Kind::Enum, (i + 1) as nat) is Err {
                wire::lemma_kids_fault(
                    buf@,
                    start,
                    depth as nat,
                    Kind::Enum,
                    (i + 1) as nat,
                    len as nat,
                );
            }
        }
        let name = match decode_str(buf, pos) {
            Ok(name) => name,
            Err(error) => return Err(error),
        };
        match VariantNode::decode(buf, pos, depth) {
            Ok(variant) => {
                let ghost label = name@;
                variants.push((name, variant));
                assert(variant_shapes(variants@) =~= variant_shapes(before).push(variant@));
                assert(labels(variants@) =~= labels(before).push(label));
            },
            Err(error) => return Err(error),
        }
        i += 1;
    }
    Ok(variants)
}

/// Reads one byte.
fn take_byte(buf: &[u8], pos: &mut usize) -> (result: Result<u8>)
    requires
        *old(pos) <= buf@.len(),
    ensures
        match result {
            Ok(byte) => *old(pos) < buf@.len() && byte == buf@[*old(pos) as int] && *final(pos)
                == *old(pos) + 1,
            Err(error) => *old(pos) == buf@.len() && error@ == Fault::UnexpectedEof,
        },
{
    if *pos >= buf.len() {
        return Err(Error::UnexpectedEof);
    }
    let byte: u8 = buf[*pos];
    *pos = *pos + 1;
    Ok(byte)
}

/// Reads a length.
fn decode_len(buf: &[u8], pos: &mut usize) -> (result: Result<usize>)
    requires
        *old(pos) <= buf@.len(),
    ensures
        match result {
            Ok(len) => wire::read_len(buf@, *old(pos) as nat) == Ok::<(nat, nat), Fault>(
                (len as nat, *final(pos) as nat),
            ) && *final(pos) <= buf@.len(),
            Err(error) => wire::read_len(buf@, *old(pos) as nat) == Err::<(nat, nat), Fault>(
                error@,
            ),
        },
{
    let tail = vstd::slice::slice_subrange(buf, *pos, buf.len());
    match varint::read(tail) {
        Ok((value, used)) => {
            proof {
                varint::lemma_encode_decode(tail@);
            }
            if value > usize::MAX as u64 {
                return Err(Error::Malformed("length overflows usize"));
            }
            *pos = *pos + used;
            Ok(value as usize)
        },
        Err(error) => Err(error),
    }
}

/// Reads a length-prefixed string.
fn decode_str(buf: &[u8], pos: &mut usize) -> (result: Result<String>)
    requires
        *old(pos) <= buf@.len(),
    ensures
        match result {
            Ok(s) => wire::read_text(buf@, *old(pos) as nat) == Ok::<(Seq<char>, nat), Fault>(
                (s@, *final(pos) as nat),
            ) && *final(pos) <= buf@.len(),
            Err(error) => wire::read_text(buf@, *old(pos) as nat) == Err::<
                (Seq<char>, nat),
                Fault,
            >(error@),
        },
{
    let len = match decode_len(buf, pos) {
        Ok(len) => len,
        Err(error) => return Err(error),
    };
    if len > buf.len() - *pos {
        return Err(Error::UnexpectedEof);
    }
    let end: usize = *pos + len;
    let bytes = vstd::slice::slice_subrange(buf, *pos, end);
    *pos = end;
    match text::str_from_utf8(bytes) {
        Some(s) => {
            proof {
                vstd::utf8::encode_utf8_decode_utf8(s@);
            }
            Ok(s.to_owned())
        },
        None => Err(Error::InvalidUtf8),
    }
}


/// A copy of a list of schemas.
fn copy_fields(fields: &Vec<SchemaNode>) -> (result: Vec<SchemaNode>)
    ensures
        shapes(result@) == shapes(fields@),
    decreases fields@,
{
    let mut out: Vec<SchemaNode> = Vec::new();
    let mut i: usize = 0;
    while i < fields.len()
        invariant
            i <= fields@.len(),
            out@.len() == i,
            forall|k: int| 0 <= k < i ==> (#[trigger] out@[k])@ == fields@[k]@,
        decreases fields@.len() - i,
    {
        out.push(fields[i].clone());
        i += 1;
    }
    assert(shapes(out@) =~= shapes(fields@));
    out
}

/// A copy of a list of named schemas.
fn copy_named(fields: &Vec<(String, SchemaNode)>) -> (result: Vec<(String, SchemaNode)>)
    ensures
        named_shapes(result@) == named_shapes(fields@),
        labels(result@) == labels(fields@),
    decreases fields@,
{
    let mut out: Vec<(String, SchemaNode)> = Vec::new();
    let mut i: usize = 0;
    while i < fields.len()
        invariant
            i <= fields@.len(),
            out@.len() == i,
            forall|k: int| 0 <= k < i ==> (#[trigger] out@[k]).1@ == fields@[k].1@,
            forall|k: int| 0 <= k < i ==> (#[trigger] out@[k]).0@ == fields@[k].0@,
        decreases fields@.len() - i,
    {
        out.push((fields[i].0.clone(), fields[i].1.clone()));
        i += 1;
    }
    assert(named_shapes(out@) =~= named_shapes(fields@));
    assert(labels(out@) =~= labels(fields@));
    out
}

/// A copy of a list of named variants.
fn copy_variants(variants: &Vec<(String, VariantNode)>) -> (result: Vec<(String, VariantNode)>)
    ensures
        variant_shapes(result@) == variant_shapes(variants@),
        labels(result@) == labels(variants@),
    decreases variants@,
{
    let mut out: Vec<(String, VariantNode)> = Vec::new();
    let mut i: usize = 0;
    while i < variants.len()
        invariant
            i <= variants@.len(),
            out@.len() == i,
            forall|k: int| 0 <= k < i ==> (#[trigger] out@[k]).1@ == variants@[k].1@,
            forall|k: int| 0 <= k < i ==> (#[trigger] out@[k]).0@ == variants@[k].0@,
        decreases variants@.len() - i,
    {
        out.push((variants[i].0.clone(), variants[i].1.clone()));
        i += 1;
    }
    assert(variant_shapes(out@) =~= variant_shapes(variants@));
    assert(labels(out@) =~= labels(variants@));
    out
}

impl Clone for SchemaNode {
    fn clone(&self) -> (result: Self)
        ensures
            result@ == self@,
        decreases self,
    {
        match self {
            SchemaNode::Primitive(p) => SchemaNode::Primitive(*p),
            SchemaNode::String => SchemaNode::String,
            SchemaNode::Bytes => SchemaNode::Bytes,
            SchemaNode::Unit => SchemaNode::Unit,
            SchemaNode::Option(inner) => SchemaNode::Option(Box::new((**inner).clone())),
            SchemaNode::UnitStruct { name } => SchemaNode::UnitStruct { name: name.clone() },
            SchemaNode::NewtypeStruct { name, inner } => SchemaNode::NewtypeStruct {
                name: name.clone(),
                inner: Box::new((**inner).clone()),
            },
            SchemaNode::Sequence(elem) => SchemaNode::Sequence(Box::new((**elem).clone())),
            SchemaNode::Tuple(fields) => SchemaNode::Tuple(copy_fields(fields)),
            SchemaNode::TupleStruct { name, fields } => SchemaNode::TupleStruct {
                name: name.clone(),
                fields: copy_fields(fields),
            },
            SchemaNode::Mapping { key, value } => SchemaNode::Mapping {
                key: Box::new((**key).clone()),
                value: Box::new((**value).clone()),
            },
            SchemaNode::Struct { name, fields } => SchemaNode::Struct {
                name: name.clone(),
                fields: copy_named(fields),
            },
            SchemaNode::Enum { name, variants } => SchemaNode::Enum {
                name: name.clone(),
                variants: copy_variants(variants),
            },
            SchemaNode::Shared(inner) => SchemaNode::Shared(Box::new((**inner).clone())),
        }
    }
}

impl Clone for VariantNode {
    fn clone(&self) -> (result: Self)
        ensures
            result@ == self@,
        decreases self,
    {
        match self {
            VariantNode::Unit => VariantNode::Unit,
            VariantNode::Newtype(inner) => VariantNode::Newtype(Box::new((**inner).clone())),
            VariantNode::Tuple(fields) => VariantNode::Tuple(copy_fields(fields)),
            VariantNode::Struct(fields) => VariantNode::Struct(copy_named(fields)),
        }
    }
}

/// Whether two lists of schemas describe the same trees.
fn same_fields(a: &Vec<SchemaNode>, b: &Vec<SchemaNode>) -> (result: bool)
    ensures
        result == (shapes(a@) == shapes(b@)),
    decreases a@,
{
    if a.len() != b.len() {
        assert(shapes(a@).len() != shapes(b@).len());
        return false;
    }
    let mut i: usize = 0;
    while i < a.len()
        invariant
            i <= a@.len(),
            a@.len() == b@.len(),
            forall|k: int| 0 <= k < i ==> (#[trigger] a@[k])@ == b@[k]@,
        decreases a@.len() - i,
    {
        if !a[i].same(&b[i]) {
            assert(shapes(a@)[i as int] != shapes(b@)[i as int]);
            return false;
        }
        i += 1;
    }
    assert(shapes(a@) =~= shapes(b@));
    true
}

/// Whether two lists of named schemas describe the same names and trees.
fn same_named(a: &Vec<(String, SchemaNode)>, b: &Vec<(String, SchemaNode)>) -> (result: bool)
    ensures
        result == (named_shapes(a@) == named_shapes(b@) && labels(a@) == labels(b@)),
    decreases a@,
{
    if a.len() != b.len() {
        assert(named_shapes(a@).len() != named_shapes(b@).len());
        return false;
    }
    let mut i: usize = 0;
    while i < a.len()
        invariant
            i <= a@.len(),
            a@.len() == b@.len(),
            forall|k: int| 0 <= k < i ==> (#[trigger] a@[k]).1@ == b@[k].1@,
            forall|k: int| 0 <= k < i ==> (#[trigger] a@[k]).0@ == b@[k].0@,
        decreases a@.len() - i,
    {
        if a[i].0 != b[i].0 {
            assert(labels(a@)[i as int] != labels(b@)[i as int]);
            return false;
        }
        if !a[i].1.same(&b[i].1) {
            assert(named_shapes(a@)[i as int] != named_shapes(b@)[i as int]);
            return false;
        }
        i += 1;
    }
    assert(named_shapes(a@) =~= named_shapes(b@));
    assert(labels(a@) =~= labels(b@));
    true
}

/// Whether two lists of named variants describe the same names and trees.
fn same_variants(a: &Vec<(String, VariantNode)>, b: &Vec<(String, VariantNode)>) -> (result: bool)
    ensures
        result == (variant_shapes(a@) == variant_shapes(b@) && labels(a@) == labels(b@)),
    decreases a@,
{
    if a.len() != b.len() {
        assert(variant_shapes(a@).len() != variant_shapes(b@).len());
        return false;
    }
    let mut i: usize = 0;
    while i < a.len()
        invariant
            i <= a@.len(),
            a@.len() == b@.len(),
            forall|k: int| 0 <= k < i ==> (#[trigger] a@[k]).1@ == b@[k].1@,
            forall|k: int| 0 <= k < i ==> (#[trigger] a@[k]).0@ == b@[k].0@,
        decreases a@.len() - i,
    {
        if a[i].0 != b[i].0 {
            assert(labels(a@)[i as int] != labels(b@)[i as int]);
            return false;
        }
        if !a[i].1.same(&b[i].1) {
            assert(variant_shapes(a@)[i as int] != variant_shapes(b@)[i as int]);
            return false;
        }
        i += 1;
    }
    assert(variant_shapes(a@) =~= variant_shapes(b@));
    assert(labels(a@) =~= labels(b@));
    true
}

impl SchemaNode {
    /// Whether two schemas describe the same tree.
    pub fn same(&self, other: &Self) -> (result: bool)
        ensures
            result == (self@ == other@),
        decreases self,
    {
        match (self, other) {
            (SchemaNode::Primitive(a), SchemaNode::Primitive(b)) => {
                let result = *a == *b;
                assert(result == (self@ == other@));
                result
            },
            (SchemaNode::String, SchemaNode::String) => true,
            (SchemaNode::Bytes, SchemaNode::Bytes) => true,
            (SchemaNode::Unit, SchemaNode::Unit) => true,
            (SchemaNode::Option(a), SchemaNode::Option(b)) => {
                proof {
                    lemma_one_kid_same(self@, other@);
                }
                let result = a.same(b);
                assert(result == (self@ == other@));
                result
            },
            (SchemaNode::UnitStruct { name: a }, SchemaNode::UnitStruct { name: b }) => {
                let result = *a == *b;
                assert(result == (self@ == other@));
                result
            },
            (
                SchemaNode::NewtypeStruct { name: a, inner: x },
                SchemaNode::NewtypeStruct { name: b, inner: y },
            ) => {
                proof {
                    lemma_one_kid_same(self@, other@);
                }
                let result = *a == *b && x.same(y);
                assert(result == (self@ == other@));
                result
            },
            (SchemaNode::Sequence(a), SchemaNode::Sequence(b)) => {
                proof {
                    lemma_one_kid_same(self@, other@);
                }
                let result = a.same(b);
                assert(result == (self@ == other@));
                result
            },
            (SchemaNode::Tuple(a), SchemaNode::Tuple(b)) => {
                let result = same_fields(a, b);
                assert(result == (self@ == other@));
                result
            },
            (
                SchemaNode::TupleStruct { name: a, fields: x },
                SchemaNode::TupleStruct { name: b, fields: y },
            ) => *a == *b && same_fields(x, y),
            (
                SchemaNode::Mapping { key: a, value: x },
                SchemaNode::Mapping { key: b, value: y },
            ) => {
                proof {
                    lemma_two_kids_same(self@, other@);
                }
                let result = a.same(b) && x.same(y);
                assert(result == (self@ == other@));
                result
            },
            (
                SchemaNode::Struct { name: a, fields: x },
                SchemaNode::Struct { name: b, fields: y },
            ) => *a == *b && same_named(x, y),
            (
                SchemaNode::Enum { name: a, variants: x },
                SchemaNode::Enum { name: b, variants: y },
            ) => *a == *b && same_variants(x, y),
            (SchemaNode::Shared(a), SchemaNode::Shared(b)) => {
                proof {
                    lemma_one_kid_same(self@, other@);
                }
                let result = a.same(b);
                assert(result == (self@ == other@));
                result
            },
            _ => false,
        }
    }
}

impl VariantNode {
    /// Whether two variant shapes describe the same tree.
    pub fn same(&self, other: &Self) -> (result: bool)
        ensures
            result == (self@ == other@),
        decreases self,
    {
        match (self, other) {
            (VariantNode::Unit, VariantNode::Unit) => true,
            (VariantNode::Newtype(a), VariantNode::Newtype(b)) => {
                proof {
                    lemma_one_kid_same(self@, other@);
                }
                a.same(b)
            },
            (VariantNode::Tuple(a), VariantNode::Tuple(b)) => same_fields(a, b),
            (VariantNode::Struct(a), VariantNode::Struct(b)) => same_named(a, b),
            _ => false,
        }
    }
}

proof fn lemma_one_kid_same(a: Shape, b: Shape)
    requires
        a.kids.len() == 1,
        b.kids.len() == 1,
    ensures
        (a.kids == b.kids) == (a.kids[0] == b.kids[0]),
{
    if a.kids[0] == b.kids[0] {
        assert(a.kids =~= b.kids);
    }
}

proof fn lemma_two_kids_same(a: Shape, b: Shape)
    requires
        a.kids.len() == 2,
        b.kids.len() == 2,
    ensures
        (a.kids == b.kids) == (a.kids[0] == b.kids[0] && a.kids[1] == b.kids[1]),
{
    if a.kids[0] == b.kids[0] && a.kids[1] == b.kids[1] {
        assert(a.kids =~= b.kids);
    }
}

/// A description of how values of type `T` are serialized.
///
/// Obtain one with [`StaticSchema::schema`](crate::static_schema::StaticSchema::schema),
/// or by wrapping a traced tree with [`Schema::from_node`].
///
/// A `Schema` can be shipped: [`Schema::to_bytes`] produces a versioned
/// binary form that [`Schema::from_bytes`] reads back, so it can be sent once
/// over a network and reused for any number of data blobs, or prepended to a
/// file.
#[derive(Debug)]
pub struct Schema<T: ?Sized> {
    root: SchemaNode,
    marker: std::marker::PhantomData<T>,
}

impl<T: ?Sized> View for Schema<T> {
    type V = Shape;

    closed spec fn view(&self) -> Shape {
        self.root@
    }
}

impl<T: ?Sized> Schema<T> {
    /// Wraps an untyped schema tree as the schema for `T`.
    ///
    /// The caller asserts that the tree matches how `T` serializes (or an
    /// older, field-compatible version of it).
    #[must_use]
    pub fn from_node(root: SchemaNode) -> (result: Self)
        ensures
            result@ == root@,
    {
        Schema { root, marker: std::marker::PhantomData }
    }

    /// The untyped schema tree.
    #[must_use]
    pub fn node(&self) -> (result: &SchemaNode)
        ensures
            result@ == self@,
    {
        &self.root
    }

    /// Consumes the schema, returning the untyped tree.
    #[must_use]
    pub fn into_node(self) -> (result: SchemaNode)
        ensures
            result@ == self@,
    {
        self.root
    }

    /// Reinterprets this schema as the schema for a different type.
    ///
    /// Use this to read a blob written by an older version of a type into its
    /// current version: the schema describes the *writer*, and the reader
    /// reconciles it against `U` by field name.
    #[must_use]
    pub fn cast<U: ?Sized>(self) -> (result: Schema<U>)
        ensures
            result@ == self@,
    {
        Schema { root: self.root, marker: std::marker::PhantomData }
    }

    /// Encodes the schema in its versioned binary form, beginning with
    /// [`SCHEMA_VERSION`].
    #[must_use]
    pub fn to_bytes(&self) -> (result: Vec<u8>)
        ensures
            result@ == wire::versioned(self@),
            wire::fits(self@),
    {
        self.root.to_bytes()
    }

    /// Decodes a schema from the form produced by [`Schema::to_bytes`].
    ///
    /// # Errors
    ///
    /// [`Error::UnsupportedVersion`] if the bytes were written in a newer
    /// version, and [`Error::Malformed`] / [`Error::UnexpectedEof`] /
    /// [`Error::InvalidUtf8`] / [`Error::InvalidVarint`] /
    /// [`Error::DepthLimitExceeded`] / [`Error::TrailingBytes`] on damaged or
    /// hostile input.
    pub fn from_bytes(bytes: &[u8]) -> (result: Result<Self>)
        ensures
            match result {
                Ok(schema) => wire::parsed(bytes@) == Ok::<Shape, Fault>(schema@),
                Err(error) => wire::parsed(bytes@) == Err::<Shape, Fault>(error@),
            },
    {
        match SchemaNode::from_bytes(bytes) {
            Ok(node) => Ok(Self::from_node(node)),
            Err(error) => Err(error),
        }
    }

    /// A short description of the schema's shape, e.g. ``struct `Star` ``.
    #[must_use]
    pub fn to_string(&self) -> (result: String)
        ensures
            result@ == description(self@),
    {
        self.root.describe()
    }

    /// Whether two schemas describe the same shape.
    #[must_use]
    pub fn same(&self, other: &Self) -> (result: bool)
        ensures
            result == (self@ == other@),
    {
        self.root.same(&other.root)
    }

    /// The tree behind a schema is well formed.
    pub proof fn lemma_well_formed(&self)
        ensures
            self@.well_formed(),
            !crate::shape::is_variant(self@.kind),
    {
        lemma_node_well_formed(self.root);
    }
}

impl<T: ?Sized> Clone for Schema<T> {
    fn clone(&self) -> (result: Self)
        ensures
            result@ == self@,
    {
        Schema { root: self.root.clone(), marker: std::marker::PhantomData }
    }
}

impl<'s, T: ?Sized> From<Schema<T>> for Cow<'s, Schema<T>> {
    fn from(schema: Schema<T>) -> (result: Self) {
        Cow::Owned(schema)
    }
}

impl<'s, T: ?Sized> FromSpecImpl<Schema<T>> for Cow<'s, Schema<T>> {
    open spec fn obeys_from_spec() -> bool {
        true
    }

    open spec fn from_spec(schema: Schema<T>) -> Self {
        Cow::Owned(schema)
    }
}

impl<'s, T: ?Sized> From<&'s Schema<T>> for Cow<'s, Schema<T>> {
    fn from(schema: &'s Schema<T>) -> (result: Self) {
        Cow::Borrowed(schema)
    }
}

impl<'s, T: ?Sized> FromSpecImpl<&'s Schema<T>> for Cow<'s, Schema<T>> {
    open spec fn obeys_from_spec() -> bool {
        true
    }

    open spec fn from_spec(schema: &'s Schema<T>) -> Self {
        Cow::Borrowed(schema)
    }
}

/// The schema that an engine took, borrowed or owned.
pub(crate) fn held<'a, T: ?Sized>(schema: &'a Cow<'_, Schema<T>>) -> (result: &'a Schema<T>)
    ensures
        result@ == schema@,
{
    match schema {
        Cow::Borrowed(schema) => schema,
        Cow::Owned(schema) => schema,
    }
}

impl<T: ?Sized> PartialEq for Schema<T> {
    fn eq(&self, other: &Self) -> (result: bool) {
        self.same(other)
    }
}

impl<T: ?Sized> vstd::std_specs::cmp::PartialEqSpecImpl for Schema<T> {
    open spec fn obeys_eq_spec() -> bool {
        true
    }

    open spec fn eq_spec(&self, other: &Self) -> bool {
        self@ == other@
    }
}

} // verus!
