//! The byte form of a schema, as mathematics: what a tree encodes to, what
//! bytes decode to, and that the two are inverse.

use vstd::prelude::*;
use vstd::utf8::{decode_utf8, encode_utf8, valid_utf8};

use crate::error::Fault;
use crate::put::prefix;
use crate::schema::{Primitive, MAX_DEPTH, SCHEMA_VERSION};
use crate::shape::{
    columns_before, fixed_kids, has_labels, has_name, is_counted, is_variant, width_of, Kind, Shape,
};
use crate::varint;

verus! {

/// The stable tag of a primitive.
pub open spec fn primitive_tag(p: Primitive) -> u8 {
    match p {
        Primitive::Bool => 0,
        Primitive::I8 => 1,
        Primitive::I16 => 2,
        Primitive::I32 => 3,
        Primitive::I64 => 4,
        Primitive::I128 => 5,
        Primitive::U8 => 6,
        Primitive::U16 => 7,
        Primitive::U32 => 8,
        Primitive::U64 => 9,
        Primitive::U128 => 10,
        Primitive::F32 => 11,
        Primitive::F64 => 12,
        Primitive::Char => 13,
    }
}

/// The primitive with the given tag.
pub open spec fn primitive_of(tag: u8) -> Option<Primitive> {
    if tag == 0 {
        Some(Primitive::Bool)
    } else if tag == 1 {
        Some(Primitive::I8)
    } else if tag == 2 {
        Some(Primitive::I16)
    } else if tag == 3 {
        Some(Primitive::I32)
    } else if tag == 4 {
        Some(Primitive::I64)
    } else if tag == 5 {
        Some(Primitive::I128)
    } else if tag == 6 {
        Some(Primitive::U8)
    } else if tag == 7 {
        Some(Primitive::U16)
    } else if tag == 8 {
        Some(Primitive::U32)
    } else if tag == 9 {
        Some(Primitive::U64)
    } else if tag == 10 {
        Some(Primitive::U128)
    } else if tag == 11 {
        Some(Primitive::F32)
    } else if tag == 12 {
        Some(Primitive::F64)
    } else if tag == 13 {
        Some(Primitive::Char)
    } else {
        None
    }
}

/// The stable tag of a kind. Nodes and variants are tagged separately.
pub open spec fn tag(kind: Kind) -> u8 {
    match kind {
        Kind::Primitive(p) => primitive_tag(p),
        Kind::String => 14,
        Kind::Bytes => 15,
        Kind::Unit => 16,
        Kind::Option => 17,
        Kind::UnitStruct => 18,
        Kind::NewtypeStruct => 19,
        Kind::Sequence => 20,
        Kind::Tuple => 21,
        Kind::TupleStruct => 22,
        Kind::Mapping => 23,
        Kind::Struct => 24,
        Kind::Enum => 25,
        Kind::Shared => 26,
        Kind::UnitVariant => 0,
        Kind::NewtypeVariant => 1,
        Kind::TupleVariant => 2,
        Kind::StructVariant => 3,
    }
}

/// The kind with the given tag, among variants or among nodes.
pub open spec fn kind_of(tag: u8, variant: bool) -> Option<Kind> {
    if variant {
        if tag == 0 {
            Some(Kind::UnitVariant)
        } else if tag == 1 {
            Some(Kind::NewtypeVariant)
        } else if tag == 2 {
            Some(Kind::TupleVariant)
        } else if tag == 3 {
            Some(Kind::StructVariant)
        } else {
            None
        }
    } else {
        match primitive_of(tag) {
            Some(p) => Some(Kind::Primitive(p)),
            None => if tag == 14 {
                Some(Kind::String)
            } else if tag == 15 {
                Some(Kind::Bytes)
            } else if tag == 16 {
                Some(Kind::Unit)
            } else if tag == 17 {
                Some(Kind::Option)
            } else if tag == 18 {
                Some(Kind::UnitStruct)
            } else if tag == 19 {
                Some(Kind::NewtypeStruct)
            } else if tag == 20 {
                Some(Kind::Sequence)
            } else if tag == 21 {
                Some(Kind::Tuple)
            } else if tag == 22 {
                Some(Kind::TupleStruct)
            } else if tag == 23 {
                Some(Kind::Mapping)
            } else if tag == 24 {
                Some(Kind::Struct)
            } else if tag == 25 {
                Some(Kind::Enum)
            } else if tag == 26 {
                Some(Kind::Shared)
            } else {
                None
            },
        }
    }
}

/// A string: its UTF-8 length as a varint, then its UTF-8 bytes.
pub open spec fn text(s: Seq<char>) -> Seq<u8> {
    varint::encoded(encode_utf8(s).len()) + encode_utf8(s)
}

/// A tree in pre-order: tag, then the name, then the number of children, where
/// the kind has them, then the children, each after its label.
pub open spec fn encoding(s: Shape) -> Seq<u8>
    decreases s, s.kids.len() + 1,
{
    seq![tag(s.kind)] + (if has_name(s.kind) {
        text(s.name)
    } else {
        seq![]
    }) + (if is_counted(s.kind) {
        varint::encoded(s.kids.len())
    } else {
        seq![]
    }) + kids_encoding(s, s.kids.len())
}

/// The first `n` children of a tree, each after its label.
pub open spec fn kids_encoding(s: Shape, n: nat) -> Seq<u8>
    decreases s, n,
{
    if n == 0 || n > s.kids.len() {
        seq![]
    } else {
        kids_encoding(s, (n - 1) as nat) + (if has_labels(s.kind) {
            text(s.labels[n - 1])
        } else {
            seq![]
        }) + encoding(s.kids[n - 1])
    }
}

/// The versioned byte form of a schema.
pub open spec fn versioned(s: Shape) -> Seq<u8> {
    varint::encoded(SCHEMA_VERSION as nat) + encoding(s)
}

/// A length at `pos`: its value, and the position after it.
pub open spec fn read_len(buf: Seq<u8>, pos: nat) -> Result<(nat, nat), Fault> {
    match varint::decoded(buf.subrange(pos as int, buf.len() as int)) {
        Ok((value, used)) => if value > usize::MAX {
            Err(Fault::Malformed("length overflows usize"@))
        } else {
            Ok((value, pos + used))
        },
        Err(fault) => Err(fault),
    }
}

/// A string at `pos`, and the position after it.
pub open spec fn read_text(buf: Seq<u8>, pos: nat) -> Result<(Seq<char>, nat), Fault> {
    match read_len(buf, pos) {
        Ok((len, start)) => if start + len > buf.len() {
            Err(Fault::UnexpectedEof)
        } else if !valid_utf8(buf.subrange(start as int, (start + len) as int)) {
            Err(Fault::InvalidUtf8)
        } else {
            Ok((decode_utf8(buf.subrange(start as int, (start + len) as int)), start + len))
        },
        Err(fault) => Err(fault),
    }
}

/// A string at `pos` if there is to be one.
pub open spec fn read_text_if(present: bool, buf: Seq<u8>, pos: nat) -> Result<
    (Seq<char>, nat),
    Fault,
> {
    if present {
        read_text(buf, pos)
    } else {
        Ok((seq![], pos))
    }
}

/// The number of children of a node of the given kind.
pub open spec fn read_count(kind: Kind, buf: Seq<u8>, pos: nat) -> Result<(nat, nat), Fault> {
    if is_counted(kind) {
        read_len(buf, pos)
    } else {
        Ok((fixed_kids(kind), pos))
    }
}

/// The tree at `pos`, `depth` levels below the root, and the position after
/// it.
pub open spec fn decoding(buf: Seq<u8>, pos: nat, depth: nat, variant: bool) -> Result<
    (Shape, nat),
    Fault,
>
    decreases MAX_DEPTH - depth, 0nat,
{
    if depth >= MAX_DEPTH {
        Err(Fault::DepthLimitExceeded)
    } else if pos >= buf.len() {
        Err(Fault::UnexpectedEof)
    } else {
        match kind_of(buf[pos as int], variant) {
            None => Err(
                Fault::Malformed(
                    if variant {
                        "unknown variant node tag"@
                    } else {
                        "unknown schema node tag"@
                    },
                ),
            ),
            Some(kind) => match read_text_if(has_name(kind), buf, pos + 1) {
                Err(fault) => Err(fault),
                Ok((name, counted)) => match read_count(kind, buf, counted) {
                    Err(fault) => Err(fault),
                    Ok((count, start)) => match kids_decoding(buf, start, depth + 1, kind, count) {
                        Err(fault) => Err(fault),
                        Ok((labels, kids, end)) => Ok((Shape { kind, name, labels, kids }, end)),
                    },
                },
            },
        }
    }
}

/// The first `n` children at `pos` of a node of the given kind: their labels,
/// their trees, and the position after them.
pub open spec fn kids_decoding(buf: Seq<u8>, pos: nat, depth: nat, kind: Kind, n: nat) -> Result<
    (Seq<Seq<char>>, Seq<Shape>, nat),
    Fault,
>
    decreases MAX_DEPTH - depth, n + 1,
{
    if n == 0 {
        Ok((seq![], seq![], pos))
    } else {
        match kids_decoding(buf, pos, depth, kind, (n - 1) as nat) {
            Err(fault) => Err(fault),
            Ok((labels, kids, next)) => match read_text_if(has_labels(kind), buf, next) {
                Err(fault) => Err(fault),
                Ok((label, start)) => match decoding(buf, start, depth, kind is Enum) {
                    Err(fault) => Err(fault),
                    Ok((kid, end)) => Ok(
                        (
                            if has_labels(kind) {
                                labels.push(label)
                            } else {
                                labels
                            },
                            kids.push(kid),
                            end,
                        ),
                    ),
                },
            },
        }
    }
}

/// The schema that a versioned byte form holds.
pub open spec fn parsed(bytes: Seq<u8>) -> Result<Shape, Fault> {
    match varint::decoded(bytes) {
        Err(fault) => Err(fault),
        Ok((version, used)) => if version == 0 {
            Err(Fault::Malformed("invalid schema version"@))
        } else if version > SCHEMA_VERSION {
            Err(Fault::UnsupportedVersion("schema"@, version as u64, SCHEMA_VERSION))
        } else {
            match decoding(bytes, used, 0, false) {
                Err(fault) => Err(fault),
                Ok((shape, end)) => if end != bytes.len() {
                    Err(Fault::TrailingBytes)
                } else {
                    Ok(shape)
                },
            }
        },
    }
}

/// Every string and every list of the tree is short enough to be held in
/// memory.
pub open spec fn fits(s: Shape) -> bool
    decreases s,
{
    &&& encode_utf8(s.name).len() <= usize::MAX
    &&& s.kids.len() <= usize::MAX
    &&& forall|i: int| 0 <= i < s.labels.len() ==> encode_utf8(#[trigger] s.labels[i]).len() <= usize::MAX
    &&& forall|i: int| 0 <= i < s.kids.len() ==> fits(#[trigger] s.kids[i])
}

/// The part of `buf` from `pos` on starts with `part`.
pub open spec fn stands_at(buf: Seq<u8>, pos: nat, part: Seq<u8>) -> bool {
    &&& pos + part.len() <= buf.len()
    &&& buf.subrange(pos as int, (pos + part.len()) as int) == part
}

pub proof fn lemma_stands_split(buf: Seq<u8>, pos: nat, a: Seq<u8>, b: Seq<u8>)
    requires
        stands_at(buf, pos, a + b),
    ensures
        stands_at(buf, pos, a),
        stands_at(buf, pos + a.len(), b),
{
    let whole = buf.subrange(pos as int, (pos + a.len() + b.len()) as int);
    assert(whole =~= a + b);
    assert(a =~= whole.subrange(0, a.len() as int));
    assert(b =~= whole.subrange(a.len() as int, whole.len() as int));
    assert(buf.subrange(pos as int, (pos + a.len()) as int) =~= a);
    assert(buf.subrange((pos + a.len()) as int, (pos + a.len() + b.len()) as int) =~= b);
}

pub proof fn lemma_stands_join(buf: Seq<u8>, pos: nat, a: Seq<u8>, b: Seq<u8>)
    requires
        stands_at(buf, pos, a),
        stands_at(buf, pos + a.len(), b),
    ensures
        stands_at(buf, pos, a + b),
{
    assert(buf.subrange(pos as int, (pos + a.len() + b.len()) as int) =~= a + b);
}

proof fn lemma_read_len(buf: Seq<u8>, pos: nat, value: nat)
    requires
        value <= usize::MAX,
        stands_at(buf, pos, varint::encoded(value)),
    ensures
        read_len(buf, pos) == Ok::<(nat, nat), Fault>((value, pos + varint::encoded(value).len())),
{
    let tail = buf.subrange(pos as int, buf.len() as int);
    let code = varint::encoded(value);
    assert(tail =~= code + buf.subrange((pos + code.len()) as int, buf.len() as int)) by {
        assert(tail.subrange(0, code.len() as int) =~= code);
    }
    varint::lemma_decode_encode(
        value as u64,
        buf.subrange((pos + code.len()) as int, buf.len() as int),
    );
}

proof fn lemma_read_len_inverse(buf: Seq<u8>, pos: nat)
    requires
        pos <= buf.len(),
        read_len(buf, pos) is Ok,
    ensures
        ({
            let (value, end) = read_len(buf, pos)->Ok_0;
            &&& value <= usize::MAX
            &&& end == pos + varint::encoded(value).len()
            &&& pos < end
            &&& stands_at(buf, pos, varint::encoded(value))
        }),
{
    let tail = buf.subrange(pos as int, buf.len() as int);
    varint::lemma_encode_decode(tail);
    let (value, used) = varint::decoded(tail)->Ok_0;
    assert(tail.subrange(0, used as int) =~= buf.subrange(pos as int, (pos + used) as int));
}

proof fn lemma_read_text(buf: Seq<u8>, pos: nat, s: Seq<char>)
    requires
        encode_utf8(s).len() <= usize::MAX,
        stands_at(buf, pos, text(s)),
    ensures
        read_text(buf, pos) == Ok::<(Seq<char>, nat), Fault>((s, pos + text(s).len())),
{
    let code = varint::encoded(encode_utf8(s).len());
    lemma_stands_split(buf, pos, code, encode_utf8(s));
    lemma_read_len(buf, pos, encode_utf8(s).len());
    vstd::utf8::encode_utf8_valid_utf8(s);
    vstd::utf8::encode_utf8_decode_utf8(s);
}

proof fn lemma_read_text_inverse(buf: Seq<u8>, pos: nat)
    requires
        pos <= buf.len(),
        read_text(buf, pos) is Ok,
    ensures
        ({
            let (s, end) = read_text(buf, pos)->Ok_0;
            &&& encode_utf8(s).len() <= usize::MAX
            &&& end == pos + text(s).len()
            &&& pos < end
            &&& stands_at(buf, pos, text(s))
        }),
{
    lemma_read_len_inverse(buf, pos);
    let (len, start) = read_len(buf, pos)->Ok_0;
    vstd::utf8::decode_utf8_encode_utf8(buf.subrange(start as int, (start + len) as int));
    let (s, end) = read_text(buf, pos)->Ok_0;
    lemma_stands_join(buf, pos, varint::encoded(len), encode_utf8(s));
}

proof fn lemma_kids_height(s: Shape, n: nat, i: int)
    requires
        0 <= i < n <= s.kids.len(),
    ensures
        s.kids[i].height() <= s.kids_height(n),
    decreases n,
{
    if i < n - 1 {
        lemma_kids_height(s, (n - 1) as nat, i);
    }
}

/// Where the encoding of a tree stands, that tree is read, and the position
/// after it.
#[verifier::rlimit(60)]
pub proof fn lemma_decode_encode(buf: Seq<u8>, pos: nat, depth: nat, s: Shape)
    requires
        s.well_formed(),
        fits(s),
        depth + s.height() <= MAX_DEPTH,
        stands_at(buf, pos, encoding(s)),
    ensures
        decoding(buf, pos, depth, is_variant(s.kind)) == Ok::<(Shape, nat), Fault>(
            (s, pos + encoding(s).len()),
        ),
    decreases s, s.kids.len() + 1,
{
    let head = seq![tag(s.kind)];
    let name = if has_name(s.kind) {
        text(s.name)
    } else {
        seq![]
    };
    let count = if is_counted(s.kind) {
        varint::encoded(s.kids.len())
    } else {
        seq![]
    };
    let kids = kids_encoding(s, s.kids.len());
    lemma_stands_split(buf, pos, head + name + count, kids);
    lemma_stands_split(buf, pos, head + name, count);
    lemma_stands_split(buf, pos, head, name);
    assert(buf.subrange(pos as int, (pos + 1) as int)[0] == tag(s.kind));
    assert(kind_of(tag(s.kind), is_variant(s.kind)) == Some(s.kind));
    if has_name(s.kind) {
        lemma_read_text(buf, pos + 1, s.name);
    } else {
        assert(s.name =~= seq![]);
    }
    let counted = pos + 1 + name.len();
    if is_counted(s.kind) {
        lemma_read_len(buf, counted, s.kids.len());
    }
    let start = counted + count.len();
    lemma_kids_decode_encode(buf, start, depth + 1, s, s.kids.len());
    assert(s.labels.subrange(0, s.labels.len() as int) =~= s.labels);
    assert(s.kids.subrange(0, s.kids.len() as int) =~= s.kids);
    if !has_labels(s.kind) {
        assert(s.labels =~= seq![]);
    }
    assert(encoding(s).len() == head.len() + name.len() + count.len() + kids.len());
}

proof fn lemma_kids_decode_encode(buf: Seq<u8>, pos: nat, depth: nat, s: Shape, n: nat)
    requires
        s.well_formed(),
        fits(s),
        n <= s.kids.len(),
        depth + s.kids_height(s.kids.len()) <= MAX_DEPTH,
        stands_at(buf, pos, kids_encoding(s, n)),
    ensures
        kids_decoding(buf, pos, depth, s.kind, n) == Ok::<
            (Seq<Seq<char>>, Seq<Shape>, nat),
            Fault,
        >(
            (
                if has_labels(s.kind) {
                    s.labels.subrange(0, n as int)
                } else {
                    seq![]
                },
                s.kids.subrange(0, n as int),
                pos + kids_encoding(s, n).len(),
            ),
        ),
    decreases s, n,
{
    if n == 0 {
        assert(s.labels.subrange(0, 0) =~= seq![]);
        assert(s.kids.subrange(0, 0) =~= seq![]);
    } else {
        let i = n - 1;
        let before = kids_encoding(s, i as nat);
        let label = if has_labels(s.kind) {
            text(s.labels[i])
        } else {
            seq![]
        };
        lemma_stands_split(buf, pos, before + label, encoding(s.kids[i]));
        lemma_stands_split(buf, pos, before, label);
        lemma_kids_decode_encode(buf, pos, depth, s, i as nat);
        if has_labels(s.kind) {
            lemma_read_text(buf, pos + before.len(), s.labels[i]);
            assert(s.labels.subrange(0, i).push(s.labels[i]) =~= s.labels.subrange(0, n as int));
        }
        lemma_kids_height(s, s.kids.len(), i);
        lemma_decode_encode(buf, pos + before.len() + label.len(), depth, s.kids[i]);
        assert(s.kids.subrange(0, i).push(s.kids[i]) =~= s.kids.subrange(0, n as int));
    }
}

proof fn lemma_kind_of(byte: u8, variant: bool)
    requires
        kind_of(byte, variant) is Some,
    ensures
        tag(kind_of(byte, variant)->0) == byte,
        is_variant(kind_of(byte, variant)->0) == variant,
{
}

/// Bytes that read as a tree are the encoding of that tree, and the tree is
/// well formed and no deeper than the limit.
#[verifier::rlimit(60)]
#[verifier::spinoff_prover]
pub proof fn lemma_encode_decode(buf: Seq<u8>, pos: nat, depth: nat, variant: bool)
    requires
        pos <= buf.len(),
        buf.len() <= usize::MAX,
        decoding(buf, pos, depth, variant) is Ok,
    ensures
        ({
            let (s, end) = decoding(buf, pos, depth, variant)->Ok_0;
            &&& s.well_formed()
            &&& fits(s)
            &&& is_variant(s.kind) == variant
            &&& depth + s.height() <= MAX_DEPTH
            &&& end == pos + encoding(s).len()
            &&& pos < end
            &&& stands_at(buf, pos, encoding(s))
        }),
    decreases MAX_DEPTH - depth, 0nat,
{
    let (s, end) = decoding(buf, pos, depth, variant)->Ok_0;
    let kind = kind_of(buf[pos as int], variant)->0;
    lemma_kind_of(buf[pos as int], variant);
    let head = seq![tag(kind)];
    assert(buf.subrange(pos as int, (pos + 1) as int) =~= head);
    let (name, counted) = read_text_if(has_name(kind), buf, pos + 1)->Ok_0;
    let name_bytes = if has_name(kind) {
        text(name)
    } else {
        seq![]
    };
    if has_name(kind) {
        lemma_read_text_inverse(buf, pos + 1);
    } else {
        assert(buf.subrange((pos + 1) as int, (pos + 1) as int) =~= name_bytes);
    }
    lemma_stands_join(buf, pos, head, name_bytes);
    let (count, start) = read_count(kind, buf, counted)->Ok_0;
    let count_bytes = if is_counted(kind) {
        varint::encoded(count)
    } else {
        seq![]
    };
    if is_counted(kind) {
        lemma_read_len_inverse(buf, counted);
    } else {
        assert(buf.subrange(counted as int, counted as int) =~= count_bytes);
    }
    lemma_stands_join(buf, pos, head + name_bytes, count_bytes);
    lemma_kids_lengths(buf, start, depth + 1, kind, count);
    assert(s.kids.subrange(0, count as int) =~= s.kids);
    if has_labels(kind) {
        assert(s.labels.subrange(0, count as int) =~= s.labels);
    }
    lemma_kids_encode_decode(buf, start, depth + 1, kind, count, s);
    lemma_stands_join(buf, pos, head + name_bytes + count_bytes, kids_encoding(s, s.kids.len()));
}

#[verifier::rlimit(60)]
#[verifier::spinoff_prover]
proof fn lemma_kids_encode_decode(
    buf: Seq<u8>,
    pos: nat,
    depth: nat,
    kind: Kind,
    n: nat,
    whole: Shape,
)
    requires
        pos <= buf.len(),
        buf.len() <= usize::MAX,
        depth <= MAX_DEPTH,
        kids_decoding(buf, pos, depth, kind, n) is Ok,
        whole.kind == kind,
        ({
            let (labels, kids, _) = kids_decoding(buf, pos, depth, kind, n)->Ok_0;
            &&& n <= whole.kids.len()
            &&& whole.kids.subrange(0, n as int) == kids
            &&& has_labels(kind) ==> n <= whole.labels.len() && whole.labels.subrange(0, n as int)
                == labels
        }),
    ensures
        ({
            let (labels, kids, end) = kids_decoding(buf, pos, depth, kind, n)->Ok_0;
            &&& kids.len() == n
            &&& labels.len() == if has_labels(kind) {
                n
            } else {
                0
            }
            &&& n <= buf.len()
            &&& forall|i: int|
                0 <= i < n ==> {
                    &&& (#[trigger] kids[i]).well_formed()
                    &&& fits(kids[i])
                    &&& is_variant(kids[i].kind) == (kind is Enum)
                }
            &&& forall|i: int|
                0 <= i < labels.len() ==> encode_utf8(#[trigger] labels[i]).len() <= usize::MAX
            &&& depth + whole.kids_height(n) <= MAX_DEPTH
            &&& end == pos + kids_encoding(whole, n).len()
            &&& pos + n <= end <= buf.len()
            &&& stands_at(buf, pos, kids_encoding(whole, n))
        }),
    decreases MAX_DEPTH - depth, n + 1,
{
    if n == 0 {
        assert(buf.subrange(pos as int, pos as int) =~= seq![]);
    } else {
        let i = (n - 1) as nat;
        let (labels, kids, next) = kids_decoding(buf, pos, depth, kind, i)->Ok_0;
        let (all_labels, all_kids, end) = kids_decoding(buf, pos, depth, kind, n)->Ok_0;
        lemma_kids_lengths(buf, pos, depth, kind, i);
        assert(all_kids.subrange(0, i as int) =~= kids);
        assert(whole.kids.subrange(0, i as int) =~= kids) by {
            assert forall|k: int| 0 <= k < i implies whole.kids[k] == kids[k] by {
                assert(whole.kids.subrange(0, n as int)[k] == all_kids[k]);
            }
        }
        if has_labels(kind) {
            assert(whole.labels.subrange(0, i as int) =~= labels) by {
                assert forall|k: int| 0 <= k < i implies whole.labels[k] == labels[k] by {
                    assert(whole.labels.subrange(0, n as int)[k] == all_labels[k]);
                }
            }
        }
        lemma_kids_encode_decode(buf, pos, depth, kind, i, whole);
        let (label, start) = read_text_if(has_labels(kind), buf, next)->Ok_0;
        let label_bytes = if has_labels(kind) {
            text(label)
        } else {
            seq![]
        };
        if has_labels(kind) {
            lemma_read_text_inverse(buf, next);
            assert(whole.labels.subrange(0, n as int)[i as int] == label);
        } else {
            assert(buf.subrange(next as int, next as int) =~= label_bytes);
        }
        lemma_encode_decode(buf, start, depth, kind is Enum);
        assert(whole.kids.subrange(0, n as int)[i as int] == all_kids[i as int]);
        lemma_stands_join(buf, pos, kids_encoding(whole, i), label_bytes);
        lemma_stands_join(
            buf,
            pos,
            kids_encoding(whole, i) + label_bytes,
            encoding(whole.kids[i as int]),
        );
    }
}

proof fn lemma_kids_lengths(buf: Seq<u8>, pos: nat, depth: nat, kind: Kind, n: nat)
    requires
        kids_decoding(buf, pos, depth, kind, n) is Ok,
    ensures
        kids_decoding(buf, pos, depth, kind, n)->Ok_0.1.len() == n,
        kids_decoding(buf, pos, depth, kind, n)->Ok_0.0.len() == if has_labels(kind) {
            n
        } else {
            0
        },
    decreases n,
{
    if n > 0 {
        lemma_kids_lengths(buf, pos, depth, kind, (n - 1) as nat);
    }
}

/// What a single unlabelled child reads as.
pub proof fn lemma_one_kid(buf: Seq<u8>, pos: nat, depth: nat, kind: Kind)
    requires
        !has_labels(kind),
    ensures
        kids_decoding(buf, pos, depth, kind, 1) == match decoding(buf, pos, depth, false) {
            Ok((kid, end)) => Ok::<(Seq<Seq<char>>, Seq<Shape>, nat), Fault>(
                (seq![], seq![kid], end),
            ),
            Err(fault) => Err(fault),
        },
{
    reveal_with_fuel(kids_decoding, 2);
    if let Ok((kid, end)) = decoding(buf, pos, depth, false) {
        assert(Seq::<Shape>::empty().push(kid) =~= seq![kid]);
    }
}

/// What two unlabelled children read as.
pub proof fn lemma_two_kids(buf: Seq<u8>, pos: nat, depth: nat, kind: Kind)
    requires
        !has_labels(kind),
    ensures
        kids_decoding(buf, pos, depth, kind, 2) == match decoding(buf, pos, depth, false) {
            Ok((first, next)) => match decoding(buf, next, depth, false) {
                Ok((second, end)) => Ok::<(Seq<Seq<char>>, Seq<Shape>, nat), Fault>(
                    (seq![], seq![first, second], end),
                ),
                Err(fault) => Err(fault),
            },
            Err(fault) => Err(fault),
        },
{
    lemma_one_kid(buf, pos, depth, kind);
    if let Ok((first, next)) = decoding(buf, pos, depth, false) {
        if let Ok((second, end)) = decoding(buf, next, depth, false) {
            assert(seq![first].push(second) =~= seq![first, second]);
        }
    }
}

/// Children that cannot be read cannot be read with more behind them, for the
/// same reason.
pub proof fn lemma_kids_fault(buf: Seq<u8>, pos: nat, depth: nat, kind: Kind, i: nat, n: nat)
    requires
        i <= n,
        kids_decoding(buf, pos, depth, kind, i) is Err,
    ensures
        kids_decoding(buf, pos, depth, kind, n) == kids_decoding(buf, pos, depth, kind, i),
    decreases n,
{
    if i < n {
        lemma_kids_fault(buf, pos, depth, kind, i, (n - 1) as nat);
    }
}

/// The children of two trees of one kind that stand in the same place are the
/// same.
proof fn lemma_same_kids(buf: Seq<u8>, pos: nat, a: Shape, b: Shape, n: nat)
    requires
        a.well_formed(),
        b.well_formed(),
        fits(a),
        fits(b),
        a.kind == b.kind,
        n <= a.kids.len(),
        n <= b.kids.len(),
        stands_at(buf, pos, kids_encoding(a, n)),
        stands_at(buf, pos, kids_encoding(b, n)),
    ensures
        kids_encoding(a, n) == kids_encoding(b, n),
        forall|i: int| 0 <= i < n ==> #[trigger] a.kids[i] == b.kids[i],
        has_labels(a.kind) ==> forall|i: int| 0 <= i < n ==> #[trigger] a.labels[i] == b.labels[i],
    decreases a, n,
{
    if n > 0 {
        let i = n - 1;
        let (before, other) = (kids_encoding(a, i as nat), kids_encoding(b, i as nat));
        let label = if has_labels(a.kind) {
            text(a.labels[i])
        } else {
            seq![]
        };
        let mark = if has_labels(a.kind) {
            text(b.labels[i])
        } else {
            seq![]
        };
        lemma_stands_split(buf, pos, before + label, encoding(a.kids[i]));
        lemma_stands_split(buf, pos, before, label);
        lemma_stands_split(buf, pos, other + mark, encoding(b.kids[i]));
        lemma_stands_split(buf, pos, other, mark);
        lemma_same_kids(buf, pos, a, b, i as nat);
        if has_labels(a.kind) {
            lemma_read_text(buf, pos + before.len(), a.labels[i]);
            lemma_read_text(buf, pos + before.len(), b.labels[i]);
        }
        assert(fits(a.kids[i]) && fits(b.kids[i]));
        lemma_same_tree(buf, pos + before.len() + label.len(), a.kids[i], b.kids[i]);
    }
}

/// Two trees whose encodings stand in the same place are the same.
proof fn lemma_same_tree(buf: Seq<u8>, pos: nat, a: Shape, b: Shape)
    requires
        a.well_formed(),
        b.well_formed(),
        fits(a),
        fits(b),
        is_variant(a.kind) == is_variant(b.kind),
        stands_at(buf, pos, encoding(a)),
        stands_at(buf, pos, encoding(b)),
    ensures
        a == b,
    decreases a, a.kids.len() + 1,
{
    let head = seq![tag(a.kind)];
    let other = seq![tag(b.kind)];
    let name = if has_name(a.kind) {
        text(a.name)
    } else {
        seq![]
    };
    let title = if has_name(b.kind) {
        text(b.name)
    } else {
        seq![]
    };
    let count = if is_counted(a.kind) {
        varint::encoded(a.kids.len())
    } else {
        seq![]
    };
    let number = if is_counted(b.kind) {
        varint::encoded(b.kids.len())
    } else {
        seq![]
    };
    lemma_stands_split(buf, pos, head + name + count, kids_encoding(a, a.kids.len()));
    lemma_stands_split(buf, pos, head + name, count);
    lemma_stands_split(buf, pos, head, name);
    lemma_stands_split(buf, pos, other + title + number, kids_encoding(b, b.kids.len()));
    lemma_stands_split(buf, pos, other + title, number);
    lemma_stands_split(buf, pos, other, title);
    assert(buf.subrange(pos as int, (pos + 1) as int)[0] == tag(a.kind));
    assert(buf.subrange(pos as int, (pos + 1) as int)[0] == tag(b.kind));
    assert(kind_of(tag(a.kind), is_variant(a.kind)) == Some(a.kind));
    assert(kind_of(tag(b.kind), is_variant(b.kind)) == Some(b.kind));
    assert(a.kind == b.kind);
    if has_name(a.kind) {
        lemma_read_text(buf, pos + 1, a.name);
        lemma_read_text(buf, pos + 1, b.name);
    } else {
        assert(a.name =~= b.name);
    }
    let counted = pos + 1 + name.len();
    if is_counted(a.kind) {
        lemma_read_len(buf, counted, a.kids.len());
        lemma_read_len(buf, counted, b.kids.len());
    }
    assert(a.kids.len() == b.kids.len());
    lemma_same_kids(buf, counted + count.len(), a, b, a.kids.len());
    assert(a.kids =~= b.kids);
    assert(a.labels =~= b.labels);
}

/// Schema encodings are prefix-free: of two schemas that differ, neither
/// encoding starts with the other.
pub proof fn lemma_prefix_free(a: Shape, b: Shape)
    requires
        a.well_formed(),
        b.well_formed(),
        fits(a),
        fits(b),
        !is_variant(a.kind),
        !is_variant(b.kind),
        a != b,
    ensures
        !prefix(encoding(a), encoding(b)),
        !prefix(encoding(b), encoding(a)),
{
    let (x, y) = (encoding(a), encoding(b));
    assert(stands_at(x, 0, x)) by {
        assert(x.subrange(0, x.len() as int) =~= x);
    }
    assert(stands_at(y, 0, y)) by {
        assert(y.subrange(0, y.len() as int) =~= y);
    }
    if prefix(x, y) {
        assert(y.subrange(0, x.len() as int) =~= x);
        lemma_same_tree(y, 0, a, b);
    }
    if prefix(y, x) {
        assert(x.subrange(0, y.len() as int) =~= y);
        lemma_same_tree(x, 0, a, b);
    }
}

/// Decoding gives back every schema that was encoded, as long as it nests no
/// deeper than the limit.
pub proof fn lemma_parse_versioned(s: Shape)
    requires
        s.well_formed(),
        !is_variant(s.kind),
        fits(s),
        s.height() <= MAX_DEPTH,
    ensures
        parsed(versioned(s)) == Ok::<Shape, Fault>(s),
{
    let bytes = versioned(s);
    let version = varint::encoded(SCHEMA_VERSION as nat);
    varint::lemma_decode_encode(SCHEMA_VERSION, encoding(s));
    assert(bytes.subrange(version.len() as int, bytes.len() as int) =~= encoding(s));
    lemma_decode_encode(bytes, version.len(), 0, s);
}

/// Schema encodings are canonical: bytes that parse as a schema are the bytes
/// that encoding the schema gives.
pub proof fn lemma_versioned_parse(bytes: Seq<u8>)
    requires
        bytes.len() <= usize::MAX,
        parsed(bytes) is Ok,
    ensures
        versioned(parsed(bytes)->Ok_0) == bytes,
        parsed(bytes)->Ok_0.well_formed(),
        fits(parsed(bytes)->Ok_0),
        !is_variant(parsed(bytes)->Ok_0.kind),
        parsed(bytes)->Ok_0.height() <= MAX_DEPTH,
{
    varint::lemma_encode_decode(bytes);
    let (version, used) = varint::decoded(bytes)->Ok_0;
    lemma_encode_decode(bytes, used, 0, false);
    assert(bytes.subrange(0, used as int) + bytes.subrange(used as int, bytes.len() as int)
        =~= bytes);
}

/// A schema has at most two columns for every byte of its encoding.
pub proof fn lemma_columns_bound(s: Shape)
    ensures
        width_of(s) <= 2 * encoding(s).len(),
    decreases s, s.kids.len() + 1,
{
    lemma_kids_bound(s, s.kids.len());
}

proof fn lemma_kids_bound(s: Shape, n: nat)
    requires
        n <= s.kids.len(),
    ensures
        columns_before(s, n) <= 2 * kids_encoding(s, n).len(),
    decreases s, n,
{
    if n > 0 {
        lemma_kids_bound(s, (n - 1) as nat);
        lemma_columns_bound(s.kids[n - 1]);
    }
}

/// The kinds of nodes, in the order of their tags.
pub open spec fn node_kinds() -> Seq<Kind> {
    seq![
        Kind::Primitive(Primitive::Bool),
        Kind::Primitive(Primitive::I8),
        Kind::Primitive(Primitive::I16),
        Kind::Primitive(Primitive::I32),
        Kind::Primitive(Primitive::I64),
        Kind::Primitive(Primitive::I128),
        Kind::Primitive(Primitive::U8),
        Kind::Primitive(Primitive::U16),
        Kind::Primitive(Primitive::U32),
        Kind::Primitive(Primitive::U64),
        Kind::Primitive(Primitive::U128),
        Kind::Primitive(Primitive::F32),
        Kind::Primitive(Primitive::F64),
        Kind::Primitive(Primitive::Char),
        Kind::String,
        Kind::Bytes,
        Kind::Unit,
        Kind::Option,
        Kind::UnitStruct,
        Kind::NewtypeStruct,
        Kind::Sequence,
        Kind::Tuple,
        Kind::TupleStruct,
        Kind::Mapping,
        Kind::Struct,
        Kind::Enum,
        Kind::Shared,
    ]
}

/// The kinds of variants, in the order of their tags.
pub open spec fn variant_kinds() -> Seq<Kind> {
    seq![Kind::UnitVariant, Kind::NewtypeVariant, Kind::TupleVariant, Kind::StructVariant]
}

/// A tag is the place of the kind among its like, and every place is a tag. No
/// other byte is.
pub proof fn lemma_tags(kind: Kind, byte: u8, variant: bool)
    ensures
        ({
            let list = if is_variant(kind) {
                variant_kinds()
            } else {
                node_kinds()
            };
            tag(kind) < list.len() && list[tag(kind) as int] == kind
        }),
        ({
            let list = if variant {
                variant_kinds()
            } else {
                node_kinds()
            };
            &&& kind_of(byte, variant) is Some <==> byte < list.len()
            &&& byte < list.len() ==> kind_of(byte, variant) == Some(list[byte as int])
        }),
{
}

} // verus!
