//! Checking that a type can still read data written by an older version of
//! itself.
//!
//! Two passes, because neither settles the question alone.
//!
//! **Running the reader.** A blob of synthetic values conforming to the
//! released schema, see [`sample`](crate::probe::sample), is deserialized as
//! the type. Whatever the real reader accepts, this accepts.
//!
//! **Comparing the schemas.** One value cannot show that a field's *range*
//! shrank (a `u64` that is now a `u32` reads every number below the new
//! ceiling and rejects the rest), so the two schemas are also walked in
//! parallel and their leaves compared, see [`narrowings`].
//!
//! The comparison reports only what it can be sure of. Where the trees stop
//! lining up (a field or variant the other side does not name, a shape that
//! changed) it says nothing.

use vstd::prelude::*;

use crate::error::{message, Error};
use crate::put::first_named;
use crate::schema::{
    labels, named_shapes, shapes, variant_shapes, Primitive, SchemaNode, VariantNode,
};
use crate::shape::{primitive_name, Kind, Shape};
use crate::text::{self, decimal};

verus! {

/// Why a released schema is not readable by the current type.
#[derive(Debug)]
#[non_exhaustive]
pub enum Incompatible {
    /// The type could not read a value written with the released schema.
    /// This is a real break: data in that format is no longer decodable.
    Unreadable(Error),
    /// The type reads *some* values written with the released schema and
    /// rejects others: a field whose range shrank, such as a `u64` that is
    /// now a `u32`. Found by comparing the two schemas rather than by reading
    /// anything, since no single value can demonstrate it.
    ValueDependent(Vec<String>),
    /// The probe proves nothing either way, so the result must not be read as
    /// a break, or as an all-clear.
    ///
    /// The type may reject synthetic values, or its own schema may be
    /// unavailable.
    Inconclusive(Error),
}

/// The texts of a list of strings.
pub open spec fn texts(list: Seq<String>) -> Seq<Seq<char>> {
    list.map_values(|item: String| item@)
}

/// Texts with a separator between them.
pub open spec fn joined_by(list: Seq<Seq<char>>, separator: Seq<char>, n: nat) -> Seq<char>
    decreases n,
{
    if n == 0 || n > list.len() {
        seq![]
    } else if n == 1 {
        list[0]
    } else {
        joined_by(list, separator, (n - 1) as nat) + separator + list[n - 1]
    }
}

impl Incompatible {
    /// What the verdict says of itself.
    pub open spec fn text(&self) -> Seq<char> {
        match *self {
            Incompatible::Unreadable(error) =>
                "the current type cannot read this schema's data: "@ + message(error@),
            Incompatible::ValueDependent(findings) =>
                "the current type reads only some of this schema's data: "@ + joined_by(
                texts(findings@),
                "; "@,
                findings@.len(),
            ),
            Incompatible::Inconclusive(error) =>
                "compatibility with this schema could not be determined, because the current type either rejects synthetic values or has no schema of its own to compare against (try compat::check_static if it derives Schema): "@
                + message(error@),
        }
    }

    /// What the verdict says of itself.
    pub fn to_string(&self) -> (result: String)
        ensures
            result@ == self.text(),
    {
        let mut out = String::new();
        match self {
            Incompatible::Unreadable(error) => {
                out.append("the current type cannot read this schema's data: ");
                out.append(error.to_string().as_str());
                assert(out@ =~= self.text());
            },
            Incompatible::ValueDependent(findings) => {
                out.append("the current type reads only some of this schema's data: ");
                let ghost head = out@;
                let ghost list = texts(findings@);
                let mut i: usize = 0;
                assert(out@ =~= head + joined_by(list, "; "@, 0));
                while i < findings.len()
                    invariant
                        i <= findings@.len(),
                        list == texts(findings@),
                        out@ == head + joined_by(list, "; "@, i as nat),
                    decreases findings@.len() - i,
                {
                    if i > 0 {
                        out.append("; ");
                    }
                    out.append(findings[i].as_str());
                    assert(out@ =~= head + joined_by(list, "; "@, (i + 1) as nat));
                    i += 1;
                }
                assert(head =~= "the current type reads only some of this schema's data: "@);
            },
            Incompatible::Inconclusive(error) => {
                out.append(
                    "compatibility with this schema could not be determined, because the current type either rejects synthetic values or has no schema of its own to compare against (try compat::check_static if it derives Schema): ",
                );
                out.append(error.to_string().as_str());
                assert(out@ =~= self.text());
            },
        }
        out
    }
}

/// What kind of verdict is given.
pub enum Ruling {
    Readable,
    Unreadable,
    ValueDependent,
    Inconclusive,
}

/// The kind of a verdict.
pub open spec fn ruled(verdict: std::result::Result<(), Incompatible>) -> Ruling {
    match verdict {
        Ok(_) => Ruling::Readable,
        Err(Incompatible::Unreadable(_)) => Ruling::Unreadable,
        Err(Incompatible::ValueDependent(_)) => Ruling::ValueDependent,
        Err(Incompatible::Inconclusive(_)) => Ruling::Inconclusive,
    }
}

/// The kind of verdict on whether the comparison found something, whether the
/// sample was read, and whether the type reads a sample of its own schema.
pub open spec fn ruling(narrowed: bool, read: bool, reads_own: bool) -> Ruling {
    if !read && reads_own {
        Ruling::Unreadable
    } else if narrowed {
        Ruling::ValueDependent
    } else if read {
        Ruling::Readable
    } else {
        Ruling::Inconclusive
    }
}

/// An all-clear needs both passes; a type is called broken only where it fails
/// on this schema and not on its own; and what the comparison found is told
/// wherever nothing worse is.
pub proof fn lemma_ruling(narrowed: bool, read: bool, reads_own: bool)
    ensures
        ruling(narrowed, read, reads_own) is Readable <==> read && !narrowed,
        ruling(narrowed, read, reads_own) is Unreadable ==> !read && reads_own,
        !read && reads_own ==> ruling(narrowed, read, reads_own) is Unreadable,
        ruling(narrowed, read, reads_own) is ValueDependent ==> narrowed,
        narrowed && !(ruling(narrowed, read, reads_own) is Unreadable) ==> ruling(
            narrowed,
            read,
            reads_own,
        ) is ValueDependent,
        ruling(narrowed, true, reads_own) == ruling(narrowed, true, !reads_own),
{
}

/// Decides on what both passes found: `narrowed` by the comparison, `probed`
/// by reading the released schema's sample, and whether the type has a schema
/// of its own and reads a sample of that.
///
/// A type that cannot read a sample of its *own* schema is rejecting the
/// synthetic values rather than this particular shape, and one whose own
/// schema is unavailable cannot be placed either way. Neither is a break.
pub fn verdict(
    narrowed: Vec<String>,
    probed: std::result::Result<(), Error>,
    reads_own: bool,
) -> (result: std::result::Result<(), Incompatible>)
    ensures
        match (probed, result) {
            (Ok(_), Ok(_)) => narrowed@.len() == 0,
            (Ok(_), Err(Incompatible::ValueDependent(findings))) => findings == narrowed
                && narrowed@.len() > 0,
            (Err(error), Err(Incompatible::Unreadable(found))) => found == error && reads_own,
            (Err(_), Err(Incompatible::ValueDependent(findings))) => findings == narrowed
                && !reads_own && narrowed@.len() > 0,
            (Err(error), Err(Incompatible::Inconclusive(found))) => found == error && !reads_own
                && narrowed@.len() == 0,
            _ => false,
        },
        ruled(result) == ruling(narrowed@.len() > 0, probed is Ok, reads_own),
{
    match probed {
        Ok(_) => if narrowed.len() == 0 {
            Ok(())
        } else {
            Err(Incompatible::ValueDependent(narrowed))
        },
        Err(error) => if reads_own {
            Err(Incompatible::Unreadable(error))
        } else if narrowed.len() > 0 {
            Err(Incompatible::ValueDependent(narrowed))
        } else {
            Err(Incompatible::Inconclusive(error))
        },
    }
}

/// Whether an integer type is signed, and its width in bits.
pub open spec fn integer_kind(p: Primitive) -> Option<(bool, u32)> {
    match p {
        Primitive::U8 => Some((false, 8)),
        Primitive::U16 => Some((false, 16)),
        Primitive::U32 => Some((false, 32)),
        Primitive::U64 => Some((false, 64)),
        Primitive::U128 => Some((false, 128)),
        Primitive::I8 => Some((true, 8)),
        Primitive::I16 => Some((true, 16)),
        Primitive::I32 => Some((true, 32)),
        Primitive::I64 => Some((true, 64)),
        Primitive::I128 => Some((true, 128)),
        _ => None,
    }
}

/// Whether every value of the writer's primitive survives being read as the
/// reader's. Anything but a pair of integers is left to the reader to decide.
pub open spec fn survives(writer: Primitive, reader: Primitive) -> bool {
    match (integer_kind(writer), integer_kind(reader)) {
        (Some((signed, bits)), Some((reads_signed, reads_bits))) => if signed == reads_signed {
            bits <= reads_bits
        } else {
            !signed && bits < reads_bits
        },
        _ => true,
    }
}

/// The least and the greatest value of an integer type.
pub open spec fn range(p: Primitive) -> (int, int) {
    match p {
        Primitive::U8 => (0, u8::MAX as int),
        Primitive::U16 => (0, u16::MAX as int),
        Primitive::U32 => (0, u32::MAX as int),
        Primitive::U64 => (0, u64::MAX as int),
        Primitive::U128 => (0, u128::MAX as int),
        Primitive::I8 => (i8::MIN as int, i8::MAX as int),
        Primitive::I16 => (i16::MIN as int, i16::MAX as int),
        Primitive::I32 => (i32::MIN as int, i32::MAX as int),
        Primitive::I64 => (i64::MIN as int, i64::MAX as int),
        _ => (i128::MIN as int, i128::MAX as int),
    }
}

/// An integer type survives as another exactly if its range lies within the
/// other's.
pub proof fn lemma_survives(writer: Primitive, reader: Primitive)
    requires
        integer_kind(writer) is Some,
        integer_kind(reader) is Some,
    ensures
        survives(writer, reader) == (range(reader).0 <= range(writer).0 && range(writer).1 <= range(
            reader,
        ).1),
{
}

/// Whether an integer type is signed, and its width in bits.
fn integer(p: Primitive) -> (result: Option<(bool, u32)>)
    ensures
        result == integer_kind(p),
{
    match p {
        Primitive::U8 => Some((false, 8)),
        Primitive::U16 => Some((false, 16)),
        Primitive::U32 => Some((false, 32)),
        Primitive::U64 => Some((false, 64)),
        Primitive::U128 => Some((false, 128)),
        Primitive::I8 => Some((true, 8)),
        Primitive::I16 => Some((true, 16)),
        Primitive::I32 => Some((true, 32)),
        Primitive::I64 => Some((true, 64)),
        Primitive::I128 => Some((true, 128)),
        _ => None,
    }
}

/// Whether every value the writer's primitive can hold survives being read as
/// the reader's.
///
/// Floats are left alone: narrowing one loses precision rather than failing,
/// and this check speaks to what decodes.
pub fn fits(writer: Primitive, reader: Primitive) -> (result: bool)
    ensures
        result == survives(writer, reader),
{
    match (integer(writer), integer(reader)) {
        (Some((signed, bits)), Some((reads_signed, reads_bits))) => {
            if signed == reads_signed {
                bits <= reads_bits
            } else {
                !signed && bits < reads_bits
            }
        },
        _ => true,
    }
}

/// A path one segment longer.
pub open spec fn scoped_path(path: Seq<char>, segment: Seq<char>) -> Seq<char> {
    if path.len() == 0 {
        segment
    } else {
        path + "."@ + segment
    }
}

/// What is reported of a leaf whose range shrank.
pub open spec fn finding(writer: Primitive, reader: Primitive, path: Seq<char>) -> Seq<char> {
    (if path.len() == 0 {
        "the value"@
    } else {
        "`"@ + path + "`"@
    }) + " was written as "@ + primitive_name(writer) + " and is now "@ + primitive_name(reader)
        + ", which cannot hold every value the older one could"@
}

/// Every leaf below a position where the writer's schema holds values that the
/// reader's cannot. A newtype wrapper is seen through on either side, and so is
/// an `Option` that the reader has gained.
pub open spec fn walked(w: Shape, r: Shape, path: Seq<char>) -> Seq<Seq<char>>
    decreases w, r, 1nat, 0nat,
{
    match (w.kind, r.kind) {
        (Kind::Primitive(a), Kind::Primitive(b)) => if survives(a, b) {
            seq![]
        } else {
            seq![finding(a, b, path)]
        },
        (Kind::NewtypeStruct, Kind::NewtypeStruct) => walked_kid(w, r, path),
        (Kind::NewtypeStruct, _) => if w.kids.len() == 1 {
            walked(w.kids[0], r, path)
        } else {
            seq![]
        },
        (_, Kind::NewtypeStruct) => if r.kids.len() == 1 {
            walked(w, r.kids[0], path)
        } else {
            seq![]
        },
        (Kind::Option, Kind::Option) => walked_kid(w, r, path),
        (Kind::Sequence, Kind::Sequence) => walked_kid(w, r, path),
        (Kind::Shared, Kind::Shared) => walked_kid(w, r, path),
        (_, Kind::Option) => if r.kids.len() == 1 {
            walked(w, r.kids[0], path)
        } else {
            seq![]
        },
        (Kind::Mapping, Kind::Mapping) => if w.kids.len() == 2 && r.kids.len() == 2 {
            walked(w.kids[0], r.kids[0], scoped_path(path, "key"@)) + walked(
                w.kids[1],
                r.kids[1],
                scoped_path(path, "value"@),
            )
        } else {
            seq![]
        },
        (Kind::Tuple, Kind::Tuple) => zipped(w, r, path, w.kids.len()),
        (Kind::Tuple, Kind::TupleStruct) => zipped(w, r, path, w.kids.len()),
        (Kind::TupleStruct, Kind::Tuple) => zipped(w, r, path, w.kids.len()),
        (Kind::TupleStruct, Kind::TupleStruct) => zipped(w, r, path, w.kids.len()),
        (Kind::Struct, Kind::Struct) => matched(w, r, path, w.kids.len()),
        (Kind::Enum, Kind::Enum) => matched(w, r, path, w.kids.len()),
        (Kind::NewtypeVariant, Kind::NewtypeVariant) => walked_kid(w, r, path),
        (Kind::TupleVariant, Kind::TupleVariant) => zipped(w, r, path, w.kids.len()),
        (Kind::StructVariant, Kind::StructVariant) => matched(w, r, path, w.kids.len()),
        _ => seq![],
    }
}

/// The only part of each.
pub open spec fn walked_kid(w: Shape, r: Shape, path: Seq<char>) -> Seq<Seq<char>>
    decreases w, r, 0nat, 0nat,
{
    if w.kids.len() == 1 && r.kids.len() == 1 {
        walked(w.kids[0], r.kids[0], path)
    } else {
        seq![]
    }
}

/// The first `n` fields, by position, as far as both sides have them.
pub open spec fn zipped(w: Shape, r: Shape, path: Seq<char>, n: nat) -> Seq<Seq<char>>
    decreases w, r, 0nat, n,
{
    if n == 0 || n > w.kids.len() {
        seq![]
    } else {
        zipped(w, r, path, (n - 1) as nat) + (if n <= r.kids.len() {
            walked(w.kids[n - 1], r.kids[n - 1], scoped_path(path, decimal((n - 1) as nat)))
        } else {
            seq![]
        })
    }
}

/// The first `n` fields or variants, each with the first of the same name on
/// the other side.
pub open spec fn matched(w: Shape, r: Shape, path: Seq<char>, n: nat) -> Seq<Seq<char>>
    decreases w, r, 0nat, n,
{
    if n == 0 || n > w.kids.len() {
        seq![]
    } else {
        matched(w, r, path, (n - 1) as nat) + match first_named(r.labels, w.labels[n - 1], 0) {
            Some(i) => if i < r.kids.len() {
                walked(w.kids[n - 1], r.kids[i as int], scoped_path(path, w.labels[n - 1]))
            } else {
                seq![]
            },
            None => seq![],
        }
    }
}

/// No product or enum uses a name twice.
pub open spec fn distinct(s: Shape) -> bool
    decreases s,
{
    &&& forall|i: int, j: int|
        0 <= i < j < s.labels.len() ==> #[trigger] s.labels[i] != #[trigger] s.labels[j]
    &&& forall|i: int| 0 <= i < s.kids.len() ==> distinct(#[trigger] s.kids[i])
}

proof fn lemma_first_is(names: Seq<Seq<char>>, k: nat, i: nat)
    requires
        i <= k < names.len(),
        forall|a: int, b: int|
            0 <= a < b < names.len() ==> #[trigger] names[a] != #[trigger] names[b],
    ensures
        first_named(names, names[k as int], i) == Some(k),
    decreases k - i,
{
    if i < k {
        assert(names[i as int] != names[k as int]);
        lemma_first_is(names, k, i + 1);
    }
}

/// An unchanged type has nothing to report.
pub proof fn lemma_unchanged(s: Shape, path: Seq<char>)
    requires
        s.well_formed(),
        distinct(s),
    ensures
        walked(s, s, path) == Seq::<Seq<char>>::empty(),
    decreases s, 1nat, 0nat,
{
    match s.kind {
        Kind::NewtypeStruct
        | Kind::Option
        | Kind::Sequence
        | Kind::Shared
        | Kind::NewtypeVariant => {
            assert(distinct(s.kids[0]) && s.kids[0].well_formed());
            lemma_unchanged(s.kids[0], path);
            assert(walked_kid(s, s, path) == Seq::<Seq<char>>::empty());
        },
        Kind::Mapping => {
            assert(distinct(s.kids[0]) && s.kids[0].well_formed());
            assert(distinct(s.kids[1]) && s.kids[1].well_formed());
            lemma_unchanged(s.kids[0], scoped_path(path, "key"@));
            lemma_unchanged(s.kids[1], scoped_path(path, "value"@));
        },
        Kind::Tuple | Kind::TupleStruct | Kind::TupleVariant => {
            lemma_unchanged_positions(s, path, s.kids.len());
        },
        Kind::Struct | Kind::Enum | Kind::StructVariant => {
            lemma_unchanged_names(s, path, s.kids.len());
        },
        _ => {},
    }
}

proof fn lemma_unchanged_positions(s: Shape, path: Seq<char>, n: nat)
    requires
        s.well_formed(),
        distinct(s),
        n <= s.kids.len(),
    ensures
        zipped(s, s, path, n) == Seq::<Seq<char>>::empty(),
    decreases s, 0nat, n,
{
    if n > 0 {
        lemma_unchanged_positions(s, path, (n - 1) as nat);
        assert(distinct(s.kids[n - 1]) && s.kids[n - 1].well_formed());
        lemma_unchanged(s.kids[n - 1], scoped_path(path, decimal((n - 1) as nat)));
    }
}

proof fn lemma_unchanged_names(s: Shape, path: Seq<char>, n: nat)
    requires
        s.well_formed(),
        distinct(s),
        n <= s.kids.len(),
        s.labels.len() == s.kids.len(),
    ensures
        matched(s, s, path, n) == Seq::<Seq<char>>::empty(),
    decreases s, 0nat, n,
{
    if n > 0 {
        lemma_unchanged_names(s, path, (n - 1) as nat);
        assert(distinct(s.kids[n - 1]) && s.kids[n - 1].well_formed());
        lemma_first_is(s.labels, (n - 1) as nat, 0);
        lemma_unchanged(s.kids[n - 1], scoped_path(path, s.labels[n - 1]));
    }
}

/// A path one segment longer.
fn scoped(path: &str, segment: &str) -> (result: String)
    ensures
        result@ == scoped_path(path@, segment@),
{
    if is_empty(path) {
        segment.to_owned()
    } else {
        let mut out = path.to_owned();
        out.append(".");
        out.append(segment);
        out
    }
}

/// Whether a string is empty.
fn is_empty(s: &str) -> (result: bool)
    ensures
        result == (s@.len() == 0),
{
    let result = text::same(s, "");
    proof {
        reveal_strlit("");
        if s@.len() == 0 {
            assert(s@ =~= ""@);
        }
    }
    result
}

/// What is reported of a leaf whose range shrank.
fn describe_finding(writer: Primitive, reader: Primitive, path: &str) -> (result: String)
    ensures
        result@ == finding(writer, reader, path@),
{
    let mut out = String::new();
    if is_empty(path) {
        out.append("the value");
    } else {
        out.append("`");
        out.append(path);
        out.append("`");
    }
    out.append(" was written as ");
    out.append(writer.name());
    out.append(" and is now ");
    out.append(reader.name());
    out.append(", which cannot hold every value the older one could");
    assert(out@ =~= finding(writer, reader, path@));
    out
}

/// Every leaf where the released schema holds values the current type cannot.
pub fn narrowings(writer: &SchemaNode, reader: &SchemaNode) -> (result: Vec<String>)
    ensures
        texts(result@) == walked(writer@, reader@, seq![]),
{
    let mut out: Vec<String> = Vec::new();
    proof {
        reveal_strlit("");
        assert(""@ =~= Seq::<char>::empty());
    }
    walk(writer, reader, "", &mut out);
    assert(texts(out@) =~= walked(writer@, reader@, seq![]));
    out
}

/// What a walk adds to the findings.
pub open spec fn adds(before: Seq<String>, after: Seq<String>, found: Seq<Seq<char>>) -> bool {
    texts(after) == texts(before) + found
}

fn walk(writer: &SchemaNode, reader: &SchemaNode, path: &str, out: &mut Vec<String>)
    ensures
        adds(old(out)@, final(out)@, walked(writer@, reader@, path@)),
    decreases writer, reader, 2nat,
{
    let ghost w = writer@;
    let ghost r = reader@;
    let ghost before = texts(out@);
    match (writer, reader) {
        (SchemaNode::Primitive(a), SchemaNode::Primitive(b)) => {
            if !fits(*a, *b) {
                let found = describe_finding(*a, *b, path);
                out.push(found);
                assert(texts(out@) =~= before + seq![found@]);
            } else {
                assert(before + Seq::<Seq<char>>::empty() =~= before);
            }
        },
        (
            SchemaNode::NewtypeStruct { inner: a, .. },
            SchemaNode::NewtypeStruct { inner: b, .. },
        ) => {
            assert(walked_kid(w, r, path@) == walked(a@, b@, path@));
            walk(a, b, path, out)
        },
        (SchemaNode::NewtypeStruct { inner: a, .. }, _) => walk(a, reader, path, out),
        (_, SchemaNode::NewtypeStruct { inner: b, .. }) => walk(writer, b, path, out),
        (SchemaNode::Option(a), SchemaNode::Option(b)) => {
            assert(walked_kid(w, r, path@) == walked(a@, b@, path@));
            walk(a, b, path, out)
        },
        (SchemaNode::Sequence(a), SchemaNode::Sequence(b)) => {
            assert(walked_kid(w, r, path@) == walked(a@, b@, path@));
            walk(a, b, path, out)
        },
        (SchemaNode::Shared(a), SchemaNode::Shared(b)) => {
            assert(walked_kid(w, r, path@) == walked(a@, b@, path@));
            walk(a, b, path, out)
        },
        (_, SchemaNode::Option(b)) => walk(writer, b, path, out),
        (
            SchemaNode::Mapping { key: wk, value: wv },
            SchemaNode::Mapping { key: rk, value: rv },
        ) => {
            let at_key = scoped(path, "key");
            let at_value = scoped(path, "value");
            walk(wk, rk, at_key.as_str(), out);
            walk(wv, rv, at_value.as_str(), out);
            assert(texts(out@) =~= before + walked(w, r, path@));
        },
        (SchemaNode::Tuple(a), SchemaNode::Tuple(b)) => walk_positional(
            a,
            b,
            path,
            out,
            Ghost(w),
            Ghost(r),
        ),
        (SchemaNode::Tuple(a), SchemaNode::TupleStruct { fields: b, .. }) => walk_positional(
            a,
            b,
            path,
            out,
            Ghost(w),
            Ghost(r),
        ),
        (SchemaNode::TupleStruct { fields: a, .. }, SchemaNode::Tuple(b)) => walk_positional(
            a,
            b,
            path,
            out,
            Ghost(w),
            Ghost(r),
        ),
        (
            SchemaNode::TupleStruct { fields: a, .. },
            SchemaNode::TupleStruct { fields: b, .. },
        ) => walk_positional(a, b, path, out, Ghost(w), Ghost(r)),
        (SchemaNode::Struct { fields: a, .. }, SchemaNode::Struct { fields: b, .. }) => walk_named(
            a,
            b,
            path,
            out,
            Ghost(w),
            Ghost(r),
        ),
        (SchemaNode::Enum { variants: a, .. }, SchemaNode::Enum { variants: b, .. }) => {
            walk_variants(a, b, path, out, Ghost(w), Ghost(r))
        },
        _ => {
            assert(walked(w, r, path@) =~= Seq::<Seq<char>>::empty());
            assert(before + Seq::<Seq<char>>::empty() =~= before);
        },
    }
}

fn walk_positional(
    a: &Vec<SchemaNode>,
    b: &Vec<SchemaNode>,
    path: &str,
    out: &mut Vec<String>,
    Ghost(w): Ghost<Shape>,
    Ghost(r): Ghost<Shape>,
)
    requires
        w.kids == shapes(a@),
        r.kids == shapes(b@),
    ensures
        adds(old(out)@, final(out)@, zipped(w, r, path@, w.kids.len())),
    decreases a, b, 3nat,
{
    let ghost before = texts(out@);
    let mut i: usize = 0;
    assert(before + zipped(w, r, path@, 0) =~= before);
    while i < a.len()
        invariant
            i <= a@.len(),
            w.kids == shapes(a@),
            r.kids == shapes(b@),
            texts(out@) == before + zipped(w, r, path@, i as nat),
        decreases a@.len() - i,
    {
        if i < b.len() {
            let number = text::to_decimal(i as u64);
            let at = scoped(path, number.as_str());
            walk(&a[i], &b[i], at.as_str(), out);
        }
        assert(texts(out@) =~= before + zipped(w, r, path@, (i + 1) as nat));
        i += 1;
    }
}

/// The first field of a name.
fn find_field(fields: &Vec<(String, SchemaNode)>, name: &String) -> (result: Option<usize>)
    ensures
        match result {
            Some(i) => i < fields@.len() && first_named(labels(fields@), name@, 0) == Some(
                i as nat,
            ),
            None => first_named(labels(fields@), name@, 0) is None,
        },
{
    let mut i: usize = 0;
    while i < fields.len()
        invariant
            i <= fields@.len(),
            first_named(labels(fields@), name@, 0) == first_named(labels(fields@), name@, i as nat),
        decreases fields@.len() - i,
    {
        if fields[i].0 == *name {
            return Some(i);
        }
        i += 1;
    }
    None
}

/// The first variant of a name.
fn find_variant(variants: &Vec<(String, VariantNode)>, name: &String) -> (result: Option<usize>)
    ensures
        match result {
            Some(i) => i < variants@.len() && first_named(labels(variants@), name@, 0) == Some(
                i as nat,
            ),
            None => first_named(labels(variants@), name@, 0) is None,
        },
{
    let mut i: usize = 0;
    while i < variants.len()
        invariant
            i <= variants@.len(),
            first_named(labels(variants@), name@, 0) == first_named(
                labels(variants@),
                name@,
                i as nat,
            ),
        decreases variants@.len() - i,
    {
        if variants[i].0 == *name {
            return Some(i);
        }
        i += 1;
    }
    None
}

fn walk_named(
    a: &Vec<(String, SchemaNode)>,
    b: &Vec<(String, SchemaNode)>,
    path: &str,
    out: &mut Vec<String>,
    Ghost(w): Ghost<Shape>,
    Ghost(r): Ghost<Shape>,
)
    requires
        w.kids == named_shapes(a@),
        r.kids == named_shapes(b@),
        w.labels == labels(a@),
        r.labels == labels(b@),
    ensures
        adds(old(out)@, final(out)@, matched(w, r, path@, w.kids.len())),
    decreases a, b, 3nat,
{
    let ghost before = texts(out@);
    let mut i: usize = 0;
    assert(before + matched(w, r, path@, 0) =~= before);
    while i < a.len()
        invariant
            i <= a@.len(),
            w.kids == named_shapes(a@),
            r.kids == named_shapes(b@),
            w.labels == labels(a@),
            r.labels == labels(b@),
            texts(out@) == before + matched(w, r, path@, i as nat),
        decreases a@.len() - i,
    {
        assert(w.labels[i as int] == a@[i as int].0@);
        if let Some(k) = find_field(b, &a[i].0) {
            let at = scoped(path, a[i].0.as_str());
            walk(&a[i].1, &b[k].1, at.as_str(), out);
        }
        assert(texts(out@) =~= before + matched(w, r, path@, (i + 1) as nat));
        i += 1;
    }
}

fn walk_variants(
    a: &Vec<(String, VariantNode)>,
    b: &Vec<(String, VariantNode)>,
    path: &str,
    out: &mut Vec<String>,
    Ghost(w): Ghost<Shape>,
    Ghost(r): Ghost<Shape>,
)
    requires
        w.kids == variant_shapes(a@),
        r.kids == variant_shapes(b@),
        w.labels == labels(a@),
        r.labels == labels(b@),
    ensures
        adds(old(out)@, final(out)@, matched(w, r, path@, w.kids.len())),
    decreases a, b, 5nat,
{
    let ghost before = texts(out@);
    let mut i: usize = 0;
    assert(before + matched(w, r, path@, 0) =~= before);
    while i < a.len()
        invariant
            i <= a@.len(),
            w.kids == variant_shapes(a@),
            r.kids == variant_shapes(b@),
            w.labels == labels(a@),
            r.labels == labels(b@),
            texts(out@) == before + matched(w, r, path@, i as nat),
        decreases a@.len() - i,
    {
        assert(w.labels[i as int] == a@[i as int].0@);
        if let Some(k) = find_variant(b, &a[i].0) {
            let at = scoped(path, a[i].0.as_str());
            walk_variant(&a[i].1, &b[k].1, at.as_str(), out);
        }
        assert(texts(out@) =~= before + matched(w, r, path@, (i + 1) as nat));
        i += 1;
    }
}

fn walk_variant(writer: &VariantNode, reader: &VariantNode, path: &str, out: &mut Vec<String>)
    ensures
        adds(old(out)@, final(out)@, walked(writer@, reader@, path@)),
    decreases writer, reader, 4nat,
{
    let ghost w = writer@;
    let ghost r = reader@;
    let ghost before = texts(out@);
    match (writer, reader) {
        (VariantNode::Newtype(a), VariantNode::Newtype(b)) => {
            assert(walked_kid(w, r, path@) == walked(a@, b@, path@));
            walk(a, b, path, out)
        },
        (VariantNode::Tuple(a), VariantNode::Tuple(b)) => walk_positional(
            a,
            b,
            path,
            out,
            Ghost(w),
            Ghost(r),
        ),
        (VariantNode::Struct(a), VariantNode::Struct(b)) => walk_named(
            a,
            b,
            path,
            out,
            Ghost(w),
            Ghost(r),
        ),
        _ => {
            assert(before + Seq::<Seq<char>>::empty() =~= before);
        },
    }
}

} // verus!
