//! What writing a value does to the columns of a row, as mathematics.

use vstd::prelude::*;
use vstd::utf8::encode_utf8;

use crate::error::Fault;
use crate::shape::{width_of, description, kid_base, lemma_kid_columns, own_columns, Kind, Shape};
use crate::text::decimal;
use crate::value::{found, scalar_bytes, scalar_type, Head, Val};
use crate::varint;

verus! {

/// The columns written so far, and for each column the identities of the
/// shared objects that the row has written there, in the order of their first
/// occurrence. The key of an object is its place in that order.
pub struct Row {
    pub cols: Seq<Seq<u8>>,
    pub book: Seq<Seq<u64>>,
}

impl Row {
    /// Appends bytes to one column.
    pub open spec fn append(self, col: nat, bytes: Seq<u8>) -> Row {
        Row { cols: self.cols.update(col as int, self.cols[col as int] + bytes), book: self.book }
    }

    /// Records a new shared object at a position.
    pub open spec fn record(self, col: nat, id: u64) -> Row {
        Row { cols: self.cols, book: self.book.update(col as int, self.book[col as int].push(id)) }
    }

    /// There is a list of objects for every column.
    pub open spec fn well_formed(self) -> bool {
        self.cols.len() == self.book.len()
    }
}

/// Where `id` stands in a list, if it does.
pub open spec fn place_of(list: Seq<u64>, id: u64) -> Option<nat>
    decreases list.len(),
{
    if list.len() == 0 {
        None
    } else {
        match place_of(list.drop_last(), id) {
            Some(i) => Some(i),
            None => if list.last() == id {
                Some((list.len() - 1) as nat)
            } else {
                None
            },
        }
    }
}

/// The first place at which a name stands in a list, from `i` on.
pub open spec fn first_named(names: Seq<Seq<char>>, name: Seq<char>, i: nat) -> Option<nat>
    decreases names.len() - i,
{
    if i >= names.len() {
        None
    } else if names[i as int] == name {
        Some(i)
    } else {
        first_named(names, name, i + 1)
    }
}

/// The variant that a value names: the one at the given position if it has the
/// name, otherwise the first that has it.
pub open spec fn find_variant(names: Seq<Seq<char>>, index: u64, name: Seq<char>) -> Option<nat> {
    if index < names.len() && names[index as int] == name {
        Some(index as nat)
    } else {
        first_named(names, name, 0)
    }
}

/// The report of a value that does not match the schema.
pub open spec fn mismatch(v: Val, s: Shape) -> Fault {
    Fault::SchemaMismatch(description(s), found(v))
}

/// Writes `v` as a value of `s`, whose columns start at `base`.
pub open spec fn put(v: Val, s: Shape, base: nat, row: Row) -> Result<Row, Fault>
    decreases v, v.kids.len() + 1,
{
    match s.kind {
        Kind::Primitive(p) => match v.head {
            Head::Scalar(x) => if scalar_type(x) == p {
                Ok(row.append(base, scalar_bytes(x)))
            } else {
                Err(mismatch(v, s))
            },
            _ => Err(mismatch(v, s)),
        },
        Kind::String => match v.head {
            Head::Str(text) => Ok(put_bytes(encode_utf8(text), base, row)),
            _ => Err(mismatch(v, s)),
        },
        Kind::Bytes => match v.head {
            Head::Bytes(bytes) => Ok(put_bytes(bytes, base, row)),
            _ => Err(mismatch(v, s)),
        },
        Kind::Unit => match v.head {
            Head::Unit => Ok(row),
            _ => Err(mismatch(v, s)),
        },
        Kind::UnitStruct => match v.head {
            Head::UnitStruct(name) => if name == s.name {
                Ok(row)
            } else {
                Err(mismatch(v, s))
            },
            _ => Err(mismatch(v, s)),
        },
        Kind::Option => match v.head {
            Head::Absent => Ok(row.append(base, seq![0])),
            Head::Present => if v.kids.len() == 1 {
                put(v.kids[0], s.kids[0], base + 1, row.append(base, seq![1]))
            } else {
                Err(mismatch(v, s))
            },
            _ => Err(mismatch(v, s)),
        },
        Kind::NewtypeStruct => match v.head {
            Head::NewtypeStruct(name) => if name == s.name && v.kids.len() == 1 {
                put(v.kids[0], s.kids[0], base, row)
            } else {
                Err(mismatch(v, s))
            },
            _ => Err(mismatch(v, s)),
        },
        Kind::Sequence => match v.head {
            Head::Sequence => match put_items(v, s, base, row, v.kids.len()) {
                Ok(after) => Ok(after.append(base, varint::encoded(v.kids.len()))),
                Err(fault) => Err(fault),
            },
            _ => Err(mismatch(v, s)),
        },
        Kind::Mapping => match v.head {
            Head::Mapping => match put_entries(v, s, base, row, v.kids.len()) {
                Ok(after) => Ok(after.append(base, varint::encoded(v.kids.len()))),
                Err(fault) => Err(fault),
            },
            _ => Err(mismatch(v, s)),
        },
        Kind::Tuple => match v.head {
            Head::Tuple => if v.kids.len() == s.kids.len() {
                put_fields(v, s, base, row, v.kids.len())
            } else {
                Err(mismatch(v, s))
            },
            _ => Err(mismatch(v, s)),
        },
        Kind::TupleStruct => match v.head {
            Head::TupleStruct(name) => if name == s.name && v.kids.len() == s.kids.len() {
                put_fields(v, s, base, row, v.kids.len())
            } else {
                Err(mismatch(v, s))
            },
            _ => Err(mismatch(v, s)),
        },
        Kind::Struct => match v.head {
            Head::Struct(name, labels) => if name == s.name {
                put_all_named(v, labels, s, base, row)
            } else {
                Err(mismatch(v, s))
            },
            _ => Err(mismatch(v, s)),
        },
        Kind::Enum => match v.head {
            Head::UnitVariant(index, name) => match find_variant(s.labels, index, name) {
                Some(i) => if s.kids[i as int].kind is UnitVariant {
                    Ok(row.append(base, varint::encoded(i)))
                } else {
                    Err(
                        Fault::SchemaMismatch(
                            "payload for variant `"@ + name + "`"@,
                            "unit variant"@,
                        ),
                    )
                },
                None => Err(mismatch(v, s)),
            },
            Head::NewtypeVariant(index, name) => match find_variant(s.labels, index, name) {
                Some(i) => if s.kids[i as int].kind is NewtypeVariant && v.kids.len() == 1 {
                    put(
                        v.kids[0],
                        s.kids[i as int].kids[0],
                        kid_base(s, base, i),
                        row.append(base, varint::encoded(i)),
                    )
                } else {
                    Err(wrong_variant(name, "newtype variant"@))
                },
                None => Err(mismatch(v, s)),
            },
            Head::TupleVariant(index, name) => match find_variant(s.labels, index, name) {
                Some(i) => if s.kids[i as int].kind is TupleVariant && s.kids[i as int].kids.len()
                    == v.kids.len() {
                    put_fields(
                        v,
                        s.kids[i as int],
                        kid_base(s, base, i),
                        row.append(base, varint::encoded(i)),
                        v.kids.len(),
                    )
                } else {
                    Err(wrong_variant(name, decimal(v.kids.len()) + "-tuple variant"@))
                },
                None => Err(mismatch(v, s)),
            },
            Head::StructVariant(index, name, labels) => match find_variant(s.labels, index, name) {
                Some(i) => if s.kids[i as int].kind is StructVariant {
                    put_all_named(
                        v,
                        labels,
                        s.kids[i as int],
                        kid_base(s, base, i),
                        row.append(base, varint::encoded(i)),
                    )
                } else {
                    Err(wrong_variant(name, "struct variant"@))
                },
                None => Err(mismatch(v, s)),
            },
            _ => Err(mismatch(v, s)),
        },
        Kind::Shared => match v.head {
            Head::Shared(id) => match place_of(row.book[base as int], id) {
                Some(key) => Ok(row.append(base, varint::encoded(key))),
                None => if v.kids.len() == 1 {
                    put(
                        v.kids[0],
                        s.kids[0],
                        base + 1,
                        row.append(base, varint::encoded(row.book[base as int].len())).record(
                            base,
                            id,
                        ),
                    )
                } else {
                    Err(mismatch(v, s))
                },
            },
            _ => Err(mismatch(v, s)),
        },
        Kind::UnitVariant | Kind::NewtypeVariant | Kind::TupleVariant | Kind::StructVariant => Err(
            mismatch(v, s),
        ),
    }
}

/// Writes a byte string: its length to the first column, its bytes to the
/// second.
pub open spec fn put_bytes(bytes: Seq<u8>, base: nat, row: Row) -> Row {
    row.append(base, varint::encoded(bytes.len())).append(base + 1, bytes)
}

/// The report of a variant whose payload has another form in the schema.
pub open spec fn wrong_variant(name: Seq<char>, form: Seq<char>) -> Fault {
    Fault::SchemaMismatch("shape of variant `"@ + name + "`"@, form)
}

/// Writes the first `n` parts of `v` as elements of the sequence `s`.
pub open spec fn put_items(v: Val, s: Shape, base: nat, row: Row, n: nat) -> Result<Row, Fault>
    decreases v, n,
{
    if n == 0 || n > v.kids.len() {
        Ok(row)
    } else {
        match put_items(v, s, base, row, (n - 1) as nat) {
            Ok(after) => put(v.kids[n - 1], s.kids[0], base + 1, after),
            Err(fault) => Err(fault),
        }
    }
}

/// Writes the first `n` parts of `v` as entries of the mapping `s`.
pub open spec fn put_entries(v: Val, s: Shape, base: nat, row: Row, n: nat) -> Result<Row, Fault>
    decreases v, n,
{
    if n == 0 || n > v.kids.len() {
        Ok(row)
    } else {
        match put_entries(v, s, base, row, (n - 1) as nat) {
            Ok(after) => if v.kids[n - 1].kids.len() == 2 {
                match put(v.kids[n - 1].kids[0], s.kids[0], base + 1, after) {
                    Ok(keyed) => put(
                        v.kids[n - 1].kids[1],
                        s.kids[1],
                        base + 1 + width_of(s.kids[0]),
                        keyed,
                    ),
                    Err(fault) => Err(fault),
                }
            } else {
                Err(mismatch(v, s))
            },
            Err(fault) => Err(fault),
        }
    }
}

/// Writes the first `n` parts of `v` as the first fields of `s`.
pub open spec fn put_fields(v: Val, s: Shape, base: nat, row: Row, n: nat) -> Result<Row, Fault>
    decreases v, n,
{
    if n == 0 || n > v.kids.len() {
        Ok(row)
    } else {
        match put_fields(v, s, base, row, (n - 1) as nat) {
            Ok(after) => put(
                v.kids[n - 1],
                s.kids[n - 1],
                kid_base(s, base, (n - 1) as nat),
                after,
            ),
            Err(fault) => Err(fault),
        }
    }
}

/// Writes the first `n` parts of `v`, under their labels, as the first fields
/// of `s`. Fields come in the order of the schema.
pub open spec fn put_named(
    v: Val,
    labels: Seq<Seq<char>>,
    s: Shape,
    base: nat,
    row: Row,
    n: nat,
) -> Result<Row, Fault>
    decreases v, n,
{
    if n == 0 || n > v.kids.len() {
        Ok(row)
    } else {
        match put_named(v, labels, s, base, row, (n - 1) as nat) {
            Ok(after) => if n > s.kids.len() {
                Err(
                    Fault::SchemaMismatch(
                        "end of struct"@,
                        "field `"@ + labels[n - 1] + "`"@,
                    ),
                )
            } else if s.labels[n - 1] != labels[n - 1] {
                Err(
                    Fault::SchemaMismatch(
                        "field `"@ + s.labels[n - 1] + "`"@,
                        "field `"@ + labels[n - 1] + "`"@,
                    ),
                )
            } else {
                put(v.kids[n - 1], s.kids[n - 1], kid_base(s, base, (n - 1) as nat), after)
            },
            Err(fault) => Err(fault),
        }
    }
}

/// Writes all parts of `v` as the fields of `s`; none may be missing.
pub open spec fn put_all_named(
    v: Val,
    labels: Seq<Seq<char>>,
    s: Shape,
    base: nat,
    row: Row,
) -> Result<Row, Fault>
    decreases v, v.kids.len() + 1, 0nat,
{
    match put_named(v, labels, s, base, row, v.kids.len()) {
        Ok(after) => if v.kids.len() == s.kids.len() {
            Ok(after)
        } else {
            Err(Fault::IncompleteRow)
        },
        Err(fault) => Err(fault),
    }
}

/// `b` starts with `a`.
pub open spec fn prefix<T>(a: Seq<T>, b: Seq<T>) -> bool {
    &&& a.len() <= b.len()
    &&& forall|i: int| 0 <= i < a.len() ==> #[trigger] a[i] == b[i]
}

/// Nothing is taken back: every column, and every list of shared objects,
/// starts with what it held before.
pub open spec fn grows(before: Row, after: Row) -> bool {
    &&& after.cols.len() == before.cols.len()
    &&& after.book.len() == before.book.len()
    &&& forall|c: int|
        0 <= c < before.cols.len() ==> prefix(before.cols[c], #[trigger] after.cols[c])
    &&& forall|c: int|
        0 <= c < before.book.len() ==> prefix(before.book[c], #[trigger] after.book[c])
}

/// Nothing but `width` columns from `base` on has changed.
pub open spec fn confined(before: Row, after: Row, base: nat, width: nat) -> bool {
    &&& forall|c: int|
        0 <= c < before.cols.len() && !(base <= c < base + width) ==> #[trigger] after.cols[c]
            == before.cols[c]
    &&& forall|c: int|
        0 <= c < before.book.len() && !(base <= c < base + width) ==> #[trigger] after.book[c]
            == before.book[c]
}

/// The bytes in the first `n` columns.
pub open spec fn total(cols: Seq<Seq<u8>>, n: nat) -> nat
    decreases n,
{
    if n == 0 {
        0
    } else {
        total(cols, (n - 1) as nat) + cols[n - 1].len()
    }
}

/// The bytes in a row's columns.
pub open spec fn size(row: Row) -> nat {
    total(row.cols, row.cols.len())
}

proof fn lemma_total_append(row: Row, col: nat, bytes: Seq<u8>, n: nat)
    requires
        col < row.cols.len(),
        n <= row.cols.len(),
    ensures
        total(row.append(col, bytes).cols, n) == total(row.cols, n) + if col < n {
            bytes.len()
        } else {
            0
        },
    decreases n,
{
    if n > 0 {
        lemma_total_append(row, col, bytes, (n - 1) as nat);
    }
}

/// Appending to a column of a range grows the row within that range.
pub proof fn lemma_append(row: Row, col: nat, bytes: Seq<u8>, base: nat, width: nat)
    requires
        row.well_formed(),
        base <= col < base + width,
        col < row.cols.len(),
    ensures
        row.append(col, bytes).well_formed(),
        grows(row, row.append(col, bytes)),
        confined(row, row.append(col, bytes), base, width),
        size(row.append(col, bytes)) == size(row) + bytes.len(),
{
    lemma_total_append(row, col, bytes, row.cols.len());
}

/// Recording an object grows the row.
pub proof fn lemma_record(row: Row, col: nat, id: u64, base: nat, width: nat)
    requires
        row.well_formed(),
        base <= col < base + width,
        col < row.cols.len(),
    ensures
        row.record(col, id).well_formed(),
        grows(row, row.record(col, id)),
        confined(row, row.record(col, id), base, width),
        size(row.record(col, id)) == size(row),
{
}

/// Two steps in a row, each within the given range.
pub proof fn lemma_steps(
    a: Row,
    b: Row,
    c: Row,
    base1: nat,
    width1: nat,
    base2: nat,
    width2: nat,
    base: nat,
    width: nat,
)
    requires
        grows(a, b),
        confined(a, b, base1, width1),
        grows(b, c),
        confined(b, c, base2, width2),
        base <= base1,
        base1 + width1 <= base + width,
        base <= base2,
        base2 + width2 <= base + width,
    ensures
        grows(a, c),
        confined(a, c, base, width),
{
    assert forall|i: int| 0 <= i < a.cols.len() implies prefix(a.cols[i], #[trigger] c.cols[i]) by {
        assert(prefix(a.cols[i], b.cols[i]));
        assert(prefix(b.cols[i], c.cols[i]));
    }
    assert forall|i: int| 0 <= i < a.book.len() implies prefix(a.book[i], #[trigger] c.book[i]) by {
        assert(prefix(a.book[i], b.book[i]));
        assert(prefix(b.book[i], c.book[i]));
    }
    assert forall|i: int|
        0 <= i < a.cols.len() && !(base <= i < base + width) implies #[trigger] c.cols[i]
        == a.cols[i] by {
        assert(b.cols[i] == a.cols[i]);
    }
    assert forall|i: int|
        0 <= i < a.book.len() && !(base <= i < base + width) implies #[trigger] c.book[i]
        == a.book[i] by {
        assert(b.book[i] == a.book[i]);
    }
}

/// What one write does: it only appends, only to the columns of the value's
/// own schema, and it appends at least one byte if there are such columns.
pub open spec fn stepped(row: Row, after: Row, base: nat, width: nat) -> bool {
    &&& after.well_formed()
    &&& grows(row, after)
    &&& confined(row, after, base, width)
    &&& size(after) >= size(row)
}

/// Writing a value appends, within the columns of its schema, at least one
/// byte if there are any.
pub proof fn lemma_put(v: Val, s: Shape, base: nat, row: Row)
    requires
        row.well_formed(),
        s.well_formed(),
        base + width_of(s) <= row.cols.len(),
        put(v, s, base, row) is Ok,
    ensures
        stepped(row, put(v, s, base, row)->Ok_0, base, width_of(s)),
        width_of(s) > 0 ==> size(put(v, s, base, row)->Ok_0) > size(row),
    decreases v, v.kids.len() + 1,
{
    let width = width_of(s);
    let end = put(v, s, base, row)->Ok_0;
    match s.kind {
        Kind::Primitive(p) => {
            if let Head::Scalar(x) = v.head {
                crate::value::lemma_scalar_bytes(x);
                assert(scalar_bytes(x).len() > 0);
                assert(width == 1);
                lemma_append(row, base, scalar_bytes(x), base, width);
            }
        },
        Kind::String => {
            if let Head::Str(text) = v.head {
                lemma_put_bytes(encode_utf8(text), base, row);
            }
        },
        Kind::Bytes => {
            if let Head::Bytes(bytes) = v.head {
                lemma_put_bytes(bytes, base, row);
            }
        },
        Kind::Unit | Kind::UnitStruct => {},
        Kind::Option => {
            crate::shape::lemma_one_kid_columns(s);
            match v.head {
                Head::Absent => lemma_append(row, base, seq![0u8], base, width),
                _ => {
                    let tagged = row.append(base, seq![1]);
                    lemma_append(row, base, seq![1u8], base, 1);
                    lemma_put(v.kids[0], s.kids[0], base + 1, tagged);
                    lemma_steps(
                        row,
                        tagged,
                        end,
                        base,
                        1,
                        base + 1,
                        width_of(s.kids[0]),
                        base,
                        width,
                    );
                },
            }
        },
        Kind::NewtypeStruct => {
            crate::shape::lemma_one_kid_columns(s);
            lemma_put(v.kids[0], s.kids[0], base, row);
        },
        Kind::Sequence => {
            crate::shape::lemma_one_kid_columns(s);
            let items = put_items(v, s, base, row, v.kids.len())->Ok_0;
            lemma_put_items(v, s, base, row, v.kids.len());
            let len = varint::encoded(v.kids.len());
            lemma_append(items, base, len, base, width);
            lemma_steps(row, items, end, base + 1, width_of(s.kids[0]), base, width, base, width);
            lemma_encoded_nonempty(v.kids.len());
        },
        Kind::Mapping => {
            crate::shape::lemma_two_kids_columns(s);
            let items = put_entries(v, s, base, row, v.kids.len())->Ok_0;
            lemma_put_entries(v, s, base, row, v.kids.len());
            let len = varint::encoded(v.kids.len());
            lemma_append(items, base, len, base, width);
            lemma_steps(
                row,
                items,
                end,
                base + 1,
                width_of(s.kids[0]) + width_of(s.kids[1]),
                base,
                width,
                base,
                width,
            );
            lemma_encoded_nonempty(v.kids.len());
        },
        Kind::Tuple | Kind::TupleStruct => {
            lemma_put_fields(v, s, base, row, v.kids.len());
        },
        Kind::Struct => {
            if let Head::Struct(_, labels) = v.head {
                assert(put_all_named(v, labels, s, base, row) is Ok);
                lemma_put_named(v, labels, s, base, row, v.kids.len());
            }
        },
        Kind::Enum => {
            lemma_put_enum(v, s, base, row);
        },
        Kind::Shared => {
            crate::shape::lemma_one_kid_columns(s);
            if let Head::Shared(id) = v.head {
                match place_of(row.book[base as int], id) {
                    Some(key) => {
                        lemma_encoded_nonempty(key);
                        lemma_append(row, base, varint::encoded(key), base, width);
                    },
                    None => {
                        let key = varint::encoded(row.book[base as int].len());
                        lemma_encoded_nonempty(row.book[base as int].len());
                        let keyed = row.append(base, key);
                        let recorded = keyed.record(base, id);
                        lemma_append(row, base, key, base, 1);
                        lemma_record(keyed, base, id, base, 1);
                        lemma_steps(row, keyed, recorded, base, 1, base, 1, base, 1);
                        lemma_put(v.kids[0], s.kids[0], base + 1, recorded);
                        lemma_steps(
                            row,
                            recorded,
                            end,
                            base,
                            1,
                            base + 1,
                            width_of(s.kids[0]),
                            base,
                            width,
                        );
                    },
                }
            }
        },
        _ => {},
    }
}

/// An encoding has at least one byte.
pub proof fn lemma_encoded_nonempty(value: nat)
    ensures
        varint::encoded(value).len() > 0,
{
}

proof fn lemma_put_bytes(bytes: Seq<u8>, base: nat, row: Row)
    requires
        row.well_formed(),
        base + 2 <= row.cols.len(),
    ensures
        stepped(row, put_bytes(bytes, base, row), base, 2),
        size(put_bytes(bytes, base, row)) > size(row),
{
    let len = varint::encoded(bytes.len());
    lemma_encoded_nonempty(bytes.len());
    lemma_append(row, base, len, base, 2);
    lemma_append(row.append(base, len), base + 1, bytes, base, 2);
    lemma_steps(
        row,
        row.append(base, len),
        put_bytes(bytes, base, row),
        base,
        2,
        base,
        2,
        base,
        2,
    );
}

proof fn lemma_first_named(names: Seq<Seq<char>>, name: Seq<char>, i: nat)
    ensures
        match first_named(names, name, i) {
            Some(k) => i <= k < names.len() && names[k as int] == name,
            None => true,
        },
    decreases names.len() - i,
{
    if i < names.len() && names[i as int] != name {
        lemma_first_named(names, name, i + 1);
    }
}

/// The variant that was found is one of the list, and has the name.
pub proof fn lemma_find_variant(names: Seq<Seq<char>>, index: u64, name: Seq<char>)
    ensures
        match find_variant(names, index, name) {
            Some(k) => k < names.len() && names[k as int] == name,
            None => true,
        },
{
    lemma_first_named(names, name, 0);
}

/// A payload of a single part is a list of one field.
pub proof fn lemma_one_field(v: Val, s: Shape, base: nat, row: Row)
    requires
        v.kids.len() == 1,
        crate::shape::own_columns(s.kind) == 0,
    ensures
        put_fields(v, s, base, row, 1) == put(v.kids[0], s.kids[0], base, row),
{
    reveal_with_fuel(put_fields, 2);
}

proof fn lemma_put_enum(v: Val, s: Shape, base: nat, row: Row)
    requires
        row.well_formed(),
        s.well_formed(),
        s.kind is Enum,
        base + width_of(s) <= row.cols.len(),
        put(v, s, base, row) is Ok,
    ensures
        stepped(row, put(v, s, base, row)->Ok_0, base, width_of(s)),
        size(put(v, s, base, row)->Ok_0) > size(row),
    decreases v, v.kids.len() + 1, 0nat,
{
    let width = width_of(s);
    let end = put(v, s, base, row)->Ok_0;
    let (index, name) = match v.head {
        Head::UnitVariant(index, name) => (index, name),
        Head::NewtypeVariant(index, name) => (index, name),
        Head::TupleVariant(index, name) => (index, name),
        Head::StructVariant(index, name, _) => (index, name),
        _ => (0u64, seq![]),
    };
    lemma_find_variant(s.labels, index, name);
    let i = find_variant(s.labels, index, name)->0;
    let tag = varint::encoded(i);
    lemma_encoded_nonempty(i);
    let tagged = row.append(base, tag);
    let vs = s.kids[i as int];
    lemma_kid_columns(s, i);
    lemma_append(row, base, tag, base, 1);
    lemma_append(row, base, tag, base, width);
    let vbase = kid_base(s, base, i);
    assert(vs.well_formed());
    match v.head {
        Head::NewtypeVariant(_, _) => {
            lemma_one_field(v, vs, vbase, tagged);
            lemma_put_fields(v, vs, vbase, tagged, 1);
            lemma_steps(row, tagged, end, base, 1, vbase, width_of(vs), base, width);
        },
        Head::TupleVariant(_, _) => {
            lemma_put_fields(v, vs, vbase, tagged, v.kids.len());
            lemma_steps(row, tagged, end, base, 1, vbase, width_of(vs), base, width);
        },
        Head::StructVariant(_, _, labels) => {
            assert(put_all_named(v, labels, vs, vbase, tagged) is Ok);
            lemma_put_named(v, labels, vs, vbase, tagged, v.kids.len());
            lemma_steps(row, tagged, end, base, 1, vbase, width_of(vs), base, width);
        },
        _ => {},
    }
}

pub proof fn lemma_put_items(v: Val, s: Shape, base: nat, row: Row, n: nat)
    requires
        row.well_formed(),
        s.well_formed(),
        s.kids.len() == 1,
        n <= v.kids.len(),
        base + 1 + width_of(s.kids[0]) <= row.cols.len(),
        put_items(v, s, base, row, n) is Ok,
    ensures
        stepped(row, put_items(v, s, base, row, n)->Ok_0, base + 1, width_of(s.kids[0])),
        width_of(s.kids[0]) > 0 ==> size(put_items(v, s, base, row, n)->Ok_0) >= size(row) + n,
    decreases v, n,
{
    if n > 0 {
        let before = put_items(v, s, base, row, (n - 1) as nat)->Ok_0;
        lemma_put_items(v, s, base, row, (n - 1) as nat);
        lemma_put(v.kids[n - 1], s.kids[0], base + 1, before);
        let width = width_of(s.kids[0]);
        lemma_steps(
            row,
            before,
            put_items(v, s, base, row, n)->Ok_0,
            base + 1,
            width,
            base + 1,
            width,
            base + 1,
            width,
        );
    }
}

pub proof fn lemma_put_entries(v: Val, s: Shape, base: nat, row: Row, n: nat)
    requires
        row.well_formed(),
        s.well_formed(),
        s.kids.len() == 2,
        n <= v.kids.len(),
        base + 1 + width_of(s.kids[0]) + width_of(s.kids[1]) <= row.cols.len(),
        put_entries(v, s, base, row, n) is Ok,
    ensures
        stepped(
            row,
            put_entries(v, s, base, row, n)->Ok_0,
            base + 1,
            width_of(s.kids[0]) + width_of(s.kids[1]),
        ),
        width_of(s.kids[0]) + width_of(s.kids[1]) > 0 ==> size(
            put_entries(v, s, base, row, n)->Ok_0,
        ) >= size(row) + n,
    decreases v, n,
{
    if n > 0 {
        let e = v.kids[n - 1];
        let before = put_entries(v, s, base, row, (n - 1) as nat)->Ok_0;
        lemma_put_entries(v, s, base, row, (n - 1) as nat);
        let wk = width_of(s.kids[0]);
        let wv = width_of(s.kids[1]);
        let keyed = put(e.kids[0], s.kids[0], base + 1, before)->Ok_0;
        let end = put_entries(v, s, base, row, n)->Ok_0;
        lemma_put(e.kids[0], s.kids[0], base + 1, before);
        lemma_steps(row, before, keyed, base + 1, wk + wv, base + 1, wk, base + 1, wk + wv);
        lemma_put(e.kids[1], s.kids[1], base + 1 + wk, keyed);
        lemma_steps(row, keyed, end, base + 1, wk + wv, base + 1 + wk, wv, base + 1, wk + wv);
    }
}

pub proof fn lemma_put_fields(v: Val, s: Shape, base: nat, row: Row, n: nat)
    requires
        row.well_formed(),
        s.well_formed(),
        n <= v.kids.len(),
        n <= s.kids.len(),
        base + width_of(s) <= row.cols.len(),
        put_fields(v, s, base, row, n) is Ok,
    ensures
        stepped(row, put_fields(v, s, base, row, n)->Ok_0, base, width_of(s)),
        crate::shape::columns_before(s, n) > 0 ==> size(put_fields(v, s, base, row, n)->Ok_0)
            > size(row),
    decreases v, n,
{
    if n > 0 {
        let before = put_fields(v, s, base, row, (n - 1) as nat)->Ok_0;
        lemma_put_fields(v, s, base, row, (n - 1) as nat);
        lemma_kid_columns(s, (n - 1) as nat);
        let kb = kid_base(s, base, (n - 1) as nat);
        lemma_put(v.kids[n - 1], s.kids[n - 1], kb, before);
        lemma_steps(
            row,
            before,
            put_fields(v, s, base, row, n)->Ok_0,
            base,
            width_of(s),
            kb,
            width_of(s.kids[n - 1]),
            base,
            width_of(s),
        );
    }
}

pub proof fn lemma_put_named(
    v: Val,
    labels: Seq<Seq<char>>,
    s: Shape,
    base: nat,
    row: Row,
    n: nat,
)
    requires
        row.well_formed(),
        s.well_formed(),
        n <= v.kids.len(),
        base + width_of(s) <= row.cols.len(),
        put_named(v, labels, s, base, row, n) is Ok,
    ensures
        n <= s.kids.len(),
        stepped(row, put_named(v, labels, s, base, row, n)->Ok_0, base, width_of(s)),
        crate::shape::columns_before(s, n) > 0 ==> size(
            put_named(v, labels, s, base, row, n)->Ok_0,
        ) > size(row),
        put_named(v, labels, s, base, row, n) == put_fields(v, s, base, row, n),
        forall|i: int| 0 <= i < n ==> s.labels[i] == #[trigger] labels[i],
    decreases v, n,
{
    if n > 0 {
        let before = put_named(v, labels, s, base, row, (n - 1) as nat)->Ok_0;
        lemma_put_named(v, labels, s, base, row, (n - 1) as nat);
        lemma_kid_columns(s, (n - 1) as nat);
        let kb = kid_base(s, base, (n - 1) as nat);
        lemma_put(v.kids[n - 1], s.kids[n - 1], kb, before);
        lemma_steps(
            row,
            before,
            put_named(v, labels, s, base, row, n)->Ok_0,
            base,
            width_of(s),
            kb,
            width_of(s.kids[n - 1]),
            base,
            width_of(s),
        );
    }
}


/// Parts that cannot be written cannot be written with more behind them, for
/// the same reason.
pub proof fn lemma_items_fault(v: Val, s: Shape, base: nat, row: Row, i: nat, n: nat)
    requires
        i <= n <= v.kids.len(),
        put_items(v, s, base, row, i) is Err,
    ensures
        put_items(v, s, base, row, n) == put_items(v, s, base, row, i),
    decreases n,
{
    if i < n {
        lemma_items_fault(v, s, base, row, i, (n - 1) as nat);
    }
}

pub proof fn lemma_entries_fault(v: Val, s: Shape, base: nat, row: Row, i: nat, n: nat)
    requires
        i <= n <= v.kids.len(),
        put_entries(v, s, base, row, i) is Err,
    ensures
        put_entries(v, s, base, row, n) == put_entries(v, s, base, row, i),
    decreases n,
{
    if i < n {
        lemma_entries_fault(v, s, base, row, i, (n - 1) as nat);
    }
}

pub proof fn lemma_fields_fault(v: Val, s: Shape, base: nat, row: Row, i: nat, n: nat)
    requires
        i <= n <= v.kids.len(),
        put_fields(v, s, base, row, i) is Err,
    ensures
        put_fields(v, s, base, row, n) == put_fields(v, s, base, row, i),
    decreases n,
{
    if i < n {
        lemma_fields_fault(v, s, base, row, i, (n - 1) as nat);
    }
}

pub proof fn lemma_named_fault(
    v: Val,
    labels: Seq<Seq<char>>,
    s: Shape,
    base: nat,
    row: Row,
    i: nat,
    n: nat,
)
    requires
        i <= n <= v.kids.len(),
        put_named(v, labels, s, base, row, i) is Err,
    ensures
        put_named(v, labels, s, base, row, n) == put_named(v, labels, s, base, row, i),
    decreases n,
{
    if i < n {
        lemma_named_fault(v, labels, s, base, row, i, (n - 1) as nat);
    }
}

/// Growing twice is growing.
pub proof fn lemma_grows_twice(a: Row, b: Row, c: Row)
    requires
        grows(a, b),
        grows(b, c),
    ensures
        grows(a, c),
{
    assert forall|i: int| 0 <= i < a.cols.len() implies prefix(a.cols[i], #[trigger] c.cols[i]) by {
        assert(prefix(a.cols[i], b.cols[i]));
        assert(prefix(b.cols[i], c.cols[i]));
    }
    assert forall|i: int| 0 <= i < a.book.len() implies prefix(a.book[i], #[trigger] c.book[i]) by {
        assert(prefix(a.book[i], b.book[i]));
        assert(prefix(b.book[i], c.book[i]));
    }
}

} // verus!
