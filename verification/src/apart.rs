//! Rows keep apart: what a row appends does not depend on what its columns held
//! before.

use vstd::prelude::*;
use vstd::utf8::encode_utf8;

use crate::batch::{new_row, no_rows, push_row};
use crate::error::Fault;
use crate::put::{
    find_variant, lemma_find_variant, place_of, put, put_all_named, put_bytes, put_entries,
    put_fields, put_items, put_named, Row,
};
use crate::shape::{
    kid_base, lemma_kid_columns, lemma_one_kid_columns, lemma_two_kids_columns, width_of, Kind,
    Shape,
};
use crate::value::{scalar_bytes, Head, Val};
use crate::varint;

verus! {

/// A row whose columns held something before.
pub open spec fn upon(pre: Seq<Seq<u8>>, row: Row) -> Row {
    Row { cols: Seq::new(pre.len(), |c: int| pre[c] + row.cols[c]), book: row.book }
}

/// Writing upon what was there gives what writing gives, upon what was there,
/// and is refused alike.
pub open spec fn unmoved(
    pre: Seq<Seq<u8>>,
    row: Row,
    alone: Result<Row, Fault>,
    after: Result<Row, Fault>,
) -> bool {
    match alone {
        Ok(made) => {
            &&& made.cols.len() == row.cols.len()
            &&& made.book.len() == row.book.len()
            &&& after == Ok::<Row, Fault>(upon(pre, made))
        },
        Err(fault) => after == Err::<Row, Fault>(fault),
    }
}

proof fn lemma_append_upon(pre: Seq<Seq<u8>>, row: Row, col: nat, bytes: Seq<u8>)
    requires
        pre.len() == row.cols.len(),
        col < pre.len(),
    ensures
        upon(pre, row).append(col, bytes) == upon(pre, row.append(col, bytes)),
{
    let c = col as int;
    assert((pre[c] + row.cols[c]) + bytes =~= pre[c] + (row.cols[c] + bytes));
    assert(upon(pre, row).append(col, bytes).cols =~= upon(pre, row.append(col, bytes)).cols);
}

proof fn lemma_record_upon(pre: Seq<Seq<u8>>, row: Row, col: nat, id: u64)
    ensures
        upon(pre, row).record(col, id) == upon(pre, row.record(col, id)),
{
    assert(upon(pre, row).record(col, id).cols =~= upon(pre, row.record(col, id)).cols);
}

proof fn lemma_bytes_upon(pre: Seq<Seq<u8>>, row: Row, base: nat, bytes: Seq<u8>)
    requires
        pre.len() == row.cols.len(),
        base + 1 < pre.len(),
    ensures
        put_bytes(bytes, base, upon(pre, row)) == upon(pre, put_bytes(bytes, base, row)),
{
    let len = varint::encoded(bytes.len());
    lemma_append_upon(pre, row, base, len);
    lemma_append_upon(pre, row.append(base, len), base + 1, bytes);
}

/// A value appends the same wherever its columns start from.
pub proof fn lemma_put_upon(pre: Seq<Seq<u8>>, v: Val, s: Shape, base: nat, row: Row)
    requires
        row.well_formed(),
        s.well_formed(),
        pre.len() == row.cols.len(),
        base + width_of(s) <= row.cols.len(),
    ensures
        unmoved(pre, row, put(v, s, base, row), put(v, s, base, upon(pre, row))),
    decreases v, v.kids.len() + 1, 1nat,
{
    match s.kind {
        Kind::Primitive(p) => {
            if let Head::Scalar(x) = v.head {
                lemma_append_upon(pre, row, base, scalar_bytes(x));
            }
        },
        Kind::String => {
            if let Head::Str(text) = v.head {
                lemma_bytes_upon(pre, row, base, encode_utf8(text));
            }
        },
        Kind::Bytes => {
            if let Head::Bytes(bytes) = v.head {
                lemma_bytes_upon(pre, row, base, bytes);
            }
        },
        Kind::Option => {
            lemma_one_kid_columns(s);
            lemma_append_upon(pre, row, base, seq![0u8]);
            lemma_append_upon(pre, row, base, seq![1u8]);
            if v.head is Present && v.kids.len() == 1 {
                lemma_put_upon(pre, v.kids[0], s.kids[0], base + 1, row.append(base, seq![1u8]));
            }
        },
        Kind::NewtypeStruct => {
            lemma_one_kid_columns(s);
            if let Head::NewtypeStruct(name) = v.head {
                if name == s.name && v.kids.len() == 1 {
                    lemma_put_upon(pre, v.kids[0], s.kids[0], base, row);
                }
            }
        },
        Kind::Sequence => {
            lemma_one_kid_columns(s);
            lemma_items_upon(pre, v, s, base, row, v.kids.len());
            if let Ok(items) = put_items(v, s, base, row, v.kids.len()) {
                lemma_append_upon(pre, items, base, varint::encoded(v.kids.len()));
            }
        },
        Kind::Mapping => {
            lemma_two_kids_columns(s);
            lemma_entries_upon(pre, v, s, base, row, v.kids.len());
            if let Ok(items) = put_entries(v, s, base, row, v.kids.len()) {
                lemma_append_upon(pre, items, base, varint::encoded(v.kids.len()));
            }
        },
        Kind::Tuple | Kind::TupleStruct => {
            if v.kids.len() == s.kids.len() {
                lemma_fields_upon(pre, v, s, base, row, v.kids.len());
            }
        },
        Kind::Struct => {
            if let Head::Struct(_, labels) = v.head {
                lemma_all_named_upon(pre, v, labels, s, base, row);
            }
        },
        Kind::Enum => {
            lemma_enum_upon(pre, v, s, base, row);
        },
        Kind::Shared => {
            lemma_one_kid_columns(s);
            if let Head::Shared(id) = v.head {
                let list = row.book[base as int];
                match place_of(list, id) {
                    Some(key) => {
                        lemma_append_upon(pre, row, base, varint::encoded(key));
                    },
                    None => {
                        if v.kids.len() == 1 {
                            let key = varint::encoded(list.len());
                            lemma_append_upon(pre, row, base, key);
                            lemma_record_upon(pre, row.append(base, key), base, id);
                            lemma_put_upon(
                                pre,
                                v.kids[0],
                                s.kids[0],
                                base + 1,
                                row.append(base, key).record(base, id),
                            );
                        }
                    },
                }
            }
        },
        _ => {},
    }
}

proof fn lemma_enum_upon(pre: Seq<Seq<u8>>, v: Val, s: Shape, base: nat, row: Row)
    requires
        s.kind is Enum,
        row.well_formed(),
        s.well_formed(),
        pre.len() == row.cols.len(),
        base + width_of(s) <= row.cols.len(),
    ensures
        unmoved(pre, row, put(v, s, base, row), put(v, s, base, upon(pre, row))),
    decreases v, v.kids.len() + 1, 0nat,
{
    let found = match v.head {
        Head::UnitVariant(index, name) => find_variant(s.labels, index, name),
        Head::NewtypeVariant(index, name) => find_variant(s.labels, index, name),
        Head::TupleVariant(index, name) => find_variant(s.labels, index, name),
        Head::StructVariant(index, name, _) => find_variant(s.labels, index, name),
        _ => None,
    };
    match v.head {
        Head::UnitVariant(index, name) => lemma_find_variant(s.labels, index, name),
        Head::NewtypeVariant(index, name) => lemma_find_variant(s.labels, index, name),
        Head::TupleVariant(index, name) => lemma_find_variant(s.labels, index, name),
        Head::StructVariant(index, name, _) => lemma_find_variant(s.labels, index, name),
        _ => {},
    }
    if let Some(i) = found {
        let k = s.kids[i as int];
        let at = kid_base(s, base, i);
        let tagged = row.append(base, varint::encoded(i));
        lemma_kid_columns(s, i);
        assert(k.well_formed());
        lemma_append_upon(pre, row, base, varint::encoded(i));
        match v.head {
            Head::NewtypeVariant(_, _) => {
                if k.kind is NewtypeVariant && v.kids.len() == 1 {
                    lemma_one_kid_columns(k);
                    lemma_put_upon(pre, v.kids[0], k.kids[0], at, tagged);
                }
            },
            Head::TupleVariant(_, _) => {
                if k.kind is TupleVariant && k.kids.len() == v.kids.len() {
                    lemma_fields_upon(pre, v, k, at, tagged, v.kids.len());
                }
            },
            Head::StructVariant(_, _, labels) => {
                if k.kind is StructVariant {
                    lemma_all_named_upon(pre, v, labels, k, at, tagged);
                }
            },
            _ => {},
        }
    }
}

proof fn lemma_items_upon(pre: Seq<Seq<u8>>, v: Val, s: Shape, base: nat, row: Row, n: nat)
    requires
        row.well_formed(),
        s.well_formed(),
        s.kids.len() == 1,
        pre.len() == row.cols.len(),
        base + 1 + width_of(s.kids[0]) <= row.cols.len(),
        n <= v.kids.len(),
    ensures
        unmoved(pre, row, put_items(v, s, base, row, n), put_items(v, s, base, upon(pre, row), n)),
    decreases v, n, 0nat,
{
    if n > 0 {
        let m = (n - 1) as nat;
        lemma_items_upon(pre, v, s, base, row, m);
        if let Ok(after) = put_items(v, s, base, row, m) {
            lemma_put_upon(pre, v.kids[m as int], s.kids[0], base + 1, after);
        }
    }
}

proof fn lemma_entries_upon(pre: Seq<Seq<u8>>, v: Val, s: Shape, base: nat, row: Row, n: nat)
    requires
        row.well_formed(),
        s.well_formed(),
        s.kids.len() == 2,
        pre.len() == row.cols.len(),
        base + 1 + width_of(s.kids[0]) + width_of(s.kids[1]) <= row.cols.len(),
        n <= v.kids.len(),
    ensures
        unmoved(
            pre,
            row,
            put_entries(v, s, base, row, n),
            put_entries(v, s, base, upon(pre, row), n),
        ),
    decreases v, n, 0nat,
{
    if n > 0 {
        let m = (n - 1) as nat;
        lemma_entries_upon(pre, v, s, base, row, m);
        if let Ok(after) = put_entries(v, s, base, row, m) {
            let pair = v.kids[m as int];
            if pair.kids.len() == 2 {
                lemma_put_upon(pre, pair.kids[0], s.kids[0], base + 1, after);
                if let Ok(keyed) = put(pair.kids[0], s.kids[0], base + 1, after) {
                    lemma_put_upon(
                        pre,
                        pair.kids[1],
                        s.kids[1],
                        base + 1 + width_of(s.kids[0]),
                        keyed,
                    );
                }
            }
        }
    }
}

proof fn lemma_fields_upon(pre: Seq<Seq<u8>>, v: Val, s: Shape, base: nat, row: Row, n: nat)
    requires
        row.well_formed(),
        s.well_formed(),
        pre.len() == row.cols.len(),
        base + width_of(s) <= row.cols.len(),
        n <= v.kids.len() == s.kids.len(),
    ensures
        unmoved(
            pre,
            row,
            put_fields(v, s, base, row, n),
            put_fields(v, s, base, upon(pre, row), n),
        ),
    decreases v, n, 0nat,
{
    if n > 0 {
        let m = (n - 1) as nat;
        lemma_fields_upon(pre, v, s, base, row, m);
        if let Ok(after) = put_fields(v, s, base, row, m) {
            lemma_kid_columns(s, m);
            lemma_put_upon(pre, v.kids[m as int], s.kids[m as int], kid_base(s, base, m), after);
        }
    }
}

proof fn lemma_named_upon(
    pre: Seq<Seq<u8>>,
    v: Val,
    labels: Seq<Seq<char>>,
    s: Shape,
    base: nat,
    row: Row,
    n: nat,
)
    requires
        row.well_formed(),
        s.well_formed(),
        pre.len() == row.cols.len(),
        base + width_of(s) <= row.cols.len(),
        n <= v.kids.len(),
    ensures
        unmoved(
            pre,
            row,
            put_named(v, labels, s, base, row, n),
            put_named(v, labels, s, base, upon(pre, row), n),
        ),
    decreases v, n, 0nat,
{
    if n > 0 {
        let m = (n - 1) as nat;
        lemma_named_upon(pre, v, labels, s, base, row, m);
        if let Ok(after) = put_named(v, labels, s, base, row, m) {
            if n <= s.kids.len() {
                lemma_kid_columns(s, m);
                lemma_put_upon(
                    pre,
                    v.kids[m as int],
                    s.kids[m as int],
                    kid_base(s, base, m),
                    after,
                );
            }
        }
    }
}

proof fn lemma_all_named_upon(
    pre: Seq<Seq<u8>>,
    v: Val,
    labels: Seq<Seq<char>>,
    s: Shape,
    base: nat,
    row: Row,
)
    requires
        row.well_formed(),
        s.well_formed(),
        pre.len() == row.cols.len(),
        base + width_of(s) <= row.cols.len(),
    ensures
        unmoved(
            pre,
            row,
            put_all_named(v, labels, s, base, row),
            put_all_named(v, labels, s, base, upon(pre, row)),
        ),
    decreases v, v.kids.len(), 1nat,
{
    lemma_named_upon(pre, v, labels, s, base, row, v.kids.len());
}

/// A row appends what it would append to empty columns, and is refused exactly
/// if it would be there, whatever rows came before it.
pub proof fn lemma_rows_apart(s: Shape, cols: Seq<Seq<u8>>, v: Val)
    requires
        s.well_formed(),
        cols.len() == width_of(s),
    ensures
        match (push_row(s, no_rows(s), v), push_row(s, cols, v)) {
            (Ok(alone), Ok(after)) => {
                &&& alone.len() == after.len() == cols.len()
                &&& forall|c: int|
                    0 <= c < cols.len() ==> #[trigger] after[c] == cols[c] + alone[c]
            },
            (Err(fault), Err(other)) => fault == other,
            _ => false,
        },
{
    let row = new_row(no_rows(s));
    lemma_put_upon(cols, v, s, 0, row);
    assert(upon(cols, row).cols =~= new_row(cols).cols);
    assert(upon(cols, row).book =~= new_row(cols).book);
}

} // verus!
