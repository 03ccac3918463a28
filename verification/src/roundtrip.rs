//! Reading gives back what writing wrote.

use vstd::prelude::*;
use vstd::utf8::encode_utf8;

use crate::error::Fault;
use crate::get::{
    count, get, get_bytes, get_entries, get_fields, get_items, Cur, MAX_ZERO_COLUMN_REPEAT,
};
use crate::put::{
    confined, find_variant, grows, lemma_append, lemma_find_variant, lemma_one_field, lemma_put,
    lemma_put_entries, lemma_put_fields, lemma_put_items, lemma_put_named, lemma_record,
    lemma_steps, place_of, prefix, put, put_all_named, put_bytes, put_entries, put_fields,
    put_items, size, stepped, total, Row,
};
use crate::shape::{
    columns_before, kid_base, lemma_kid_columns, lemma_one_kid_columns, lemma_two_kids_columns,
    Kind, Shape, width_of,
};
use crate::value::{atom, entry, lemma_scalar_bytes, scalar_bytes, Head, Val};
use crate::varint;
use crate::wire::fits;

verus! {

/// The place of the variant of `v` in the variant list of `s`.
pub open spec fn variant_place(v: Val, s: Shape) -> nat {
    match v.head {
        Head::UnitVariant(index, name) => find_variant(s.labels, index, name)->0,
        Head::NewtypeVariant(index, name) => find_variant(s.labels, index, name)->0,
        Head::TupleVariant(index, name) => find_variant(s.labels, index, name)->0,
        Head::StructVariant(index, name, _) => find_variant(s.labels, index, name)->0,
        _ => 0,
    }
}

/// The schema of part `j` of a value of `s`.
pub open spec fn part_shape(v: Val, s: Shape, j: int) -> Shape {
    match s.kind {
        Kind::Option | Kind::NewtypeStruct | Kind::Sequence | Kind::Shared => s.kids[0],
        Kind::Enum => s.kids[variant_place(v, s) as int].kids[j],
        _ => s.kids[j],
    }
}

/// Where the columns of part `j` of a value of `s` start.
pub open spec fn part_base(v: Val, s: Shape, base: nat, j: int) -> nat {
    match s.kind {
        Kind::Option | Kind::Sequence | Kind::Shared => base + 1,
        Kind::NewtypeStruct => base,
        Kind::Enum => kid_base(
            s.kids[variant_place(v, s) as int],
            kid_base(s, base, variant_place(v, s)),
            j as nat,
        ),
        _ => kid_base(s, base, j as nat),
    }
}

/// `v` as it is read back: the identity of a shared object is its key, and a
/// variant's index is its place in the schema's list.
pub open spec fn keyed(v: Val, s: Shape, base: nat, book: Seq<Seq<u64>>) -> Val
    decreases v,
{
    Val {
        head: match v.head {
            Head::Shared(id) => Head::Shared(place_of(book[base as int], id)->0 as u64),
            Head::UnitVariant(_, name) => Head::UnitVariant(variant_place(v, s) as u64, name),
            Head::NewtypeVariant(_, name) => Head::NewtypeVariant(variant_place(v, s) as u64, name),
            Head::TupleVariant(_, name) => Head::TupleVariant(variant_place(v, s) as u64, name),
            Head::StructVariant(_, name, labels) => Head::StructVariant(
                variant_place(v, s) as u64,
                name,
                labels,
            ),
            _ => v.head,
        },
        kids: Seq::new(
            v.kids.len(),
            |j: int|
                if 0 <= j < v.kids.len() {
                    if s.kind is Mapping {
                        if v.kids[j].kids.len() == 2 {
                            entry(
                                keyed(v.kids[j].kids[0], s.kids[0], base + 1, book),
                                keyed(
                                    v.kids[j].kids[1],
                                    s.kids[1],
                                    base + 1 + width_of(s.kids[0]),
                                    book,
                                ),
                            )
                        } else {
                            v.kids[j]
                        }
                    } else {
                        keyed(v.kids[j], part_shape(v, s, j), part_base(v, s, base, j), book)
                    }
                } else {
                    atom(Head::Unit)
                },
        ),
    }
}

/// The value has as many parts and labels as its head calls for, its strings
/// and lists can be held in memory, and no list of values without columns is
/// longer than a reader accepts.
pub open spec fn readable(v: Val, s: Shape) -> bool
    decreases v,
{
    &&& match v.head {
        Head::Str(text) => encode_utf8(text).len() <= usize::MAX && v.kids.len() == 0,
        Head::Bytes(bytes) => bytes.len() <= usize::MAX && v.kids.len() == 0,
        Head::Scalar(_)
        | Head::Unit
        | Head::Absent
        | Head::UnitStruct(_)
        | Head::UnitVariant(_, _) => v.kids.len() == 0,
        Head::Struct(_, labels) => labels.len() == v.kids.len(),
        Head::StructVariant(_, _, labels) => labels.len() == v.kids.len(),
        _ => true,
    }
    &&& v.kids.len() <= usize::MAX
    &&& s.kind is Sequence && width_of(s.kids[0]) == 0 ==> v.kids.len() <= MAX_ZERO_COLUMN_REPEAT
    &&& s.kind is Mapping && width_of(s.kids[0]) + width_of(s.kids[1]) == 0 ==> v.kids.len()
        <= MAX_ZERO_COLUMN_REPEAT
    &&& forall|j: int|
        0 <= j < v.kids.len() ==> {
            if s.kind is Mapping {
                &&& (#[trigger] v.kids[j]).head is Entry
                &&& v.kids[j].kids.len() == 2
                &&& readable(v.kids[j].kids[0], s.kids[0])
                &&& readable(v.kids[j].kids[1], s.kids[1])
            } else {
                readable(v.kids[j], part_shape(v, s, j))
            }
        }
}

/// Wherever an object occurs at a position, it holds the same value: the one
/// that `heap` gives for the position and the object, with identities replaced
/// by keys.
pub open spec fn consistent(
    v: Val,
    s: Shape,
    base: nat,
    book: Seq<Seq<u64>>,
    heap: spec_fn(nat, u64) -> Val,
) -> bool
    decreases v,
{
    &&& match v.head {
        Head::Shared(id) => v.kids.len() == 1 && keyed(v, s, base, book).kids == seq![
            heap(base, id),
        ],
        _ => true,
    }
    &&& forall|j: int|
        0 <= j < v.kids.len() ==> {
            if s.kind is Mapping {
                &&& (#[trigger] v.kids[j]).kids.len() == 2
                &&& consistent(v.kids[j].kids[0], s.kids[0], base + 1, book, heap)
                &&& consistent(
                    v.kids[j].kids[1],
                    s.kids[1],
                    base + 1 + width_of(s.kids[0]),
                    book,
                    heap,
                )
            } else {
                consistent(
                    v.kids[j],
                    part_shape(v, s, j),
                    part_base(v, s, base, j),
                    book,
                    heap,
                )
            }
        }
}

/// The objects that a row has written at a position, as they are read.
pub open spec fn objects(row: Row, c: int, heap: spec_fn(nat, u64) -> Val) -> Seq<Option<Val>> {
    Seq::new(row.book[c].len(), |k: int| Some(heap(c as nat, row.book[c][k])))
}

/// The reader stands, in `width` columns from `base` on, where the writer
/// stood when it had written `row`.
pub open spec fn tracks(
    cur: Cur,
    row: Row,
    heap: spec_fn(nat, u64) -> Val,
    base: nat,
    width: nat,
) -> bool {
    &&& cur.well_formed()
    &&& cur.bufs.len() == row.cols.len()
    &&& row.well_formed()
    &&& forall|c: int|
        base <= c < base + width && c < row.cols.len() ==> (#[trigger] cur.pos[c])
            == row.cols[c].len()
    &&& forall|c: int|
        base <= c < base + width && c < row.cols.len() ==> (#[trigger] cur.regs[c]) == objects(
            row,
            c,
            heap,
        )
}

/// The reader moves, in `width` columns from `base` on, to where the writer
/// stood when it had written `row`, and nowhere else.
pub open spec fn moved(
    cur: Cur,
    row: Row,
    heap: spec_fn(nat, u64) -> Val,
    base: nat,
    width: nat,
) -> Cur {
    Cur {
        bufs: cur.bufs,
        pos: Seq::new(
            cur.pos.len(),
            |c: int|
                if base <= c < base + width {
                    row.cols[c].len()
                } else {
                    cur.pos[c]
                },
        ),
        regs: Seq::new(
            cur.regs.len(),
            |c: int|
                if base <= c < base + width {
                    objects(row, c, heap)
                } else {
                    cur.regs[c]
                },
        ),
    }
}

/// What is read in the end holds all that was written in `row`.
pub open spec fn holds(bufs: Seq<Seq<u8>>, book: Seq<Seq<u64>>, row: Row) -> bool {
    &&& bufs.len() == row.cols.len()
    &&& book.len() == row.book.len()
    &&& forall|c: int| 0 <= c < row.cols.len() ==> prefix(row.cols[c], #[trigger] bufs[c])
    &&& forall|c: int| 0 <= c < row.book.len() ==> prefix(row.book[c], #[trigger] book[c])
    &&& forall|c: int| 0 <= c < row.book.len() ==> (#[trigger] book[c]).len() <= u64::MAX
}

proof fn lemma_holds_before(bufs: Seq<Seq<u8>>, book: Seq<Seq<u64>>, row: Row, after: Row)
    requires
        grows(row, after),
        holds(bufs, book, after),
    ensures
        holds(bufs, book, row),
{
    assert forall|c: int| 0 <= c < row.cols.len() implies prefix(
        row.cols[c],
        #[trigger] bufs[c],
    ) by {
        assert(prefix(row.cols[c], after.cols[c]));
        assert(prefix(after.cols[c], bufs[c]));
    }
    assert forall|c: int| 0 <= c < row.book.len() implies prefix(
        row.book[c],
        #[trigger] book[c],
    ) by {
        assert(prefix(row.book[c], after.book[c]));
        assert(prefix(after.book[c], book[c]));
    }
}

/// The bytes that were appended to a column stand where the reader is.
proof fn lemma_appended(cur: Cur, row: Row, col: nat, bytes: Seq<u8>, book: Seq<Seq<u64>>)
    requires
        cur.well_formed(),
        row.well_formed(),
        col < row.cols.len(),
        cur.pos[col as int] == row.cols[col as int].len(),
        holds(cur.bufs, book, row.append(col, bytes)),
    ensures
        cur.rest(col).len() >= bytes.len(),
        cur.rest(col) == bytes + cur.rest(col).subrange(
            bytes.len() as int,
            cur.rest(col).len() as int,
        ),
        cur.rest(col).subrange(0, bytes.len() as int) == bytes,
{
    let whole = row.append(col, bytes).cols[col as int];
    assert(prefix(whole, cur.bufs[col as int]));
    let rest = cur.rest(col);
    assert forall|k: int| 0 <= k < bytes.len() implies rest[k] == bytes[k] by {
        assert(whole[row.cols[col as int].len() + k] == bytes[k]);
    }
    assert(rest =~= bytes + rest.subrange(bytes.len() as int, rest.len() as int));
    assert(rest.subrange(0, bytes.len() as int) =~= bytes);
}

/// A varint that was appended to a column is read from it.
proof fn lemma_read_varint(cur: Cur, row: Row, col: nat, value: nat, book: Seq<Seq<u64>>)
    requires
        cur.well_formed(),
        row.well_formed(),
        col < row.cols.len(),
        cur.pos[col as int] == row.cols[col as int].len(),
        value <= u64::MAX,
        holds(cur.bufs, book, row.append(col, varint::encoded(value))),
    ensures
        cur.varint(col) == Ok::<(nat, Cur), Fault>(
            (value, cur.advance(col, varint::encoded(value).len())),
        ),
        cur.advance(col, varint::encoded(value).len()).well_formed(),
{
    let code = varint::encoded(value);
    lemma_appended(cur, row, col, code, book);
    varint::lemma_decode_encode(
        value as u64,
        cur.rest(col).subrange(code.len() as int, cur.rest(col).len() as int),
    );
}

proof fn lemma_take(cur: Cur, row: Row, col: nat, bytes: Seq<u8>, book: Seq<Seq<u64>>)
    requires
        cur.well_formed(),
        row.well_formed(),
        col < row.cols.len(),
        cur.pos[col as int] == row.cols[col as int].len(),
        holds(cur.bufs, book, row.append(col, bytes)),
    ensures
        cur.take(col, bytes.len()) == Ok::<(Seq<u8>, Cur), Fault>(
            (bytes, cur.advance(col, bytes.len())),
        ),
        cur.advance(col, bytes.len()).well_formed(),
{
    lemma_appended(cur, row, col, bytes, book);
}

/// Facts on places: an object that has a place keeps it, and a new object
/// takes the next one.
pub proof fn lemma_place(list: Seq<u64>, id: u64)
    ensures
        match place_of(list, id) {
            Some(i) => i < list.len() && list[i as int] == id,
            None => !list.contains(id),
        },
        forall|k: int|
            0 <= k < list.len() && list[k] == id ==> place_of(list, id) is Some && place_of(
                list,
                id,
            )->0 <= k,
    decreases list.len(),
{
    if list.len() > 0 {
        lemma_place(list.drop_last(), id);
        assert forall|k: int| 0 <= k < list.len() && list[k] == id implies place_of(
            list,
            id,
        ) is Some && place_of(list, id)->0 <= k by {
            if k < list.len() - 1 {
                assert(list.drop_last()[k] == id);
            }
        }
    }
}

proof fn lemma_place_stays(list: Seq<u64>, more: Seq<u64>, id: u64)
    requires
        prefix(list, more),
        place_of(list, id) is Some,
    ensures
        place_of(more, id) == place_of(list, id),
{
    lemma_place(list, id);
    lemma_place(more, id);
    let i = place_of(list, id)->0;
    assert(more[i as int] == id);
    let k = place_of(more, id)->0;
    if k < i {
        assert(list[k as int] == id);
    }
}

proof fn lemma_place_new(list: Seq<u64>, id: u64)
    requires
        place_of(list, id) is None,
    ensures
        place_of(list.push(id), id) == Some(list.len()),
{
    assert(list.push(id).drop_last() =~= list);
}

/// The reader has at least as many bytes left as were written after where it
/// stands.
proof fn lemma_left(cur: Cur, row: Row, after: Row, n: nat)
    requires
        cur.well_formed(),
        cur.bufs.len() == row.cols.len(),
        after.cols.len() == row.cols.len(),
        n <= row.cols.len(),
        forall|c: int|
            0 <= c < row.cols.len() ==> (#[trigger] after.cols[c]).len() - row.cols[c].len()
                <= cur.rest(c as nat).len(),
    ensures
        total(after.cols, n) - total(row.cols, n) <= cur.left(n),
    decreases n,
{
    if n > 0 {
        lemma_left(cur, row, after, (n - 1) as nat);
        assert(after.cols[n - 1].len() - row.cols[n - 1].len() <= cur.rest((n - 1) as nat).len());
    }
}

/// Reading a value where it was written gives it back and moves on past it.
#[verifier::rlimit(40)]
pub proof fn lemma_get_put(
    v: Val,
    s: Shape,
    base: nat,
    row: Row,
    cur: Cur,
    book: Seq<Seq<u64>>,
    heap: spec_fn(nat, u64) -> Val,
)
    requires
        s.well_formed(),
        fits(s),
        base + width_of(s) <= row.cols.len(),
        put(v, s, base, row) is Ok,
        readable(v, s),
        consistent(v, s, base, book, heap),
        tracks(cur, row, heap, base, width_of(s)),
        holds(cur.bufs, book, put(v, s, base, row)->Ok_0),
    ensures
        get(s, base, cur) == Ok::<(Val, Cur), Fault>(
            (
                keyed(v, s, base, book),
                moved(cur, put(v, s, base, row)->Ok_0, heap, base, width_of(s)),
            ),
        ),
        tracks(
            moved(cur, put(v, s, base, row)->Ok_0, heap, base, width_of(s)),
            put(v, s, base, row)->Ok_0,
            heap,
            base,
            width_of(s),
        ),
    decreases v, v.kids.len() + 1, 1nat,
{
    let width = width_of(s);
    let end = put(v, s, base, row)->Ok_0;
    let goal = moved(cur, end, heap, base, width);
    let w = keyed(v, s, base, book);
    lemma_put(v, s, base, row);
    lemma_moved_tracks(cur, row, end, book, heap, base, width);
    match s.kind {
        Kind::Primitive(p) => {
            if let Head::Scalar(x) = v.head {
                lemma_scalar_bytes(x);
                lemma_take(cur, row, base, scalar_bytes(x), book);
                assert(w.kids =~= seq![]);
                lemma_objects_all(row, end, heap);
                assert(cur.advance(base, scalar_bytes(x).len()).pos =~= goal.pos);
                assert(cur.regs =~= goal.regs);
            }
        },
        Kind::String => {
            if let Head::Str(text) = v.head {
                lemma_get_bytes(encode_utf8(text), base, row, cur, book, heap);
                vstd::utf8::encode_utf8_valid_utf8(text);
                vstd::utf8::encode_utf8_decode_utf8(text);
                assert(w.kids =~= seq![]);
            }
        },
        Kind::Bytes => {
            if let Head::Bytes(bytes) = v.head {
                lemma_get_bytes(bytes, base, row, cur, book, heap);
                assert(w.kids =~= seq![]);
            }
        },
        Kind::Unit | Kind::UnitStruct => {
            assert(w.kids =~= seq![]);
            assert(cur.pos =~= goal.pos);
            assert(cur.regs =~= goal.regs);
        },
        Kind::Option => {
            lemma_one_kid_columns(s);
            match v.head {
                Head::Absent => {
                    lemma_take(cur, row, base, seq![0u8], book);
                    assert(w.kids =~= seq![]);
                    assert(cur.advance(base, 1).pos =~= goal.pos) by {
                        assert forall|c: int| 0 <= c < cur.pos.len() implies cur.advance(
                            base,
                            1,
                        ).pos[c] == goal.pos[c] by {
                            if base < c < base + width {
                                assert(end.cols[c] == row.cols[c]);
                            }
                        }
                    }
                    lemma_objects_all(row, end, heap);
                    assert(cur.regs =~= goal.regs);
                },
                _ => {
                    let tagged = row.append(base, seq![1u8]);
                    lemma_append(row, base, seq![1u8], base, 1);
                    lemma_put(v.kids[0], s.kids[0], base + 1, tagged);
                    lemma_holds_before(cur.bufs, book, tagged, end);
                    lemma_take(cur, row, base, seq![1u8], book);
                    let next = cur.advance(base, 1);
                    lemma_objects_all(row, tagged, heap);
                    assert(readable(v.kids[0], part_shape(v, s, 0)));
                    assert(consistent(
                        v.kids[0],
                        part_shape(v, s, 0),
                        part_base(v, s, base, 0),
                        book,
                        heap,
                    ));
                    lemma_get_put(v.kids[0], s.kids[0], base + 1, tagged, next, book, heap);
                    let inner = moved(next, end, heap, base + 1, width_of(s.kids[0]));
                    lemma_objects_one(tagged, end, base as int, heap);
                    assert(inner.pos =~= goal.pos);
                    assert(inner.regs =~= goal.regs);
                    assert(w.kids =~= seq![keyed(v.kids[0], s.kids[0], base + 1, book)]);
                },
            }
        },
        Kind::NewtypeStruct => {
            lemma_one_kid_columns(s);
            assert(readable(v.kids[0], part_shape(v, s, 0)));
            assert(consistent(
                v.kids[0],
                part_shape(v, s, 0),
                part_base(v, s, base, 0),
                book,
                heap,
            ));
            lemma_get_put(v.kids[0], s.kids[0], base, row, cur, book, heap);
            assert(w.kids =~= seq![keyed(v.kids[0], s.kids[0], base, book)]);
        },
        Kind::Sequence => {
            lemma_get_sequence(v, s, base, row, cur, book, heap);
        },
        Kind::Mapping => {
            lemma_get_mapping(v, s, base, row, cur, book, heap);
        },
        Kind::Tuple | Kind::TupleStruct => {
            lemma_get_fields(v, s, base, row, cur, book, heap, v.kids.len());
            assert(part_kids(v, s, base, book, v.kids.len()) =~= w.kids);
        },
        Kind::Struct => {
            if let Head::Struct(_, labels) = v.head {
                assert(put_all_named(v, labels, s, base, row) is Ok);
                lemma_put_named(v, labels, s, base, row, v.kids.len());
                assert(labels =~= s.labels);
                lemma_get_fields(v, s, base, row, cur, book, heap, v.kids.len());
                assert(part_kids(v, s, base, book, v.kids.len()) =~= w.kids);
            }
        },
        Kind::Enum => {
            lemma_get_enum(v, s, base, row, cur, book, heap);
        },
        Kind::Shared => {
            lemma_get_shared(v, s, base, row, cur, book, heap);
        },
        _ => {},
    }
}

proof fn lemma_objects_all(row: Row, after: Row, heap: spec_fn(nat, u64) -> Val)
    requires
        row.book == after.book,
    ensures
        forall|c: int| objects(row, c, heap) == #[trigger] objects(after, c, heap),
{
    assert forall|c: int| objects(row, c, heap) == #[trigger] objects(after, c, heap) by {
        assert(objects(row, c, heap) =~= objects(after, c, heap));
    }
}

proof fn lemma_objects_one(row: Row, after: Row, c: int, heap: spec_fn(nat, u64) -> Val)
    requires
        row.book[c] == after.book[c],
    ensures
        objects(row, c, heap) == objects(after, c, heap),
{
    assert(objects(row, c, heap) =~= objects(after, c, heap));
}

proof fn lemma_moved_tracks(
    cur: Cur,
    row: Row,
    end: Row,
    book: Seq<Seq<u64>>,
    heap: spec_fn(nat, u64) -> Val,
    base: nat,
    width: nat,
)
    requires
        tracks(cur, row, heap, base, width),
        stepped(row, end, base, width),
        base + width <= row.cols.len(),
        holds(cur.bufs, book, end),
    ensures
        tracks(moved(cur, end, heap, base, width), end, heap, base, width),
{
    let goal = moved(cur, end, heap, base, width);
    assert forall|c: int| 0 <= c < goal.bufs.len() implies (#[trigger] goal.pos[c])
        <= goal.bufs[c].len() by {
        assert(prefix(end.cols[c], cur.bufs[c]));
        assert(cur.pos[c] <= cur.bufs[c].len());
    }
}

proof fn lemma_get_bytes(
    bytes: Seq<u8>,
    base: nat,
    row: Row,
    cur: Cur,
    book: Seq<Seq<u64>>,
    heap: spec_fn(nat, u64) -> Val,
)
    requires
        bytes.len() <= usize::MAX,
        base + 2 <= row.cols.len(),
        tracks(cur, row, heap, base, 2),
        holds(cur.bufs, book, put_bytes(bytes, base, row)),
    ensures
        get_bytes(base, cur) == Ok::<(Seq<u8>, Cur), Fault>(
            (bytes, moved(cur, put_bytes(bytes, base, row), heap, base, 2)),
        ),
{
    let len = varint::encoded(bytes.len());
    let mid = row.append(base, len);
    let end = mid.append(base + 1, bytes);
    lemma_append(row, base, len, base, 2);
    lemma_append(mid, base + 1, bytes, base, 2);
    lemma_holds_before(cur.bufs, book, mid, end);
    lemma_read_varint(cur, row, base, bytes.len(), book);
    let next = cur.advance(base, len.len());
    lemma_take(next, mid, base + 1, bytes, book);
    let goal = moved(cur, end, heap, base, 2);
    lemma_objects_all(row, end, heap);
    assert(next.advance(base + 1, bytes.len()).pos =~= goal.pos);
    assert(next.advance(base + 1, bytes.len()).regs =~= goal.regs);
}

/// The first `n` parts of a value, as they are read back.
pub open spec fn part_kids(
    v: Val,
    s: Shape,
    base: nat,
    book: Seq<Seq<u64>>,
    n: nat,
) -> Seq<Val> {
    Seq::new(n, |j: int| keyed(v.kids[j], s.kids[j], kid_base(s, base, j as nat), book))
}

proof fn lemma_get_fields(
    v: Val,
    s: Shape,
    base: nat,
    row: Row,
    cur: Cur,
    book: Seq<Seq<u64>>,
    heap: spec_fn(nat, u64) -> Val,
    n: nat,
)
    requires
        s.well_formed(),
        fits(s),
        !(s.kind is Mapping),
        base + width_of(s) <= row.cols.len(),
        v.kids.len() == s.kids.len(),
        n <= v.kids.len(),
        crate::shape::own_columns(s.kind) == 0,
        put_fields(v, s, base, row, n) is Ok,
        forall|j: int|
            0 <= j < v.kids.len() ==> {
                &&& readable(#[trigger] v.kids[j], s.kids[j])
                &&& consistent(v.kids[j], s.kids[j], kid_base(s, base, j as nat), book, heap)
            },
        tracks(cur, row, heap, base, width_of(s)),
        holds(cur.bufs, book, put_fields(v, s, base, row, n)->Ok_0),
    ensures
        get_fields(s, base, cur, n) == Ok::<(Seq<Val>, Cur), Fault>(
            (
                part_kids(v, s, base, book, n),
                moved(
                    cur,
                    put_fields(v, s, base, row, n)->Ok_0,
                    heap,
                    base,
                    width_of(s),
                ),
            ),
        ),
        confined(
            row,
            put_fields(v, s, base, row, n)->Ok_0,
            base,
            columns_before(s, n),
        ),
    decreases v, n, 0nat,
{
    let after = put_fields(v, s, base, row, n)->Ok_0;
    let goal = moved(cur, after, heap, base, width_of(s));
    if n == 0 {
        assert(part_kids(v, s, base, book, 0) =~= seq![]);
        assert(cur.pos =~= goal.pos);
        assert(cur.regs =~= goal.regs);
    } else {
        let i = (n - 1) as nat;
        let before = put_fields(v, s, base, row, i)->Ok_0;
        let kid = s.kids[i as int];
        let kb = kid_base(s, base, i);
        lemma_put_fields(v, s, base, row, i);
        lemma_kid_columns(s, i);
        lemma_put(v.kids[i as int], kid, kb, before);
        lemma_holds_before(cur.bufs, book, before, after);
        lemma_get_fields(v, s, base, row, cur, book, heap, i);
        let mid = moved(cur, before, heap, base, width_of(s));
        lemma_moved_tracks(cur, row, before, book, heap, base, width_of(s));
        lemma_get_put(v.kids[i as int], kid, kb, before, mid, book, heap);
        let fin = moved(mid, after, heap, kb, width_of(kid));
        assert forall|c: int| base <= c < base + width_of(s) && !(kb <= c < kb + width_of(kid))
            implies objects(before, c, heap) == #[trigger] objects(after, c, heap) by {
            lemma_objects_one(before, after, c, heap);
        }
        assert(fin.pos =~= goal.pos);
        assert(fin.regs =~= goal.regs);
        assert(part_kids(v, s, base, book, i).push(keyed(v.kids[i as int], kid, kb, book))
            =~= part_kids(v, s, base, book, n));
    }
}

proof fn lemma_get_enum(
    v: Val,
    s: Shape,
    base: nat,
    row: Row,
    cur: Cur,
    book: Seq<Seq<u64>>,
    heap: spec_fn(nat, u64) -> Val,
)
    requires
        s.well_formed(),
        fits(s),
        s.kind is Enum,
        base + width_of(s) <= row.cols.len(),
        put(v, s, base, row) is Ok,
        readable(v, s),
        consistent(v, s, base, book, heap),
        tracks(cur, row, heap, base, width_of(s)),
        holds(cur.bufs, book, put(v, s, base, row)->Ok_0),
    ensures
        get(s, base, cur) == Ok::<(Val, Cur), Fault>(
            (
                keyed(v, s, base, book),
                moved(cur, put(v, s, base, row)->Ok_0, heap, base, width_of(s)),
            ),
        ),
    decreases v, v.kids.len() + 1, 0nat,
{
    let width = width_of(s);
    let end = put(v, s, base, row)->Ok_0;
    let goal = moved(cur, end, heap, base, width);
    let w = keyed(v, s, base, book);
    let (index, name) = match v.head {
        Head::UnitVariant(index, name) => (index, name),
        Head::NewtypeVariant(index, name) => (index, name),
        Head::TupleVariant(index, name) => (index, name),
        Head::StructVariant(index, name, _) => (index, name),
        _ => (0u64, seq![]),
    };
    lemma_find_variant(s.labels, index, name);
    let i = find_variant(s.labels, index, name)->0;
    assert(variant_place(v, s) == i);
    let tag = varint::encoded(i);
    let tagged = row.append(base, tag);
    let vs = s.kids[i as int];
    let vb = kid_base(s, base, i);
    assert(vs.well_formed());
    assert(fits(vs));
    lemma_kid_columns(s, i);
    lemma_append(row, base, tag, base, 1);
    match v.head {
        Head::NewtypeVariant(_, _) => {
            lemma_one_field(v, vs, vb, tagged);
        },
        Head::StructVariant(_, _, labels) => {
            assert(put_all_named(v, labels, vs, vb, tagged) is Ok);
            lemma_put_named(v, labels, vs, vb, tagged, v.kids.len());
            assert(labels =~= vs.labels);
        },
        _ => {},
    }
    assert(v.kids.len() == vs.kids.len());
    assert(put_fields(v, vs, vb, tagged, v.kids.len()) == Ok::<Row, Fault>(end));
    lemma_put_fields(v, vs, vb, tagged, v.kids.len());
    lemma_holds_before(cur.bufs, book, tagged, end);
    lemma_read_varint(cur, row, base, i, book);
    let next = cur.advance(base, tag.len());
    lemma_objects_all(row, tagged, heap);
    assert forall|j: int| 0 <= j < v.kids.len() implies {
        &&& readable(#[trigger] v.kids[j], vs.kids[j])
        &&& consistent(v.kids[j], vs.kids[j], kid_base(vs, vb, j as nat), book, heap)
    } by {
        assert(readable(v.kids[j], part_shape(v, s, j)));
        assert(consistent(
            v.kids[j],
            part_shape(v, s, j),
            part_base(v, s, base, j),
            book,
            heap,
        ));
    }
    lemma_get_fields(v, vs, vb, tagged, next, book, heap, v.kids.len());
    let fin = moved(next, end, heap, vb, width_of(vs));
    assert forall|c: int| base <= c < base + width && !(vb <= c < vb + width_of(vs))
        implies objects(row, c, heap) == #[trigger] objects(end, c, heap) by {
        assert(end.book[c] == tagged.book[c]);
        lemma_objects_one(row, end, c, heap);
    }
    assert forall|c: int| 0 <= c < cur.pos.len() implies fin.pos[c] == goal.pos[c] by {
        if base <= c < base + width && !(vb <= c < vb + width_of(vs)) {
            assert(end.cols[c] == tagged.cols[c]);
        }
    }
    assert(fin.pos =~= goal.pos);
    assert(fin.regs =~= goal.regs);
    assert(part_kids(v, vs, vb, book, v.kids.len()) =~= w.kids);
}

proof fn lemma_get_shared(
    v: Val,
    s: Shape,
    base: nat,
    row: Row,
    cur: Cur,
    book: Seq<Seq<u64>>,
    heap: spec_fn(nat, u64) -> Val,
)
    requires
        s.well_formed(),
        fits(s),
        s.kind is Shared,
        base + width_of(s) <= row.cols.len(),
        put(v, s, base, row) is Ok,
        readable(v, s),
        consistent(v, s, base, book, heap),
        tracks(cur, row, heap, base, width_of(s)),
        holds(cur.bufs, book, put(v, s, base, row)->Ok_0),
    ensures
        get(s, base, cur) == Ok::<(Val, Cur), Fault>(
            (
                keyed(v, s, base, book),
                moved(cur, put(v, s, base, row)->Ok_0, heap, base, width_of(s)),
            ),
        ),
    decreases v, v.kids.len() + 1, 0nat,
{
    lemma_one_kid_columns(s);
    let width = width_of(s);
    let end = put(v, s, base, row)->Ok_0;
    let goal = moved(cur, end, heap, base, width);
    let w = keyed(v, s, base, book);
    lemma_put(v, s, base, row);
    if let Head::Shared(id) = v.head {
        let list = row.book[base as int];
        lemma_place(list, id);
        assert(w.kids =~= seq![heap(base, id)]);
        match place_of(list, id) {
            Some(key) => {
                assert(prefix(end.book[base as int], book[base as int]));
                assert(end.book == row.book);
                lemma_place_stays(list, book[base as int], id);
                lemma_read_varint(cur, row, base, key, book);
                let next = cur.advance(base, varint::encoded(key).len());
                assert(next.regs[base as int] == objects(row, base as int, heap));
                assert(next.regs[base as int][key as int] == Some(heap(base, id)));
                lemma_objects_all(row, end, heap);
                assert(next.pos =~= goal.pos) by {
                    assert forall|c: int| 0 <= c < cur.pos.len() implies next.pos[c]
                        == goal.pos[c] by {
                        if base < c < base + width {
                            assert(end.cols[c] == row.cols[c]);
                        }
                    }
                }
                assert(next.regs =~= goal.regs);
            },
            None => {
                let key = list.len();
                let code = varint::encoded(key);
                let coded = row.append(base, code);
                let recorded = coded.record(base, id);
                lemma_append(row, base, code, base, 1);
                lemma_record(coded, base, id, base, 1);
                lemma_steps(row, coded, recorded, base, 1, base, 1, base, 1);
                lemma_put(v.kids[0], s.kids[0], base + 1, recorded);
                lemma_holds_before(cur.bufs, book, recorded, end);
                lemma_holds_before(cur.bufs, book, coded, recorded);
                assert(prefix(recorded.book[base as int], book[base as int]));
                lemma_place_new(list, id);
                lemma_place_stays(list.push(id), book[base as int], id);
                lemma_read_varint(cur, row, base, key, book);
                let next = cur.advance(base, code.len());
                assert(next.regs[base as int] == objects(row, base as int, heap));
                assert(next.regs[base as int].len() == key);
                let reserved = next.reserve(base);
                assert(tracks(reserved, recorded, heap, base + 1, width_of(s.kids[0]))) by {
                    assert forall|c: int|
                        base + 1 <= c < base + 1 + width_of(s.kids[0]) && c
                            < recorded.cols.len() implies (#[trigger] reserved.regs[c])
                        == objects(recorded, c, heap) by {
                        lemma_objects_one(row, recorded, c, heap);
                        assert(cur.regs[c] == objects(row, c, heap));
                    }
                }
                assert(readable(v.kids[0], part_shape(v, s, 0)));
                assert(consistent(
                    v.kids[0],
                    part_shape(v, s, 0),
                    part_base(v, s, base, 0),
                    book,
                    heap,
                ));
                lemma_get_put(v.kids[0], s.kids[0], base + 1, recorded, reserved, book, heap);
                let inner = moved(reserved, end, heap, base + 1, width_of(s.kids[0]));
                let kv = keyed(v.kids[0], s.kids[0], base + 1, book);
                assert(w.kids[0] == kv);
                assert(kv == heap(base, id));
                let fin = inner.fulfill(base, key, kv);
                assert(end.book[base as int] == recorded.book[base as int]);
                assert(end.cols[base as int] == recorded.cols[base as int]);
                assert(fin.regs[base as int] =~= objects(end, base as int, heap));
                assert(fin.pos =~= goal.pos);
                assert(fin.regs =~= goal.regs);
            },
        }
    }
}

/// The first `n` elements of a sequence, as they are read back.
pub open spec fn item_kids(v: Val, s: Shape, base: nat, book: Seq<Seq<u64>>, n: nat) -> Seq<Val> {
    Seq::new(n, |j: int| keyed(v.kids[j], s.kids[0], base + 1, book))
}

proof fn lemma_get_items(
    v: Val,
    s: Shape,
    base: nat,
    row: Row,
    cur: Cur,
    book: Seq<Seq<u64>>,
    heap: spec_fn(nat, u64) -> Val,
    n: nat,
)
    requires
        s.well_formed(),
        fits(s),
        s.kids.len() == 1,
        base + 1 + width_of(s.kids[0]) <= row.cols.len(),
        n <= v.kids.len(),
        put_items(v, s, base, row, n) is Ok,
        forall|j: int|
            0 <= j < v.kids.len() ==> {
                &&& readable(#[trigger] v.kids[j], s.kids[0])
                &&& consistent(v.kids[j], s.kids[0], base + 1, book, heap)
            },
        tracks(cur, row, heap, base + 1, width_of(s.kids[0])),
        holds(cur.bufs, book, put_items(v, s, base, row, n)->Ok_0),
    ensures
        get_items(s, base, cur, n) == Ok::<(Seq<Val>, Cur), Fault>(
            (
                item_kids(v, s, base, book, n),
                moved(
                    cur,
                    put_items(v, s, base, row, n)->Ok_0,
                    heap,
                    base + 1,
                    width_of(s.kids[0]),
                ),
            ),
        ),
    decreases v, n, 0nat,
{
    let kid = s.kids[0];
    let width = width_of(kid);
    let after = put_items(v, s, base, row, n)->Ok_0;
    let goal = moved(cur, after, heap, base + 1, width);
    if n == 0 {
        assert(item_kids(v, s, base, book, 0) =~= seq![]);
        assert(cur.pos =~= goal.pos);
        assert(cur.regs =~= goal.regs);
    } else {
        let i = (n - 1) as nat;
        let before = put_items(v, s, base, row, i)->Ok_0;
        lemma_put_items(v, s, base, row, i);
        lemma_put(v.kids[i as int], kid, base + 1, before);
        lemma_holds_before(cur.bufs, book, before, after);
        lemma_get_items(v, s, base, row, cur, book, heap, i);
        let mid = moved(cur, before, heap, base + 1, width);
        lemma_moved_tracks(cur, row, before, book, heap, base + 1, width);
        lemma_get_put(v.kids[i as int], kid, base + 1, before, mid, book, heap);
        let fin = moved(mid, after, heap, base + 1, width);
        assert(fin.pos =~= goal.pos);
        assert(fin.regs =~= goal.regs);
        assert(item_kids(v, s, base, book, i).push(keyed(v.kids[i as int], kid, base + 1, book))
            =~= item_kids(v, s, base, book, n));
    }
}

/// A count that was written passes the reader's check.
proof fn lemma_count(
    what: Seq<char>,
    element_columns: nat,
    n: nat,
    base: nat,
    row: Row,
    items: Row,
    cur: Cur,
    book: Seq<Seq<u64>>,
    heap: spec_fn(nat, u64) -> Val,
    width: nat,
)
    requires
        base < row.cols.len(),
        base + 1 + width <= row.cols.len(),
        n <= usize::MAX,
        stepped(row, items, base + 1, width),
        element_columns == 0 ==> n <= MAX_ZERO_COLUMN_REPEAT,
        element_columns > 0 ==> size(items) >= size(row) + n,
        tracks(cur, row, heap, base, 1 + width),
        holds(cur.bufs, book, items.append(base, varint::encoded(n))),
    ensures
        count(what, element_columns, base, cur) == Ok::<(nat, Cur), Fault>(
            (n, cur.advance(base, varint::encoded(n).len())),
        ),
        cur.advance(base, varint::encoded(n).len()).well_formed(),
        tracks(cur.advance(base, varint::encoded(n).len()), row, heap, base + 1, width),
{
    let code = varint::encoded(n);
    let end = items.append(base, code);
    let direct = row.append(base, code);
    assert(items.cols[base as int] == row.cols[base as int]);
    lemma_append(row, base, code, base, 1);
    lemma_append(items, base, code, base, 1);
    assert(grows(direct, end)) by {
        assert forall|c: int| 0 <= c < direct.cols.len() implies prefix(
            direct.cols[c],
            #[trigger] end.cols[c],
        ) by {
            assert(prefix(row.cols[c], items.cols[c]));
        }
        assert forall|c: int| 0 <= c < direct.book.len() implies prefix(
            direct.book[c],
            #[trigger] end.book[c],
        ) by {
            assert(prefix(row.book[c], items.book[c]));
        }
    }
    lemma_holds_before(cur.bufs, book, direct, end);
    lemma_holds_before(cur.bufs, book, items, end);
    lemma_read_varint(cur, row, base, n, book);
    let next = cur.advance(base, code.len());
    assert forall|c: int| 0 <= c < row.cols.len() implies (#[trigger] items.cols[c]).len()
        - row.cols[c].len() <= next.rest(c as nat).len() by {
        assert(prefix(items.cols[c], cur.bufs[c]));
        assert(cur.pos[c] <= cur.bufs[c].len());
        if base + 1 <= c < base + 1 + width {
            assert(cur.pos[c] == row.cols[c].len());
        } else {
            assert(items.cols[c] == row.cols[c]);
        }
    }
    lemma_left(next, row, items, row.cols.len());
    assert(tracks(next, row, heap, base + 1, width)) by {
        assert forall|c: int|
            base + 1 <= c < base + 1 + width && c < row.cols.len() implies (#[trigger] next.pos[c])
            == row.cols[c].len() by {
            assert(cur.pos[c] == row.cols[c].len());
        }
        assert forall|c: int|
            base + 1 <= c < base + 1 + width && c < row.cols.len() implies (#[trigger] next.regs[c])
            == objects(row, c, heap) by {
            assert(cur.regs[c] == objects(row, c, heap));
        }
    }
}

proof fn lemma_get_sequence(
    v: Val,
    s: Shape,
    base: nat,
    row: Row,
    cur: Cur,
    book: Seq<Seq<u64>>,
    heap: spec_fn(nat, u64) -> Val,
)
    requires
        s.well_formed(),
        fits(s),
        s.kind is Sequence,
        base + width_of(s) <= row.cols.len(),
        put(v, s, base, row) is Ok,
        readable(v, s),
        consistent(v, s, base, book, heap),
        tracks(cur, row, heap, base, width_of(s)),
        holds(cur.bufs, book, put(v, s, base, row)->Ok_0),
    ensures
        get(s, base, cur) == Ok::<(Val, Cur), Fault>(
            (
                keyed(v, s, base, book),
                moved(cur, put(v, s, base, row)->Ok_0, heap, base, width_of(s)),
            ),
        ),
    decreases v, v.kids.len() + 1, 0nat,
{
    lemma_one_kid_columns(s);
    let kid = s.kids[0];
    let width = width_of(kid);
    let n = v.kids.len();
    let end = put(v, s, base, row)->Ok_0;
    let items = put_items(v, s, base, row, n)->Ok_0;
    let code = varint::encoded(n);
    let goal = moved(cur, end, heap, base, width_of(s));
    lemma_put_items(v, s, base, row, n);
    lemma_append(items, base, code, base, 1);
    lemma_holds_before(cur.bufs, book, items, end);
    lemma_count(
        "sequence length"@,
        width,
        n,
        base,
        row,
        items,
        cur,
        book,
        heap,
        width,
    );
    let next = cur.advance(base, code.len());
    assert forall|j: int| 0 <= j < v.kids.len() implies {
        &&& readable(#[trigger] v.kids[j], kid)
        &&& consistent(v.kids[j], kid, base + 1, book, heap)
    } by {
        assert(readable(v.kids[j], part_shape(v, s, j)));
        assert(consistent(v.kids[j], part_shape(v, s, j), part_base(v, s, base, j), book, heap));
    }
    lemma_get_items(v, s, base, row, next, book, heap, n);
    let fin = moved(next, items, heap, base + 1, width);
    lemma_objects_all(items, end, heap);
    lemma_objects_one(row, items, base as int, heap);
    assert(items.cols[base as int] == row.cols[base as int]);
    assert(fin.pos =~= goal.pos);
    assert(fin.regs =~= goal.regs);
    assert(item_kids(v, s, base, book, n) =~= keyed(v, s, base, book).kids);
}

/// The first `n` entries of a mapping, as they are read back.
pub open spec fn entry_kids(v: Val, s: Shape, base: nat, book: Seq<Seq<u64>>, n: nat) -> Seq<Val> {
    Seq::new(
        n,
        |j: int|
            entry(
                keyed(v.kids[j].kids[0], s.kids[0], base + 1, book),
                keyed(v.kids[j].kids[1], s.kids[1], base + 1 + width_of(s.kids[0]), book),
            ),
    )
}

proof fn lemma_get_entries(
    v: Val,
    s: Shape,
    base: nat,
    row: Row,
    cur: Cur,
    book: Seq<Seq<u64>>,
    heap: spec_fn(nat, u64) -> Val,
    n: nat,
)
    requires
        s.well_formed(),
        fits(s),
        s.kids.len() == 2,
        base + 1 + width_of(s.kids[0]) + width_of(s.kids[1]) <= row.cols.len(),
        n <= v.kids.len(),
        put_entries(v, s, base, row, n) is Ok,
        forall|j: int|
            0 <= j < v.kids.len() ==> {
                &&& (#[trigger] v.kids[j]).kids.len() == 2
                &&& readable(v.kids[j].kids[0], s.kids[0])
                &&& readable(v.kids[j].kids[1], s.kids[1])
                &&& consistent(v.kids[j].kids[0], s.kids[0], base + 1, book, heap)
                &&& consistent(
                    v.kids[j].kids[1],
                    s.kids[1],
                    base + 1 + width_of(s.kids[0]),
                    book,
                    heap,
                )
            },
        tracks(cur, row, heap, base + 1, width_of(s.kids[0]) + width_of(s.kids[1])),
        holds(cur.bufs, book, put_entries(v, s, base, row, n)->Ok_0),
    ensures
        get_entries(s, base, cur, n) == Ok::<(Seq<Val>, Cur), Fault>(
            (
                entry_kids(v, s, base, book, n),
                moved(
                    cur,
                    put_entries(v, s, base, row, n)->Ok_0,
                    heap,
                    base + 1,
                    width_of(s.kids[0]) + width_of(s.kids[1]),
                ),
            ),
        ),
    decreases v, n, 0nat,
{
    let wk = width_of(s.kids[0]);
    let wv = width_of(s.kids[1]);
    let after = put_entries(v, s, base, row, n)->Ok_0;
    let goal = moved(cur, after, heap, base + 1, wk + wv);
    if n == 0 {
        assert(entry_kids(v, s, base, book, 0) =~= seq![]);
        assert(cur.pos =~= goal.pos);
        assert(cur.regs =~= goal.regs);
    } else {
        let i = (n - 1) as nat;
        let e = v.kids[i as int];
        let before = put_entries(v, s, base, row, i)->Ok_0;
        let mid = put(e.kids[0], s.kids[0], base + 1, before)->Ok_0;
        lemma_put_entries(v, s, base, row, i);
        lemma_put(e.kids[0], s.kids[0], base + 1, before);
        lemma_put(e.kids[1], s.kids[1], base + 1 + wk, mid);
        lemma_holds_before(cur.bufs, book, mid, after);
        lemma_holds_before(cur.bufs, book, before, mid);
        lemma_get_entries(v, s, base, row, cur, book, heap, i);
        let c1 = moved(cur, before, heap, base + 1, wk + wv);
        lemma_moved_tracks(cur, row, before, book, heap, base + 1, wk + wv);
        lemma_get_put(e.kids[0], s.kids[0], base + 1, before, c1, book, heap);
        let c2 = moved(c1, mid, heap, base + 1, wk);
        assert(tracks(c2, mid, heap, base + 1 + wk, wv)) by {
            assert forall|c: int|
                base + 1 + wk <= c < base + 1 + wk + wv && c
                    < mid.cols.len() implies (#[trigger] c2.regs[c]) == objects(mid, c, heap) by {
                lemma_objects_one(before, mid, c, heap);
                assert(c1.regs[c] == objects(before, c, heap));
            }
            assert forall|c: int|
                base + 1 + wk <= c < base + 1 + wk + wv && c
                    < mid.cols.len() implies (#[trigger] c2.pos[c]) == mid.cols[c].len() by {
                assert(mid.cols[c] == before.cols[c]);
                assert(c1.pos[c] == before.cols[c].len());
            }
        }
        lemma_get_put(e.kids[1], s.kids[1], base + 1 + wk, mid, c2, book, heap);
        let c3 = moved(c2, after, heap, base + 1 + wk, wv);
        assert forall|c: int| base + 1 <= c < base + 1 + wk implies objects(mid, c, heap)
            == #[trigger] objects(after, c, heap) && mid.cols[c] == after.cols[c] by {
            assert(after.book[c] == mid.book[c]);
            lemma_objects_one(mid, after, c, heap);
        }
        assert(c3.pos =~= goal.pos) by {
            assert forall|c: int| 0 <= c < cur.pos.len() implies c3.pos[c] == goal.pos[c] by {
                if base + 1 <= c < base + 1 + wk {
                    assert(objects(mid, c, heap) == objects(after, c, heap));
                }
            }
        }
        assert(c3.regs =~= goal.regs);
        assert(entry_kids(v, s, base, book, i).push(
            entry(
                keyed(e.kids[0], s.kids[0], base + 1, book),
                keyed(e.kids[1], s.kids[1], base + 1 + wk, book),
            ),
        ) =~= entry_kids(v, s, base, book, n));
    }
}

proof fn lemma_get_mapping(
    v: Val,
    s: Shape,
    base: nat,
    row: Row,
    cur: Cur,
    book: Seq<Seq<u64>>,
    heap: spec_fn(nat, u64) -> Val,
)
    requires
        s.well_formed(),
        fits(s),
        s.kind is Mapping,
        base + width_of(s) <= row.cols.len(),
        put(v, s, base, row) is Ok,
        readable(v, s),
        consistent(v, s, base, book, heap),
        tracks(cur, row, heap, base, width_of(s)),
        holds(cur.bufs, book, put(v, s, base, row)->Ok_0),
    ensures
        get(s, base, cur) == Ok::<(Val, Cur), Fault>(
            (
                keyed(v, s, base, book),
                moved(cur, put(v, s, base, row)->Ok_0, heap, base, width_of(s)),
            ),
        ),
    decreases v, v.kids.len() + 1, 0nat,
{
    lemma_two_kids_columns(s);
    let width = width_of(s.kids[0]) + width_of(s.kids[1]);
    let n = v.kids.len();
    let end = put(v, s, base, row)->Ok_0;
    let items = put_entries(v, s, base, row, n)->Ok_0;
    let code = varint::encoded(n);
    let goal = moved(cur, end, heap, base, width_of(s));
    lemma_put_entries(v, s, base, row, n);
    lemma_append(items, base, code, base, 1);
    lemma_holds_before(cur.bufs, book, items, end);
    lemma_count("map length"@, width, n, base, row, items, cur, book, heap, width);
    let next = cur.advance(base, code.len());
    lemma_get_entries(v, s, base, row, next, book, heap, n);
    let fin = moved(next, items, heap, base + 1, width);
    lemma_objects_all(items, end, heap);
    lemma_objects_one(row, items, base as int, heap);
    assert(items.cols[base as int] == row.cols[base as int]);
    assert(fin.pos =~= goal.pos);
    assert(fin.regs =~= goal.regs);
    assert(entry_kids(v, s, base, book, n) =~= keyed(v, s, base, book).kids);
}

} // verus!
