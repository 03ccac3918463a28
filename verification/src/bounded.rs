//! What input can ask for: never more values than it has bytes for, and where a
//! value takes none, never more than a fixed number.

use vstd::prelude::*;

use crate::blob::{opened, opened_columns};
use crate::error::Fault;
use crate::get::{count, get, get_entries, get_items, Cur, MAX_ZERO_COLUMN_REPEAT};
use crate::put::total;
use crate::shape::{width_of, Kind, Shape};
use crate::varint;

verus! {

proof fn lemma_left_shrinks(cur: Cur, col: nat, n: nat)
    requires
        cur.well_formed(),
        col < cur.bufs.len(),
        n <= cur.bufs.len(),
        cur.varint(col) is Ok,
    ensures
        ({
            let next = cur.varint(col)->Ok_0.1;
            &&& next.left(n) <= cur.left(n)
            &&& col < n ==> next.left(n) < cur.left(n)
        }),
    decreases n,
{
    varint::lemma_encode_decode(cur.rest(col));
    if n > 0 {
        lemma_left_shrinks(cur, col, (n - 1) as nat);
    }
}

proof fn lemma_items_len(s: Shape, base: nat, cur: Cur, n: nat)
    requires
        s.kids.len() == 1,
        get_items(s, base, cur, n) is Ok,
    ensures
        get_items(s, base, cur, n)->Ok_0.0.len() == n,
    decreases n,
{
    if n > 0 {
        lemma_items_len(s, base, cur, (n - 1) as nat);
    }
}

proof fn lemma_entries_len(s: Shape, base: nat, cur: Cur, n: nat)
    requires
        s.kids.len() == 2,
        get_entries(s, base, cur, n) is Ok,
    ensures
        get_entries(s, base, cur, n)->Ok_0.0.len() == n,
    decreases n,
{
    if n > 0 {
        lemma_entries_len(s, base, cur, (n - 1) as nat);
    }
}

/// The columns that one item of a list takes.
pub open spec fn item_columns(s: Shape) -> nat {
    match s.kind {
        Kind::Sequence => width_of(s.kids[0]),
        Kind::Mapping => width_of(s.kids[0]) + width_of(s.kids[1]),
        _ => 0,
    }
}

/// A list that is read has fewer items than there were bytes left, or, where its
/// items take no bytes, no more than the fixed number.
pub proof fn lemma_list_bounded(s: Shape, base: nat, cur: Cur)
    requires
        s.kind is Sequence || s.kind is Mapping,
        s.well_formed(),
        cur.well_formed(),
        base < cur.bufs.len(),
        get(s, base, cur) is Ok,
    ensures
        item_columns(s) > 0 ==> get(s, base, cur)->Ok_0.0.kids.len() < cur.left(cur.bufs.len()),
        item_columns(s) == 0 ==> get(s, base, cur)->Ok_0.0.kids.len() <= MAX_ZERO_COLUMN_REPEAT,
        cur.varint(base) matches Ok((n, _)) && get(s, base, cur)->Ok_0.0.kids.len() == n,
{
    lemma_left_shrinks(cur, base, cur.bufs.len());
    if s.kind is Sequence {
        let (n, next) = count("sequence length"@, width_of(s.kids[0]), base, cur)->Ok_0;
        lemma_items_len(s, base, next, n);
    } else {
        let (n, next) = count(
            "map length"@,
            width_of(s.kids[0]) + width_of(s.kids[1]),
            base,
            cur,
        )->Ok_0;
        lemma_entries_len(s, base, next, n);
    }
}

/// A list that claims more items than that is refused before any is read, with
/// what it claimed and what it could have claimed.
pub proof fn lemma_list_refused(s: Shape, base: nat, cur: Cur)
    requires
        s.kind is Sequence || s.kind is Mapping,
        s.well_formed(),
        cur.varint(base) is Ok,
        ({
            let (n, next) = cur.varint(base)->Ok_0;
            ||| item_columns(s) > 0 && n > next.left(next.bufs.len())
            ||| item_columns(s) == 0 && n > MAX_ZERO_COLUMN_REPEAT
        }),
    ensures
        get(s, base, cur) matches Err(Fault::LimitExceeded(_, claimed, limit)) && {
            let (n, next) = cur.varint(base)->Ok_0;
            &&& claimed == n as u64
            &&& limit == if item_columns(s) > 0 {
                next.left(next.bufs.len()) as u64
            } else {
                MAX_ZERO_COLUMN_REPEAT
            }
        },
{
}

/// A blob that opens has no more rows than it has column bytes, or, where a row
/// takes no bytes, no more than the fixed number.
pub proof fn lemma_rows_bounded(input: Seq<u8>, columns: nat)
    requires
        opened(input, columns) is Ok,
    ensures
        columns > 0 ==> opened(input, columns)->Ok_0.0 <= total(
            opened(input, columns)->Ok_0.1,
            columns,
        ),
        columns == 0 ==> opened(input, columns)->Ok_0.0 <= MAX_ZERO_COLUMN_REPEAT,
        varint::decoded(input) matches Ok((rows, _)) && opened(input, columns)->Ok_0.0 == rows,
{
    let (rows, used) = varint::decoded(input)->Ok_0;
    let (_, more) = varint::decoded(crate::blob::from(input, used))->Ok_0;
    assert(opened(input, columns) == opened_columns(input, used + more, rows, columns));
}

} // verus!
