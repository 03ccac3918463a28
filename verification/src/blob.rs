//! The data blob: a header that gives the number of rows and the length of
//! each column, then the column bytes back to back.

use vstd::prelude::*;

use crate::columnar::{checked_count, left, ColumnCursor};
use crate::error::{Error, Fault, Result};
use crate::get::{checked, count_limit};
use crate::put::total;
use crate::varint::{self, decoded, encoded};

verus! {

/// The lengths of the first `n` columns, as the header gives them.
pub open spec fn lengths(cols: Seq<Seq<u8>>, n: nat) -> Seq<u8>
    decreases n,
{
    if n == 0 {
        seq![]
    } else {
        lengths(cols, (n - 1) as nat) + encoded(cols[n - 1].len())
    }
}

/// The bytes of the first `n` columns, back to back.
pub open spec fn joined(cols: Seq<Seq<u8>>, n: nat) -> Seq<u8>
    decreases n,
{
    if n == 0 {
        seq![]
    } else {
        joined(cols, (n - 1) as nat) + cols[n - 1]
    }
}

/// The blob that holds `rows` rows in these columns.
pub open spec fn blob(rows: nat, cols: Seq<Seq<u8>>) -> Seq<u8> {
    encoded(rows) + encoded(cols.len()) + lengths(cols, cols.len()) + joined(cols, cols.len())
}

/// The bytes from `at` on.
pub open spec fn from(bytes: Seq<u8>, at: nat) -> Seq<u8> {
    bytes.subrange(at as int, bytes.len() as int)
}

/// Reads `n` lengths from position `at` on.
pub open spec fn read_lengths(input: Seq<u8>, at: nat, n: nat) -> std::result::Result<
    (Seq<nat>, nat),
    Fault,
>
    decreases n,
{
    if n == 0 {
        Ok((seq![], at))
    } else {
        match read_lengths(input, at, (n - 1) as nat) {
            Ok((list, next)) => match decoded(from(input, next)) {
                Ok((value, used)) => if value > usize::MAX {
                    Err(Fault::Malformed("length overflows usize"@))
                } else {
                    Ok((list.push(value), next + used))
                },
                Err(fault) => Err(fault),
            },
            Err(fault) => Err(fault),
        }
    }
}

/// Cuts the first `n` columns out of the bytes from position `at` on.
pub open spec fn cut(input: Seq<u8>, at: nat, list: Seq<nat>, n: nat) -> std::result::Result<
    (Seq<Seq<u8>>, nat),
    Fault,
>
    decreases n,
{
    if n == 0 {
        Ok((seq![], at))
    } else {
        match cut(input, at, list, (n - 1) as nat) {
            Ok((cols, next)) => if list[n - 1] > from(input, next).len() {
                Err(Fault::UnexpectedEof)
            } else {
                Ok((cols.push(from(input, next).subrange(0, list[n - 1] as int)), next + list[n - 1]))
            },
            Err(fault) => Err(fault),
        }
    }
}

/// The rows and columns of a blob written with a schema of `columns` columns.
///
/// A row occupying at least one column writes at least one byte, so the column
/// bytes bound how many rows the header can legitimately claim.
pub open spec fn opened(input: Seq<u8>, columns: nat) -> std::result::Result<
    (nat, Seq<Seq<u8>>),
    Fault,
> {
    match decoded(input) {
        Ok((rows, used)) => match decoded(from(input, used)) {
            Ok((count, more)) => if count != columns {
                Err(Fault::Malformed("column count does not match schema"@))
            } else {
                opened_columns(input, used + more, rows, columns)
            },
            Err(fault) => Err(fault),
        },
        Err(fault) => Err(fault),
    }
}

/// The rest of a blob, after the two counts.
pub open spec fn opened_columns(input: Seq<u8>, at: nat, rows: nat, columns: nat) -> std::result::Result<
    (nat, Seq<Seq<u8>>),
    Fault,
> {
    match read_lengths(input, at, columns) {
        Ok((list, next)) => match cut(input, next, list, columns) {
            Ok((cols, end)) => if end != input.len() {
                Err(Fault::TrailingBytes)
            } else {
                match checked("row count"@, columns, rows, total(cols, columns)) {
                    Ok(_) => Ok((rows, cols)),
                    Err(fault) => Err(fault),
                }
            },
            Err(fault) => Err(fault),
        },
        Err(fault) => Err(fault),
    }
}

proof fn lemma_read_lengths(input: Seq<u8>, at: nat, cols: Seq<Seq<u8>>, rest: Seq<u8>, n: nat)
    requires
        n <= cols.len(),
        forall|c: int| 0 <= c < cols.len() ==> (#[trigger] cols[c]).len() <= usize::MAX,
        at <= input.len(),
        from(input, at) == lengths(cols, cols.len()) + rest,
    ensures
        read_lengths(input, at, n) == Ok::<(Seq<nat>, nat), Fault>(
            (Seq::new(n, |c: int| cols[c].len()), at + lengths(cols, n).len()),
        ),
        lengths(cols, n).len() <= lengths(cols, cols.len()).len(),
        exists|tail: Seq<u8>| #[trigger]
            (lengths(cols, n) + tail) == lengths(cols, cols.len()),
    decreases n,
{
    lemma_lengths_prefix(cols, n, cols.len());
    if n > 0 {
        let m = (n - 1) as nat;
        lemma_read_lengths(input, at, cols, rest, m);
        lemma_lengths_prefix(cols, n, cols.len());
        let tail = choose|tail: Seq<u8>| #[trigger]
            (lengths(cols, n) + tail) == lengths(cols, cols.len());
        let next = at + lengths(cols, m).len();
        let code = encoded(cols[m as int].len());
        assert(from(input, next) =~= code + (tail + rest)) by {
            let whole = lengths(cols, m) + code + tail + rest;
            assert(from(input, at) =~= whole);
            assert(from(input, next) =~= from(input, at).subrange(
                lengths(cols, m).len() as int,
                from(input, at).len() as int,
            ));
            assert(whole.subrange(lengths(cols, m).len() as int, whole.len() as int) =~= code + (
            tail + rest));
        }
        varint::lemma_decode_encode(cols[m as int].len() as u64, tail + rest);
        assert(Seq::new(m, |c: int| cols[c].len()).push(cols[m as int].len()) =~= Seq::new(
            n,
            |c: int| cols[c].len(),
        ));
    } else {
        assert(Seq::new(0, |c: int| cols[c].len()) =~= seq![]);
    }
}

proof fn lemma_lengths_prefix(cols: Seq<Seq<u8>>, i: nat, n: nat)
    requires
        i <= n,
    ensures
        lengths(cols, i).len() <= lengths(cols, n).len(),
        exists|tail: Seq<u8>| #[trigger] (lengths(cols, i) + tail) == lengths(cols, n),
    decreases n,
{
    if i < n {
        lemma_lengths_prefix(cols, i, (n - 1) as nat);
        let tail = choose|tail: Seq<u8>| #[trigger]
            (lengths(cols, i) + tail) == lengths(cols, (n - 1) as nat);
        let longer = tail + encoded(cols[n - 1].len());
        assert(lengths(cols, i) + longer =~= lengths(cols, n));
    } else {
        assert(lengths(cols, i) + Seq::<u8>::empty() =~= lengths(cols, n));
    }
}

proof fn lemma_joined_prefix(cols: Seq<Seq<u8>>, i: nat, n: nat)
    requires
        i <= n,
    ensures
        joined(cols, i).len() <= joined(cols, n).len(),
        exists|tail: Seq<u8>| #[trigger] (joined(cols, i) + tail) == joined(cols, n),
    decreases n,
{
    if i < n {
        lemma_joined_prefix(cols, i, (n - 1) as nat);
        let tail = choose|tail: Seq<u8>| #[trigger]
            (joined(cols, i) + tail) == joined(cols, (n - 1) as nat);
        let longer = tail + cols[n - 1];
        assert(joined(cols, i) + longer =~= joined(cols, n));
    } else {
        assert(joined(cols, i) + Seq::<u8>::empty() =~= joined(cols, n));
    }
}

proof fn lemma_cut(input: Seq<u8>, at: nat, cols: Seq<Seq<u8>>, n: nat)
    requires
        n <= cols.len(),
        at <= input.len(),
        from(input, at) == joined(cols, cols.len()),
    ensures
        cut(input, at, Seq::new(cols.len(), |c: int| cols[c].len()), n) == Ok::<
            (Seq<Seq<u8>>, nat),
            Fault,
        >((cols.subrange(0, n as int), at + joined(cols, n).len())),
    decreases n,
{
    let list = Seq::new(cols.len(), |c: int| cols[c].len());
    if n > 0 {
        let m = (n - 1) as nat;
        lemma_cut(input, at, cols, m);
        lemma_joined_prefix(cols, n, cols.len());
        let tail = choose|tail: Seq<u8>| #[trigger]
            (joined(cols, n) + tail) == joined(cols, cols.len());
        let next = at + joined(cols, m).len();
        let whole = joined(cols, m) + cols[m as int] + tail;
        assert(from(input, at) =~= whole);
        assert(from(input, next) =~= cols[m as int] + tail) by {
            assert(from(input, next) =~= from(input, at).subrange(
                joined(cols, m).len() as int,
                from(input, at).len() as int,
            ));
            assert(whole.subrange(joined(cols, m).len() as int, whole.len() as int)
                =~= cols[m as int] + tail);
        }
        assert(from(input, next).subrange(0, list[m as int] as int) =~= cols[m as int]);
        assert(cols.subrange(0, m as int).push(cols[m as int]) =~= cols.subrange(0, n as int));
    } else {
        assert(cols.subrange(0, 0) =~= seq![]);
    }
}

/// Opening a blob gives back the rows and columns that it was made of.
pub proof fn lemma_open_blob(rows: u64, cols: Seq<Seq<u8>>)
    requires
        cols.len() <= u64::MAX,
        forall|c: int| 0 <= c < cols.len() ==> (#[trigger] cols[c]).len() <= usize::MAX,
        rows <= count_limit(cols.len(), total(cols, cols.len())),
        rows <= usize::MAX,
    ensures
        opened(blob(rows as nat, cols), cols.len()) == Ok::<(nat, Seq<Seq<u8>>), Fault>(
            (rows as nat, cols),
        ),
{
    let n = cols.len();
    let input = blob(rows as nat, cols);
    let first = encoded(rows as nat);
    let second = encoded(n);
    let third = lengths(cols, n);
    let fourth = joined(cols, n);
    assert(input =~= first + (second + third + fourth));
    varint::lemma_decode_encode(rows, second + third + fourth);
    assert(from(input, first.len()) =~= second + (third + fourth));
    varint::lemma_decode_encode(n as u64, third + fourth);
    let at = first.len() + second.len();
    assert(from(input, at) =~= third + fourth);
    lemma_read_lengths(input, at, cols, fourth, n);
    let next = at + third.len();
    assert(from(input, next) =~= fourth);
    lemma_cut(input, next, cols, n);
    assert(cols.subrange(0, n as int) =~= cols);
}

proof fn lemma_lengths_read(input: Seq<u8>, at: nat, n: nat)
    requires
        at <= input.len(),
        read_lengths(input, at, n) is Ok,
    ensures
        ({
            let (list, next) = read_lengths(input, at, n)->Ok_0;
            &&& list.len() == n
            &&& at <= next <= input.len()
            &&& forall|cols: Seq<Seq<u8>>|
                #![trigger lengths(cols, n)]
                (forall|c: int| 0 <= c < n ==> (#[trigger] cols[c]).len() == list[c])
                    ==> input.subrange(at as int, next as int) == lengths(cols, n)
        }),
    decreases n,
{
    let (list, next) = read_lengths(input, at, n)->Ok_0;
    if n > 0 {
        let m = (n - 1) as nat;
        lemma_lengths_read(input, at, m);
        let (before, mid) = read_lengths(input, at, m)->Ok_0;
        varint::lemma_encode_decode(from(input, mid));
        assert forall|cols: Seq<Seq<u8>>|
            #![trigger lengths(cols, n)]
            (forall|c: int| 0 <= c < n ==> (#[trigger] cols[c]).len() == list[c]) implies input.subrange(
            at as int,
            next as int,
        ) == lengths(cols, n) by {
            assert forall|c: int| 0 <= c < m implies (#[trigger] cols[c]).len() == before[c] by {
                assert(list[c] == before[c]);
            }
            assert(input.subrange(at as int, mid as int) == lengths(cols, m));
            assert(cols[m as int].len() == list[m as int]);
            assert(input.subrange(at as int, next as int) =~= input.subrange(at as int, mid as int)
                + from(input, mid).subrange(0, next - mid));
        }
    } else {
        assert(input.subrange(at as int, at as int) =~= seq![]);
    }
}

proof fn lemma_cut_joined(input: Seq<u8>, at: nat, list: Seq<nat>, n: nat)
    requires
        at <= input.len(),
        n <= list.len(),
        cut(input, at, list, n) is Ok,
    ensures
        ({
            let (cols, end) = cut(input, at, list, n)->Ok_0;
            &&& cols.len() == n
            &&& at <= end <= input.len()
            &&& forall|c: int| 0 <= c < n ==> (#[trigger] cols[c]).len() == list[c]
            &&& input.subrange(at as int, end as int) == joined(cols, n)
            &&& total(cols, n) == end - at
        }),
    decreases n,
{
    let (cols, end) = cut(input, at, list, n)->Ok_0;
    if n > 0 {
        let m = (n - 1) as nat;
        lemma_cut_joined(input, at, list, m);
        let (before, mid) = cut(input, at, list, m)->Ok_0;
        lemma_joined_same(cols, before, m);
        assert(input.subrange(at as int, end as int) =~= input.subrange(at as int, mid as int)
            + from(input, mid).subrange(0, list[m as int] as int));
    } else {
        assert(input.subrange(at as int, at as int) =~= seq![]);
    }
}

proof fn lemma_joined_same(a: Seq<Seq<u8>>, b: Seq<Seq<u8>>, n: nat)
    requires
        forall|c: int| 0 <= c < n ==> #[trigger] a[c] == b[c],
    ensures
        joined(a, n) == joined(b, n),
        total(a, n) == total(b, n),
    decreases n,
{
    if n > 0 {
        lemma_joined_same(a, b, (n - 1) as nat);
        assert(a[n - 1] == b[n - 1]);
    }
}

/// Blobs are canonical: bytes that open as rows and columns are the blob of
/// those rows and columns.
pub proof fn lemma_blob_opened(input: Seq<u8>, columns: nat)
    requires
        opened(input, columns) is Ok,
    ensures
        opened(input, columns)->Ok_0.1.len() == columns,
        input == blob(opened(input, columns)->Ok_0.0, opened(input, columns)->Ok_0.1),
        opened(input, columns)->Ok_0.0 <= u64::MAX,
        total(opened(input, columns)->Ok_0.1, columns) <= input.len(),
{
    let (rows, cols) = opened(input, columns)->Ok_0;
    varint::lemma_encode_decode(input);
    let used = decoded(input)->Ok_0.1;
    varint::lemma_encode_decode(from(input, used));
    let more = decoded(from(input, used))->Ok_0.1;
    let at = used + more;
    lemma_lengths_read(input, at, columns);
    let (list, next) = read_lengths(input, at, columns)->Ok_0;
    lemma_cut_joined(input, next, list, columns);
    assert(input.subrange(at as int, next as int) == lengths(cols, columns));
    assert(input =~= input.subrange(0, used as int) + from(input, used).subrange(0, more as int)
        + input.subrange(at as int, next as int) + input.subrange(next as int, input.len() as int));
}

/// The bytes of a list of columns.
pub open spec fn bytes_of(columns: Seq<Vec<u8>>) -> Seq<Seq<u8>> {
    Seq::new(columns.len(), |c: int| columns[c]@)
}

/// Assembles a blob: row count, column count, column byte lengths, then the
/// column bytes back to back, after what `out` holds.
pub fn assemble(rows: u64, columns: &Vec<Vec<u8>>, out: &mut Vec<u8>)
    ensures
        final(out)@ == old(out)@ + blob(rows as nat, bytes_of(columns@)),
{
    let ghost before = out@;
    let ghost cols = bytes_of(columns@);
    varint::write(out, rows);
    varint::write(out, columns.len() as u64);
    let ghost counts = out@;
    let mut i: usize = 0;
    assert(counts + lengths(cols, 0) =~= counts);
    while i < columns.len()
        invariant
            i <= columns@.len(),
            cols == bytes_of(columns@),
            out@ == counts + lengths(cols, i as nat),
        decreases columns@.len() - i,
    {
        varint::write(out, columns[i].len() as u64);
        assert(out@ =~= counts + lengths(cols, (i + 1) as nat));
        i += 1;
    }
    let ghost header = out@;
    i = 0;
    assert(header + joined(cols, 0) =~= header);
    while i < columns.len()
        invariant
            i <= columns@.len(),
            cols == bytes_of(columns@),
            out@ == header + joined(cols, i as nat),
        decreases columns@.len() - i,
    {
        out.extend_from_slice(columns[i].as_slice());
        assert(out@ =~= header + joined(cols, (i + 1) as nat));
        i += 1;
    }
    assert(out@ =~= before + blob(rows as nat, cols));
}

/// The columns that fresh cursors stand at the start of.
pub open spec fn fresh_columns(cursors: Seq<ColumnCursor<'_>>) -> Seq<Seq<u8>> {
    Seq::new(cursors.len(), |c: int| cursors[c].data())
}

proof fn lemma_fresh_left(cursors: Seq<ColumnCursor<'_>>, n: nat)
    requires
        n <= cursors.len(),
        forall|c: int| 0 <= c < cursors.len() ==> (#[trigger] cursors[c]).at() == 0,
    ensures
        left(cursors, n) == total(fresh_columns(cursors), n),
    decreases n,
{
    if n > 0 {
        lemma_fresh_left(cursors, (n - 1) as nat);
        assert(cursors[n - 1].rest() =~= cursors[n - 1].data());
    }
}

proof fn lemma_lengths_fault(input: Seq<u8>, at: nat, i: nat, n: nat)
    requires
        i <= n,
        read_lengths(input, at, i) is Err,
    ensures
        read_lengths(input, at, n) == read_lengths(input, at, i),
    decreases n,
{
    if i < n {
        lemma_lengths_fault(input, at, i, (n - 1) as nat);
    }
}

proof fn lemma_cut_fault(input: Seq<u8>, at: nat, list: Seq<nat>, i: nat, n: nat)
    requires
        i <= n,
        cut(input, at, list, i) is Err,
    ensures
        cut(input, at, list, n) == cut(input, at, list, i),
    decreases n,
{
    if i < n {
        lemma_cut_fault(input, at, list, i, (n - 1) as nat);
    }
}

/// Reads the lengths of `columns` columns.
fn open_lengths(header: &mut ColumnCursor<'_>, columns: usize) -> (result: Result<Vec<usize>>)
    requires
        old(header).well_formed(),
    ensures
        final(header).well_formed(),
        final(header).data() == old(header).data(),
        match result {
            Ok(list) => read_lengths(old(header).data(), old(header).at(), columns as nat) == Ok::<
                (Seq<nat>, nat),
                Fault,
            >((list@.map_values(|len: usize| len as nat), final(header).at())),
            Err(error) => read_lengths(old(header).data(), old(header).at(), columns as nat)
                == Err::<(Seq<nat>, nat), Fault>(error@),
        },
{
    let ghost input = header.data();
    let ghost at = header.at();
    let mut list: Vec<usize> = Vec::new();
    let mut i: usize = 0;
    assert(list@.map_values(|len: usize| len as nat) =~= seq![]);
    while i < columns
        invariant
            i <= columns,
            input == old(header).data(),
            at == old(header).at(),
            header.well_formed(),
            header.data() == input,
            read_lengths(input, at, i as nat) == Ok::<(Seq<nat>, nat), Fault>(
                (list@.map_values(|len: usize| len as nat), header.at()),
            ),
        decreases columns - i,
    {
        assert(header.rest() =~= from(input, header.at()));
        match header.varint_len() {
            Ok(len) => {
                let ghost before = list@;
                list.push(len);
                assert(list@.map_values(|len: usize| len as nat) =~= before.map_values(
                    |len: usize| len as nat,
                ).push(len as nat));
            },
            Err(error) => {
                proof {
                    assert(read_lengths(input, at, (i + 1) as nat) is Err);
                    lemma_lengths_fault(input, at, (i + 1) as nat, columns as nat);
                }
                return Err(error);
            },
        }
        i += 1;
    }
    Ok(list)
}

/// Slices one cursor per column.
fn open_cursors<'de>(header: &mut ColumnCursor<'de>, list: &Vec<usize>) -> (result: Result<
    Vec<ColumnCursor<'de>>,
>)
    requires
        old(header).well_formed(),
    ensures
        final(header).well_formed(),
        final(header).data() == old(header).data(),
        ({
            let wanted = cut(
                old(header).data(),
                old(header).at(),
                list@.map_values(|len: usize| len as nat),
                list@.len(),
            );
            match result {
                Ok(cursors) => {
                    &&& wanted == Ok::<(Seq<Seq<u8>>, nat), Fault>(
                        (fresh_columns(cursors@), final(header).at()),
                    )
                    &&& cursors@.len() == list@.len()
                    &&& forall|c: int|
                        0 <= c < cursors@.len() ==> (#[trigger] cursors@[c]).well_formed()
                            && cursors@[c].at() == 0
                },
                Err(error) => wanted == Err::<(Seq<Seq<u8>>, nat), Fault>(error@),
            }
        }),
{
    let ghost input = header.data();
    let ghost at = header.at();
    let ghost lens = list@.map_values(|len: usize| len as nat);
    let mut cursors: Vec<ColumnCursor<'de>> = Vec::new();
    let mut i: usize = 0;
    assert(fresh_columns(cursors@) =~= seq![]);
    while i < list.len()
        invariant
            i <= list@.len(),
            input == old(header).data(),
            at == old(header).at(),
            lens == list@.map_values(|len: usize| len as nat),
            header.well_formed(),
            header.data() == input,
            cursors@.len() == i,
            forall|c: int|
                0 <= c < cursors@.len() ==> (#[trigger] cursors@[c]).well_formed()
                    && cursors@[c].at() == 0,
            cut(input, at, lens, i as nat) == Ok::<(Seq<Seq<u8>>, nat), Fault>(
                (fresh_columns(cursors@), header.at()),
            ),
        decreases list@.len() - i,
    {
        assert(header.rest() =~= from(input, header.at()));
        match header.take(list[i]) {
            Ok(bytes) => {
                let ghost before = cursors@;
                cursors.push(ColumnCursor::new(bytes));
                assert(fresh_columns(cursors@) =~= fresh_columns(before).push(bytes@));
            },
            Err(error) => {
                proof {
                    assert(cut(input, at, lens, (i + 1) as nat) is Err);
                    lemma_cut_fault(input, at, lens, (i + 1) as nat, list@.len());
                }
                return Err(error);
            },
        }
        i += 1;
    }
    Ok(cursors)
}

/// Parses the blob header and slices one cursor per column.
pub fn open<'de>(input: &'de [u8], columns: usize) -> (result: Result<
    (u64, Vec<ColumnCursor<'de>>),
>)
    ensures
        match result {
            Ok((rows, cursors)) => {
                &&& opened(input@, columns as nat) == Ok::<(nat, Seq<Seq<u8>>), Fault>(
                    (rows as nat, fresh_columns(cursors@)),
                )
                &&& cursors@.len() == columns
                &&& forall|c: int|
                    0 <= c < cursors@.len() ==> (#[trigger] cursors@[c]).well_formed()
                        && cursors@[c].at() == 0
            },
            Err(error) => opened(input@, columns as nat) == Err::<(nat, Seq<Seq<u8>>), Fault>(
                error@,
            ),
        },
{
    let mut header = ColumnCursor::new(input);
    assert(header.rest() =~= input@);
    let rows = match header.varint() {
        Ok(rows) => rows,
        Err(error) => return Err(error),
    };
    assert(header.rest() =~= from(input@, header.at()));
    let count = match header.varint() {
        Ok(count) => count,
        Err(error) => return Err(error),
    };
    if count != columns as u64 {
        return Err(Error::Malformed("column count does not match schema"));
    }
    let ghost at = header.at();
    let list = match open_lengths(&mut header, columns) {
        Ok(list) => list,
        Err(error) => return Err(error),
    };
    let ghost next = header.at();
    proof {
        lemma_lengths_read(input@, at, columns as nat);
    }
    let cursors = match open_cursors(&mut header, &list) {
        Ok(cursors) => cursors,
        Err(error) => return Err(error),
    };
    if !header.at_end() {
        return Err(Error::TrailingBytes);
    }
    proof {
        let lens = list@.map_values(|len: usize| len as nat);
        lemma_cut_joined(input@, next, lens, columns as nat);
        lemma_fresh_left(cursors@, columns as nat);
    }
    match checked_count("row count", columns, rows, cursors.as_slice()) {
        Ok(_) => Ok((rows, cursors)),
        Err(error) => Err(error),
    }
}

} // verus!
