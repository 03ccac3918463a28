//! Lists of entries: what maps are written as and read from.

use vstd::prelude::*;

use crate::columnar::{checked_count, write_varint, ColumnCursor};
use crate::de::{readable_state, still_readable};
use crate::error::{Fault, Result};
use crate::get::{checked, get, get_entries, get_fields, Cur};
use crate::put::{prefix, put, put_entries, Row};
use crate::roundtrip::readable;
use crate::shape::{kid_base, lemma_two_kids_columns, width_of, Shape};
use crate::static_schema::StaticSchema;
use crate::typed_de::{
    lemma_images_grow, lemma_left_grows, lemma_left_part, lemma_list_back, lemma_part,
    lemma_stands_left, lemma_stands_part, lemma_whole, moved_only, nothing, passed, read_list,
    rejoin, slice_cur, stands, take_list, window, DeserializeColumns, RoundTrip,
};
use crate::typed_ser::{
    all_write, appended, first_refusal, item_images, item_vals, kept, lemma_item_images_len,
    lemma_stamp_before, lemma_stamp_blank, lemma_stamp_layer, lemma_stamp_twice, lemma_width_2,
    refused, stamped, write_items, Modeled, SerializeColumns, Walk,
};
use crate::typed_std::list_image;
use crate::value::{entry, Head, Val};
use crate::varint;

verus! {

/// The trees of a list of entries.
pub open spec fn entry_vals_of<K: Modeled, V: Modeled>(entries: Seq<(K, V)>, w: Walk) -> Seq<Val> {
    Seq::new(
        entries.len(),
        |i: int|
            entry(entries[i].0.val(w.part(i).part(0)), entries[i].1.val(w.part(i).part(1))),
    )
}

/// An entry is what is read from a tree.
pub open spec fn entry_stands<K: Modeled, V: Modeled>(e: (K, V), v: Val) -> bool {
    &&& v.head is Entry
    &&& v.kids.len() == 2
    &&& e.0.stands_for(v.kids[0])
    &&& e.1.stands_for(v.kids[1])
}

/// Each entry is what is read from the tree in its place.
pub open spec fn entries_stand<K: Modeled, V: Modeled>(
    entries: Seq<(K, V)>,
    kids: Seq<Val>,
) -> bool {
    &&& entries.len() == kids.len()
    &&& forall|i: int| 0 <= i < entries.len() ==> entry_stands(#[trigger] entries[i], kids[i])
}

proof fn lemma_entry_images<K: SerializeColumns, V: SerializeColumns>(
    entries: Seq<(K, V)>,
    w: Walk,
    v: Val,
    s: Shape,
    base: nat,
    row: Row,
    n: nat,
)
    requires
        all_write(entries),
        v.kids == entry_vals_of(entries, w),
        s.kids == seq![K::node(), V::node()],
        n <= entries.len(),
        row.well_formed(),
        base + 1 + width_of(K::node()) + width_of(V::node()) <= row.cols.len(),
    ensures
        item_images(entries, w, n).len() == width_of(K::node()) + width_of(V::node()),
        put_entries(v, s, base, row, n) == Ok::<Row, Fault>(
            stamped(row, base + 1, item_images(entries, w, n)),
        ),
    decreases n,
{
    lemma_width_2::<K, V>();
    lemma_item_images_len(entries, w, n);
    if n == 0 {
        lemma_stamp_blank(row, base + 1, width_of(<(K, V)>::node()));
    } else {
        let m = (n - 1) as nat;
        lemma_entry_images(entries, w, v, s, base, row, m);
        let mid = stamped(row, base + 1, item_images(entries, w, m));
        let (x, y) = entries[m as int];
        let u = w.part(m as int);
        assert(entries[m as int].writes());
        x.lemma_image(u.part(0), base + 1, mid);
        let keyed = stamped(mid, base + 1, x.image(u.part(0)));
        y.lemma_image(u.part(1), base + 1 + width_of(K::node()), keyed);
        lemma_stamp_twice(mid, base + 1, x.image(u.part(0)), y.image(u.part(1)));
        lemma_stamp_layer(row, base + 1, item_images(entries, w, m), entries[m as int].image(u));
        assert(v.kids[m as int].kids == seq![x.val(u.part(0)), y.val(u.part(1))]);
    }
}

/// A map is written by its length and its entries.
pub proof fn lemma_entries_image<K: SerializeColumns, V: SerializeColumns>(
    entries: Seq<(K, V)>,
    w: Walk,
    v: Val,
    s: Shape,
    base: nat,
    row: Row,
)
    requires
        all_write(entries),
        v == (Val { head: Head::Mapping, kids: entry_vals_of(entries, w) }),
        s.kind is Mapping,
        s.kids == seq![K::node(), V::node()],
        row.well_formed(),
        base + width_of(s) <= row.cols.len(),
    ensures
        list_image(entries, w).len() == width_of(s),
        put(v, s, base, row) == Ok::<Row, Fault>(stamped(row, base, list_image(entries, w))),
{
    lemma_two_kids_columns(s);
    lemma_entry_images(entries, w, v, s, base, row, entries.len());
    lemma_stamp_before(
        row,
        base,
        varint::encoded(entries.len()),
        item_images(entries, w, entries.len()),
    );
}

/// A list of references writes what a list of the entries writes.
proof fn lemma_deref_entries<K: SerializeColumns, V: SerializeColumns>(
    refs: Seq<(&K, &V)>,
    w: Walk,
    n: nat,
)
    requires
        n <= refs.len(),
    ensures
        item_images(refs, w, n) == item_images(refs.unref(), w, n),
    decreases n,
{
    lemma_width_2::<K, V>();
    lemma_width_2::<&K, &V>();
    if n > 0 {
        lemma_deref_entries(refs, w, (n - 1) as nat);
        assert(refs.unref()[n - 1] == (*refs[n - 1].0, *refs[n - 1].1));
    }
}

/// A list of references is refused as a list of the entries is.
proof fn lemma_deref_refusal<K: SerializeColumns, V: SerializeColumns>(refs: Seq<(&K, &V)>, i: nat)
    ensures
        first_refusal(refs, i) == first_refusal(refs.unref(), i),
    decreases refs.len() - i,
{
    if i < refs.len() {
        assert(refs.unref()[i as int] == (*refs[i as int].0, *refs[i as int].1));
        lemma_deref_refusal(refs, i + 1);
    }
}

/// Appends a list of references to entries.
pub(crate) fn write_entries<K: SerializeColumns, V: SerializeColumns>(
    refs: Vec<(&K, &V)>,
    columns: &mut [Vec<u8>],
) -> (result: Result<()>)
    requires
        old(columns)@.len() == 1 + width_of(K::node()) + width_of(V::node()),
    ensures
        kept(old(columns)@, final(columns)@),
        all_write(refs@.unref()) ==> result is Ok && exists|w: Walk|
            appended(old(columns)@, final(columns)@, #[trigger] list_image(refs@.unref(), w)),
        refused(first_refusal(refs@.unref(), 0), result),
{
    proof {
        lemma_deref_refusal(refs@, 0);
        let entries = refs@.unref();
        lemma_width_2::<&K, &V>();
        assert forall|w: Walk| #[trigger] item_images(refs@, w, refs@.len()) == item_images(
            entries,
            w,
            entries.len(),
        ) && item_images(refs@, w, refs@.len()).len() == width_of(<(&K, &V)>::node()) by {
            lemma_item_images_len(refs@, w, refs@.len());
            lemma_deref_entries(refs@, w, refs@.len());
        }
        if all_write(entries) {
            assert forall|i: int| 0 <= i < refs@.len() implies (#[trigger] refs@[i]).writes() by {
                assert(entries[i].writes());
            }
        }
    }
    write_varint(&mut columns[0], refs.len() as u64);
    let (head, rest) = columns.split_at_mut(1);
    let result = write_items(refs.as_slice(), rest);
    assert forall|w: Walk| #[trigger] item_images(refs@, w, refs@.len()) == list_image(
        refs@.unref(),
        w,
    ).skip(1) by {
        assert(list_image(refs@.unref(), w).skip(1) =~= item_images(refs@.unref(), w, refs@.len()));
    }
    result
}

/// Pairs, as entries.
pub open spec fn paired(kids: Seq<Val>) -> Seq<Val> {
    Seq::new(kids.len(), |i: int| entry(kids[i].kids[0], kids[i].kids[1]))
}

/// Reads `n` entries, one after another, from the columns of one.
pub open spec fn read_entries<'de, K: DeserializeColumns<'de>, V: DeserializeColumns<'de>>(
    cur: Cur,
    n: nat,
) -> std::result::Result<(Seq<Val>, Cur), Fault> {
    match read_list::<(K, V)>(cur, n) {
        Ok((kids, end)) => Ok((paired(kids), end)),
        Err(fault) => Err(fault),
    }
}

/// What is read from the columns of a map.
pub open spec fn read_mapping<'de, K: DeserializeColumns<'de>, V: DeserializeColumns<'de>>(
    cur: Cur,
) -> std::result::Result<(Val, Cur), Fault> {
    let width = width_of(K::node()) + width_of(V::node());
    match cur.varint(0) {
        Ok((claimed, next)) => {
            let elems = window(next, 1, width);
            match checked("map length"@, width, claimed, elems.left(width)) {
                Ok(n) => match read_entries::<K, V>(elems, n) {
                    Ok((kids, end)) => Ok(
                        (Val { head: Head::Mapping, kids }, rejoin(next, 1, end)),
                    ),
                    Err(fault) => Err(fault),
                },
                Err(fault) => Err(fault),
            }
        },
        Err(fault) => Err(fault),
    }
}

proof fn lemma_entries_read<'de, K: DeserializeColumns<'de>, V: DeserializeColumns<'de>>(
    s: Shape,
    base: nat,
    cur: Cur,
    n: nat,
)
    requires
        K::sound(),
        V::sound(),
        s.kids == seq![K::node(), V::node()],
        cur.sized(),
        base + 1 + width_of(<(K, V)>::node()) <= cur.bufs.len(),
        read_list::<(K, V)>(window(cur, base + 1, width_of(<(K, V)>::node())), n) is Ok,
    ensures
        ({
            let part = window(cur, base + 1, width_of(<(K, V)>::node()));
            let (items, next) = read_list::<(K, V)>(part, n)->Ok_0;
            &&& moved_only(part, next)
            &&& get_entries(s, base, cur, n) == Ok::<(Seq<Val>, Cur), Fault>(
                (paired(items), rejoin(cur, base + 1, next)),
            )
        }),
    decreases n,
{
    let t = <(K, V)>::node();
    let width = width_of(t);
    let part = window(cur, base + 1, width);
    let items = read_list::<(K, V)>(part, n)->Ok_0.0;
    if n == 0 {
        assert(rejoin(cur, base + 1, part).pos =~= cur.pos);
        assert(paired(items) =~= seq![]);
    } else {
        let m = (n - 1) as nat;
        lemma_entries_read::<K, V>(s, base, cur, m);
        let (before, mid) = read_list::<(K, V)>(part, m)->Ok_0;
        let whole = rejoin(cur, base + 1, mid);
        assert(window(whole, base + 1, width) == mid) by {
            assert(window(whole, base + 1, width).bufs =~= mid.bufs);
            assert(window(whole, base + 1, width).pos =~= mid.pos);
            assert(window(whole, base + 1, width).regs =~= mid.regs);
        }
        <(K, V)>::lemma_read(base + 1, whole);
        let (pair, end) = <(K, V)>::read(mid)->Ok_0;
        assert(rejoin(whole, base + 1, end).pos =~= rejoin(cur, base + 1, end).pos);
        lemma_pair_read(t, base + 1, whole);
        assert(paired(items) =~= paired(before).push(entry(pair.kids[0], pair.kids[1])));
    }
}

/// A pair is read as its two parts.
proof fn lemma_pair_read(t: Shape, base: nat, cur: Cur)
    requires
        t.kind is Tuple,
        t.kids.len() == 2,
        get(t, base, cur) is Ok,
    ensures
        ({
            let (pair, end) = get(t, base, cur)->Ok_0;
            let first = get(t.kids[0], base, cur)->Ok_0;
            let second = get(t.kids[1], base + width_of(t.kids[0]), first.1)->Ok_0;
            &&& get(t.kids[0], base, cur) is Ok
            &&& get(t.kids[1], base + width_of(t.kids[0]), first.1) is Ok
            &&& pair.kids == seq![first.0, second.0]
            &&& end == second.1
        }),
{
    lemma_two_kids_columns(t);
    assert(kid_base(t, base, 0) == base);
    assert(kid_base(t, base, 1) == base + width_of(t.kids[0]));
    assert(get_fields(t, base, cur, 0) == Ok::<(Seq<Val>, Cur), Fault>((seq![], cur)));
    assert(get_fields(t, base, cur, 2) is Ok);
    assert(get_fields(t, base, cur, 1) is Ok);
    let (pair, _) = get(t, base, cur)->Ok_0;
    let first = get(t.kids[0], base, cur)->Ok_0;
    let second = get(t.kids[1], base + width_of(t.kids[0]), first.1)->Ok_0;
    assert(get_fields(t, base, cur, 1) == Ok::<(Seq<Val>, Cur), Fault>(
        (Seq::<Val>::empty().push(first.0), first.1),
    ));
    assert(pair.kids == Seq::<Val>::empty().push(first.0).push(second.0));
    assert(pair.kids =~= seq![first.0, second.0]);
}

/// The entries that the fast path reads are those that the schema-driven path
/// reads, in the same order.
pub proof fn lemma_mapping_read<'de, K: DeserializeColumns<'de>, V: DeserializeColumns<'de>>(
    s: Shape,
    base: nat,
    cur: Cur,
)
    requires
        K::sound(),
        V::sound(),
        s.kind is Mapping,
        s.kids == seq![K::node(), V::node()],
        cur.sized(),
        base + width_of(s) <= cur.bufs.len(),
        read_mapping::<K, V>(window(cur, base, width_of(s))) is Ok,
    ensures
        ({
            let part = window(cur, base, width_of(s));
            let (v, next) = read_mapping::<K, V>(part)->Ok_0;
            &&& moved_only(part, next)
            &&& get(s, base, cur) == Ok::<(Val, Cur), Fault>((v, rejoin(cur, base, next)))
        }),
{
    lemma_two_kids_columns(s);
    lemma_width_2::<K, V>();
    let width = width_of(K::node()) + width_of(V::node());
    let part = window(cur, base, 1 + width);
    assert(part.rest(0) =~= cur.rest(base));
    let (claimed, used) = varint::decoded(part.rest(0))->Ok_0;
    let next = part.advance(0, used);
    let other = cur.advance(base, used);
    let elems = window(next, 1, width);
    assert(elems == window(other, base + 1, width)) by {
        assert(elems.bufs =~= window(other, base + 1, width).bufs);
        assert(elems.pos =~= window(other, base + 1, width).pos);
        assert(elems.regs =~= window(other, base + 1, width).regs);
    }
    lemma_left_part(other, base + 1, width, width);
    lemma_left_grows(other, base + 1 + width, other.bufs.len());
    lemma_entries_read::<K, V>(s, base, other, claimed);
    let end = read_list::<(K, V)>(elems, claimed)->Ok_0.1;
    assert(rejoin(other, base + 1, end).pos =~= rejoin(cur, base, rejoin(next, 1, end)).pos);
}

/// Reading entries where they were written gives them back.
pub proof fn lemma_mapping_back<'de, K: RoundTrip<'de>, V: RoundTrip<'de>>(
    entries: Seq<(K, V)>,
    w: Walk,
    v: Val,
    s: Shape,
    cur: Cur,
)
    requires
        K::sound(),
        V::sound(),
        all_write(entries),
        v == (Val { head: Head::Mapping, kids: entry_vals_of(entries, w) }),
        s.kind is Mapping,
        s.kids == seq![K::node(), V::node()],
        readable(v, s),
        stands(cur, list_image(entries, w)),
    ensures
        read_mapping::<K, V>(cur) == Ok::<(Val, Cur), Fault>(
            (v, passed(cur, list_image(entries, w))),
        ),
{
    lemma_width_2::<K, V>();
    let span = width_of(K::node()) + width_of(V::node());
    let n = entries.len();
    let image = list_image(entries, w);
    let code = varint::encoded(n);
    lemma_images_grow(entries, w, n, n);
    assert(prefix(image[0], cur.rest(0)));
    let tail = cur.rest(0).subrange(code.len() as int, cur.rest(0).len() as int);
    assert(cur.rest(0) =~= code + tail);
    varint::lemma_decode_encode(n as u64, tail);
    let next = cur.advance(0, code.len());
    let elems = window(next, 1, span);
    assert(image.subrange(1, (1 + span) as int) =~= item_images(entries, w, n));
    lemma_stands_part(cur, next, image, 1, span);
    assert forall|i: int| 0 <= i < n implies readable(
        (#[trigger] entries[i]).val(w.part(i)),
        <(K, V)>::node(),
    ) by {
        let pair = entries[i].val(w.part(i));
        assert(readable(v.kids[i].kids[0], s.kids[0]) && readable(v.kids[i].kids[1], s.kids[1]));
        assert(pair.kids[0] == v.kids[i].kids[0] && pair.kids[1] == v.kids[i].kids[1]);
    }
    lemma_list_back(entries, w, elems, n);
    assert(item_vals(entries, w).subrange(0, n as int) =~= item_vals(entries, w));
    assert(paired(item_vals(entries, w)) =~= entry_vals_of(entries, w));
    lemma_stands_left(elems, item_images(entries, w, n), span);
    assert(rejoin(next, 1, passed(elems, item_images(entries, w, n))).pos =~= passed(
        cur,
        image,
    ).pos);
}

/// Reads the entries of a map from its columns.
pub(crate) fn take_entries<'de, K: DeserializeColumns<'de>, V: DeserializeColumns<'de>>(
    cursors: &mut [ColumnCursor<'de>],
) -> (result: Result<Vec<(K, V)>>)
    requires
        old(cursors)@.len() == 1 + width_of(K::node()) + width_of(V::node()),
        readable_state(old(cursors)@, nothing(old(cursors)@.len())),
    ensures
        still_readable(old(cursors)@, final(cursors)@, nothing(old(cursors)@.len())),
        K::sound() && V::sound() ==> match result {
            Ok(entries) => read_mapping::<K, V>(slice_cur(old(cursors)@)) matches Ok((v, next))
                && v.head is Mapping && entries_stand(entries@, v.kids) && next == slice_cur(
                final(cursors)@,
            ),
            Err(error) => read_mapping::<K, V>(slice_cur(old(cursors)@)) == Err::<
                (Val, Cur),
                Fault,
            >(error@),
        },
{
    let ghost start = cursors@;
    let ghost width = width_of(K::node()) + width_of(V::node());
    assert(cursors@.len() == cursors.len());
    proof {
        lemma_width_2::<K, V>();
        lemma_part(start, 1, width);
        lemma_part(start, 0, 1);
        crate::de::lemma_rest(start, nothing(start.len()), 0);
    }
    let (head, rest) = cursors.split_at_mut(1);
    let claimed = head[0].varint();
    let ghost mid = head@ + rest@;
    proof {
        assert(mid =~= start.subrange(0, 0) + head@ + start.subrange(1, start.len() as int));
        assert(readable_state(head@, nothing(1))) by {
            assert(head@[0].data() == start.subrange(0, 1)[0].data());
            crate::de::lemma_same_data(start.subrange(0, 1), head@, 1);
        }
        lemma_whole(start, mid, 0, head@);
        if let Ok((_, used)) = varint::decoded(start[0].rest()) {
            assert(slice_cur(mid).pos =~= slice_cur(start).advance(0, used).pos);
            assert(slice_cur(mid) == slice_cur(start).advance(0, used));
        }
        lemma_part(mid, 1, width);
        assert(mid.subrange(1, (1 + width) as int) =~= rest@);
        crate::de::lemma_left_is(rest@, nothing(rest@.len()), rest@.len());
    }
    let claimed = match claimed {
        Ok(claimed) => claimed,
        Err(error) => return Err(error),
    };
    let n = match checked_count("map length", K::columns() + V::columns(), claimed, &*rest) {
        Ok(n) => n,
        Err(error) => return Err(error),
    };
    let result = take_list::<(K, V)>(n, rest);
    let ghost after = head@ + rest@;
    proof {
        assert(after =~= mid.subrange(0, 1) + rest@ + mid.subrange(
            mid.len() as int,
            mid.len() as int,
        ));
        lemma_whole(mid, after, 1, rest@);
    }
    result
}

} // verus!
