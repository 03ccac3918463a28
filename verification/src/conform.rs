//! Which values a schema takes: those that conform to it are written, and no
//! others.

use vstd::prelude::*;

use crate::batch::{new_row, no_rows};
use crate::blob::blob;
use crate::compat::distinct;
use crate::error::Fault;
use crate::put::{
    find_variant, put, put_all_named, put_entries, put_fields, put_items, put_named, Row,
};
use crate::roundtrip::{consistent, keyed, part_base, part_shape, readable};
use crate::rows::single;
use crate::shape::{kid_base, width_of, Kind, Shape};
use crate::trips::{lemma_single_round_trip, pushed, returnable, row_after};
use crate::value::{scalar_type, Head, Val};
use crate::varint;
use crate::wire::fits;

verus! {

/// The value has the form that the schema gives at every position. Variants are
/// known by their names alone, whatever number they carry.
pub open spec fn conforms(v: Val, s: Shape) -> bool
    decreases v, 1nat,
{
    match s.kind {
        Kind::Primitive(p) => v.head matches Head::Scalar(x) && scalar_type(x) == p,
        Kind::String => v.head is Str,
        Kind::Bytes => v.head is Bytes,
        Kind::Unit => v.head is Unit,
        Kind::UnitStruct => v.head == Head::UnitStruct(s.name),
        Kind::Option => v.head is Absent || (v.head is Present && v.kids.len() == 1 && conforms(
            v.kids[0],
            s.kids[0],
        )),
        Kind::NewtypeStruct => {
            &&& v.head == Head::NewtypeStruct(s.name)
            &&& v.kids.len() == 1
            &&& conforms(v.kids[0], s.kids[0])
        },
        Kind::Sequence => {
            &&& v.head is Sequence
            &&& forall|i: int| 0 <= i < v.kids.len() ==> conforms(#[trigger] v.kids[i], s.kids[0])
        },
        Kind::Mapping => {
            &&& v.head is Mapping
            &&& forall|i: int|
                0 <= i < v.kids.len() ==> {
                    &&& (#[trigger] v.kids[i]).kids.len() == 2
                    &&& conforms(v.kids[i].kids[0], s.kids[0])
                    &&& conforms(v.kids[i].kids[1], s.kids[1])
                }
        },
        Kind::Tuple => v.head is Tuple && parts_conform(v, s),
        Kind::TupleStruct => v.head == Head::TupleStruct(s.name) && parts_conform(v, s),
        Kind::Struct => {
            &&& v.head matches Head::Struct(name, labels)
            &&& name == s.name
            &&& labelled(v, labels, s)
            &&& parts_conform(v, s)
        },
        Kind::Enum => {
            &&& named_variant(v.head) matches Some(name)
            &&& s.labels.contains(name)
            &&& forall|i: int|
                0 <= i < s.labels.len() && #[trigger] s.labels[i] == name ==> variant_conforms(
                    v,
                    s.kids[i],
                )
        },
        Kind::Shared => v.head is Shared && v.kids.len() == 1 && conforms(v.kids[0], s.kids[0]),
        _ => false,
    }
}

/// The variant that a value names.
pub open spec fn named_variant(head: Head) -> Option<Seq<char>> {
    match head {
        Head::UnitVariant(_, name) => Some(name),
        Head::NewtypeVariant(_, name) => Some(name),
        Head::TupleVariant(_, name) => Some(name),
        Head::StructVariant(_, name, _) => Some(name),
        _ => None,
    }
}

/// The parts go by the labels of the schema.
pub open spec fn labelled(v: Val, labels: Seq<Seq<char>>, s: Shape) -> bool {
    forall|i: int| 0 <= i < v.kids.len() ==> #[trigger] labels[i] == s.labels[i]
}

/// There are as many parts as the schema has, and each conforms.
pub open spec fn parts_conform(v: Val, s: Shape) -> bool
    decreases v, 0nat,
{
    &&& v.kids.len() == s.kids.len()
    &&& forall|i: int| 0 <= i < v.kids.len() ==> conforms(#[trigger] v.kids[i], s.kids[i])
}

/// The payload has the form of the variant.
pub open spec fn variant_conforms(v: Val, k: Shape) -> bool
    decreases v, 0nat,
{
    match v.head {
        Head::UnitVariant(_, _) => k.kind is UnitVariant,
        Head::NewtypeVariant(_, _) => {
            &&& k.kind is NewtypeVariant
            &&& v.kids.len() == 1
            &&& conforms(v.kids[0], k.kids[0])
        },
        Head::TupleVariant(_, _) => {
            &&& k.kind is TupleVariant
            &&& v.kids.len() == k.kids.len()
            &&& forall|i: int| 0 <= i < v.kids.len() ==> conforms(#[trigger] v.kids[i], k.kids[i])
        },
        Head::StructVariant(_, _, labels) => {
            &&& k.kind is StructVariant
            &&& labelled(v, labels, k)
            &&& v.kids.len() == k.kids.len()
            &&& forall|i: int| 0 <= i < v.kids.len() ==> conforms(#[trigger] v.kids[i], k.kids[i])
        },
        _ => false,
    }
}

/// A variant is found by its name, whatever number comes with it: there is one
/// of the name exactly if one is found, and it has the name. The number decides
/// only between variants of one name.
pub proof fn lemma_find_variant(names: Seq<Seq<char>>, index: u64, name: Seq<char>)
    ensures
        find_variant(names, index, name) is Some <==> names.contains(name),
        find_variant(names, index, name) matches Some(i) ==> i < names.len() && names[i as int]
            == name,
        index < names.len() && names[index as int] == name ==> find_variant(names, index, name)
            == Some(index as nat),
        !(index < names.len() && names[index as int] == name) ==> (find_variant(
            names,
            index,
            name,
        ) matches Some(i) ==> forall|j: int| 0 <= j < i ==> #[trigger] names[j] != name),
{
    lemma_first_named(names, name, 0);
    if index < names.len() && names[index as int] == name {
        assert(names.contains(name));
    }
}

/// The first place of a name: the name stands there and nowhere before, and
/// where there is none it stands nowhere.
pub proof fn lemma_first_named(names: Seq<Seq<char>>, name: Seq<char>, i: nat)
    ensures
        match crate::put::first_named(names, name, i) {
            Some(k) => {
                &&& i <= k < names.len()
                &&& names[k as int] == name
                &&& forall|j: int| i <= j < k ==> #[trigger] names[j] != name
            },
            None => forall|j: int| i <= j < names.len() ==> #[trigger] names[j] != name,
        },
    decreases names.len() - i,
{
    if i < names.len() && names[i as int] != name {
        lemma_first_named(names, name, i + 1);
    }
}

proof fn lemma_items_written(v: Val, s: Shape, base: nat, row: Row, n: nat)
    requires
        n <= v.kids.len(),
        forall|i: int| 0 <= i < v.kids.len() ==> conforms(#[trigger] v.kids[i], s.kids[0]),
    ensures
        put_items(v, s, base, row, n) is Ok,
    decreases v, 0nat, n,
{
    if n > 0 {
        lemma_items_written(v, s, base, row, (n - 1) as nat);
        let mid = put_items(v, s, base, row, (n - 1) as nat)->Ok_0;
        lemma_conforming_written(v.kids[n - 1], s.kids[0], base + 1, mid);
    }
}

proof fn lemma_entries_written(v: Val, s: Shape, base: nat, row: Row, n: nat)
    requires
        n <= v.kids.len(),
        forall|i: int|
            0 <= i < v.kids.len() ==> {
                &&& (#[trigger] v.kids[i]).kids.len() == 2
                &&& conforms(v.kids[i].kids[0], s.kids[0])
                &&& conforms(v.kids[i].kids[1], s.kids[1])
            },
    ensures
        put_entries(v, s, base, row, n) is Ok,
    decreases v, 0nat, n,
{
    if n > 0 {
        lemma_entries_written(v, s, base, row, (n - 1) as nat);
        let mid = put_entries(v, s, base, row, (n - 1) as nat)->Ok_0;
        let e = v.kids[n - 1];
        lemma_conforming_written(e.kids[0], s.kids[0], base + 1, mid);
        let keyed = put(e.kids[0], s.kids[0], base + 1, mid)->Ok_0;
        lemma_conforming_written(e.kids[1], s.kids[1], base + 1 + width_of(s.kids[0]), keyed);
    }
}

proof fn lemma_fields_written(v: Val, s: Shape, base: nat, row: Row, n: nat)
    requires
        n <= v.kids.len(),
        forall|i: int| 0 <= i < v.kids.len() ==> conforms(#[trigger] v.kids[i], s.kids[i]),
    ensures
        put_fields(v, s, base, row, n) is Ok,
    decreases v, 0nat, n,
{
    if n > 0 {
        lemma_fields_written(v, s, base, row, (n - 1) as nat);
        let mid = put_fields(v, s, base, row, (n - 1) as nat)->Ok_0;
        lemma_conforming_written(
            v.kids[n - 1],
            s.kids[n - 1],
            kid_base(s, base, (n - 1) as nat),
            mid,
        );
    }
}

proof fn lemma_named_written(
    v: Val,
    labels: Seq<Seq<char>>,
    s: Shape,
    base: nat,
    row: Row,
    n: nat,
)
    requires
        n <= v.kids.len() == s.kids.len(),
        labelled(v, labels, s),
        forall|i: int| 0 <= i < v.kids.len() ==> conforms(#[trigger] v.kids[i], s.kids[i]),
    ensures
        put_named(v, labels, s, base, row, n) is Ok,
    decreases v, 0nat, n,
{
    if n > 0 {
        lemma_named_written(v, labels, s, base, row, (n - 1) as nat);
        let mid = put_named(v, labels, s, base, row, (n - 1) as nat)->Ok_0;
        assert(labels[n - 1] == s.labels[n - 1]);
        lemma_conforming_written(
            v.kids[n - 1],
            s.kids[n - 1],
            kid_base(s, base, (n - 1) as nat),
            mid,
        );
    }
}

/// Every value that conforms to a schema is written, wherever its columns are
/// and whatever the row already holds.
pub proof fn lemma_conforming_written(v: Val, s: Shape, base: nat, row: Row)
    requires
        conforms(v, s),
    ensures
        put(v, s, base, row) is Ok,
    decreases v, 1nat, 0nat,
{
    match s.kind {
        Kind::Option => {
            if v.head is Present {
                lemma_conforming_written(
                    v.kids[0],
                    s.kids[0],
                    base + 1,
                    row.append(base, seq![1]),
                );
            }
        },
        Kind::NewtypeStruct => {
            lemma_conforming_written(v.kids[0], s.kids[0], base, row);
        },
        Kind::Sequence => {
            lemma_items_written(v, s, base, row, v.kids.len());
        },
        Kind::Mapping => {
            lemma_entries_written(v, s, base, row, v.kids.len());
        },
        Kind::Tuple | Kind::TupleStruct => {
            assert(parts_conform(v, s));
            lemma_fields_written(v, s, base, row, v.kids.len());
        },
        Kind::Struct => {
            assert(parts_conform(v, s));
            if let Head::Struct(_, labels) = v.head {
                lemma_named_written(v, labels, s, base, row, v.kids.len());
                assert(put_all_named(v, labels, s, base, row) is Ok);
            }
        },
        Kind::Enum => {
            let name = named_variant(v.head)->0;
            let index = match v.head {
                Head::UnitVariant(index, _) => index,
                Head::NewtypeVariant(index, _) => index,
                Head::TupleVariant(index, _) => index,
                Head::StructVariant(index, _, _) => index,
                _ => 0,
            };
            lemma_find_variant(s.labels, index, name);
            let i = find_variant(s.labels, index, name)->0;
            let k = s.kids[i as int];
            assert(s.labels[i as int] == name);
            assert(variant_conforms(v, k));
            let at = kid_base(s, base, i);
            let tagged = row.append(base, varint::encoded(i));
            match v.head {
                Head::NewtypeVariant(_, _) => {
                    lemma_conforming_written(v.kids[0], k.kids[0], at, tagged);
                },
                Head::TupleVariant(_, _) => {
                    lemma_fields_written(v, k, at, tagged, v.kids.len());
                },
                Head::StructVariant(_, _, labels) => {
                    lemma_named_written(v, labels, k, at, tagged, v.kids.len());
                    assert(put_all_named(v, labels, k, at, tagged) is Ok);
                },
                _ => {},
            }
        },
        Kind::Shared => {
            if let Head::Shared(id) = v.head {
                lemma_conforming_written(
                    v.kids[0],
                    s.kids[0],
                    base + 1,
                    row.append(base, varint::encoded(row.book[base as int].len())).record(base, id),
                );
            }
        },
        _ => {},
    }
}

/// No object in the value is shared.
pub open spec fn unshared(v: Val) -> bool
    decreases v,
{
    &&& !(v.head is Shared)
    &&& forall|i: int| 0 <= i < v.kids.len() ==> unshared(#[trigger] v.kids[i])
}

proof fn lemma_items_conform(v: Val, s: Shape, base: nat, row: Row, n: nat)
    requires
        n <= v.kids.len(),
        unshared(v),
        s.kids[0].well_formed(),
        distinct(s.kids[0]),
        put_items(v, s, base, row, n) is Ok,
    ensures
        forall|i: int| 0 <= i < n ==> conforms(#[trigger] v.kids[i], s.kids[0]),
    decreases v, 0nat, n,
{
    if n > 0 {
        let mid = put_items(v, s, base, row, (n - 1) as nat);
        lemma_items_conform(v, s, base, row, (n - 1) as nat);
        assert(unshared(v.kids[n - 1]));
        lemma_written_conforms(v.kids[n - 1], s.kids[0], base + 1, mid->Ok_0);
    }
}

proof fn lemma_entries_conform(v: Val, s: Shape, base: nat, row: Row, n: nat)
    requires
        n <= v.kids.len(),
        unshared(v),
        s.kids[0].well_formed(),
        s.kids[1].well_formed(),
        distinct(s.kids[0]),
        distinct(s.kids[1]),
        put_entries(v, s, base, row, n) is Ok,
    ensures
        forall|i: int|
            0 <= i < n ==> {
                &&& (#[trigger] v.kids[i]).kids.len() == 2
                &&& conforms(v.kids[i].kids[0], s.kids[0])
                &&& conforms(v.kids[i].kids[1], s.kids[1])
            },
    decreases v, 0nat, n,
{
    if n > 0 {
        let mid = put_entries(v, s, base, row, (n - 1) as nat);
        lemma_entries_conform(v, s, base, row, (n - 1) as nat);
        let e = v.kids[n - 1];
        assert(unshared(e));
        assert(unshared(e.kids[0]) && unshared(e.kids[1]));
        lemma_written_conforms(e.kids[0], s.kids[0], base + 1, mid->Ok_0);
        let keyed = put(e.kids[0], s.kids[0], base + 1, mid->Ok_0)->Ok_0;
        lemma_written_conforms(e.kids[1], s.kids[1], base + 1 + width_of(s.kids[0]), keyed);
    }
}

proof fn lemma_fields_conform(v: Val, s: Shape, base: nat, row: Row, n: nat)
    requires
        n <= v.kids.len() == s.kids.len(),
        unshared(v),
        s.well_formed(),
        distinct(s),
        put_fields(v, s, base, row, n) is Ok,
    ensures
        forall|i: int| 0 <= i < n ==> conforms(#[trigger] v.kids[i], s.kids[i]),
    decreases v, 0nat, n,
{
    if n > 0 {
        let mid = put_fields(v, s, base, row, (n - 1) as nat);
        lemma_fields_conform(v, s, base, row, (n - 1) as nat);
        assert(unshared(v.kids[n - 1]));
        assert(distinct(s.kids[n - 1]) && s.kids[n - 1].well_formed());
        lemma_written_conforms(
            v.kids[n - 1],
            s.kids[n - 1],
            kid_base(s, base, (n - 1) as nat),
            mid->Ok_0,
        );
    }
}

proof fn lemma_named_conform(
    v: Val,
    labels: Seq<Seq<char>>,
    s: Shape,
    base: nat,
    row: Row,
    n: nat,
)
    requires
        n <= v.kids.len() == s.kids.len(),
        unshared(v),
        s.well_formed(),
        distinct(s),
        put_named(v, labels, s, base, row, n) is Ok,
    ensures
        forall|i: int|
            0 <= i < n ==> {
                &&& conforms(#[trigger] v.kids[i], s.kids[i])
                &&& labels[i] == s.labels[i]
            },
    decreases v, 0nat, n,
{
    if n > 0 {
        let mid = put_named(v, labels, s, base, row, (n - 1) as nat);
        lemma_named_conform(v, labels, s, base, row, (n - 1) as nat);
        assert(unshared(v.kids[n - 1]));
        assert(distinct(s.kids[n - 1]) && s.kids[n - 1].well_formed());
        lemma_written_conforms(
            v.kids[n - 1],
            s.kids[n - 1],
            kid_base(s, base, (n - 1) as nat),
            mid->Ok_0,
        );
    }
}

/// A value that is written conforms: any other is refused. Names are told apart
/// by the schema, and what a repetition of a shared object holds is not looked
/// at, so there is none.
pub proof fn lemma_written_conforms(v: Val, s: Shape, base: nat, row: Row)
    requires
        unshared(v),
        s.well_formed(),
        distinct(s),
        put(v, s, base, row) is Ok,
    ensures
        conforms(v, s),
    decreases v, 2nat, 0nat,
{
    if s.kids.len() > 0 {
        assert(distinct(s.kids[0]) && s.kids[0].well_formed());
    }
    if s.kids.len() > 1 {
        assert(distinct(s.kids[1]) && s.kids[1].well_formed());
    }
    match s.kind {
        Kind::Option => {
            if v.head is Present {
                assert(unshared(v.kids[0]));
                lemma_written_conforms(
                    v.kids[0],
                    s.kids[0],
                    base + 1,
                    row.append(base, seq![1]),
                );
            }
        },
        Kind::NewtypeStruct => {
            assert(unshared(v.kids[0]));
            lemma_written_conforms(v.kids[0], s.kids[0], base, row);
        },
        Kind::Sequence => {
            lemma_items_conform(v, s, base, row, v.kids.len());
        },
        Kind::Mapping => {
            lemma_entries_conform(v, s, base, row, v.kids.len());
        },
        Kind::Tuple | Kind::TupleStruct => {
            lemma_fields_conform(v, s, base, row, v.kids.len());
            assert(parts_conform(v, s));
        },
        Kind::Struct => {
            if let Head::Struct(_, labels) = v.head {
                assert(put_all_named(v, labels, s, base, row) is Ok);
                lemma_named_conform(v, labels, s, base, row, v.kids.len());
                assert(labelled(v, labels, s)) by {
                    assert forall|i: int| 0 <= i < v.kids.len() implies #[trigger] labels[i]
                        == s.labels[i] by {
                        assert(conforms(v.kids[i], s.kids[i]));
                    }
                }
                assert(parts_conform(v, s));
            }
        },
        Kind::Enum => {
            lemma_variant_written(v, s, base, row);
        },
        _ => {},
    }
}

proof fn lemma_variant_written(v: Val, s: Shape, base: nat, row: Row)
    requires
        s.kind is Enum,
        unshared(v),
        s.well_formed(),
        distinct(s),
        put(v, s, base, row) is Ok,
    ensures
        conforms(v, s),
    decreases v, 1nat, 0nat,
{
    let name = named_variant(v.head)->0;
    let index = match v.head {
        Head::UnitVariant(index, _) => index,
        Head::NewtypeVariant(index, _) => index,
        Head::TupleVariant(index, _) => index,
        Head::StructVariant(index, _, _) => index,
        _ => 0,
    };
    lemma_find_variant(s.labels, index, name);
    let i = find_variant(s.labels, index, name)->0;
    let k = s.kids[i as int];
    let at = kid_base(s, base, i);
    let tagged = row.append(base, varint::encoded(i));
    assert(distinct(k) && k.well_formed());
    match v.head {
        Head::NewtypeVariant(_, _) => {
            assert(unshared(v.kids[0]));
            assert(distinct(k.kids[0]) && k.kids[0].well_formed());
            lemma_written_conforms(v.kids[0], k.kids[0], at, tagged);
        },
        Head::TupleVariant(_, _) => {
            lemma_fields_conform(v, k, at, tagged, v.kids.len());
        },
        Head::StructVariant(_, _, labels) => {
            assert(put_all_named(v, labels, k, at, tagged) is Ok);
            lemma_named_conform(v, labels, k, at, tagged, v.kids.len());
            assert(labelled(v, labels, k)) by {
                assert forall|j: int| 0 <= j < v.kids.len() implies #[trigger] labels[j]
                    == k.labels[j] by {
                    assert(conforms(v.kids[j], k.kids[j]));
                }
            }
        },
        _ => {},
    }
    assert(variant_conforms(v, k));
    assert forall|j: int| 0 <= j < s.labels.len() && #[trigger] s.labels[j]
        == name implies variant_conforms(v, s.kids[j]) by {
        if j < i {
            assert(s.labels[j] != s.labels[i as int]);
        } else if i < j {
            assert(s.labels[i as int] != s.labels[j]);
        }
    }
    assert(s.labels[i as int] == name);
}

/// The same head, but for the number of a variant and the key of a shared
/// object.
pub open spec fn same_head(a: Head, b: Head) -> bool {
    match a {
        Head::Shared(_) => b is Shared,
        Head::UnitVariant(_, name) => b matches Head::UnitVariant(_, other) && other == name,
        Head::NewtypeVariant(_, name) => b matches Head::NewtypeVariant(_, other) && other == name,
        Head::TupleVariant(_, name) => b matches Head::TupleVariant(_, other) && other == name,
        Head::StructVariant(_, name, labels) => b matches Head::StructVariant(_, other, others)
            && other == name && others == labels,
        _ => b == a,
    }
}

/// The same value, but for the numbers of variants and the keys of shared
/// objects.
pub open spec fn alike(v: Val, w: Val) -> bool
    decreases v,
{
    &&& same_head(v.head, w.head)
    &&& w.kids.len() == v.kids.len()
    &&& forall|i: int| 0 <= i < v.kids.len() ==> alike(#[trigger] v.kids[i], w.kids[i])
}

/// What is read back is the value that was written, but for the numbers of its
/// variants and the keys of its shared objects.
pub proof fn lemma_keyed_alike(v: Val, s: Shape, base: nat, book: Seq<Seq<u64>>)
    requires
        readable(v, s),
    ensures
        alike(v, keyed(v, s, base, book)),
    decreases v,
{
    let w = keyed(v, s, base, book);
    assert forall|i: int| 0 <= i < v.kids.len() implies alike(#[trigger] v.kids[i], w.kids[i]) by {
        if s.kind is Mapping {
            let e = v.kids[i];
            lemma_keyed_alike(e.kids[0], s.kids[0], base + 1, book);
            lemma_keyed_alike(e.kids[1], s.kids[1], base + 1 + width_of(s.kids[0]), book);
            assert forall|j: int| 0 <= j < e.kids.len() implies alike(
                #[trigger] e.kids[j],
                w.kids[i].kids[j],
            ) by {
                assert(j == 0 || j == 1);
            }
        } else {
            lemma_keyed_alike(v.kids[i], part_shape(v, s, i), part_base(v, s, base, i), book);
        }
    }
}

proof fn lemma_unshared_consistent(
    v: Val,
    s: Shape,
    base: nat,
    book: Seq<Seq<u64>>,
    heap: spec_fn(nat, u64) -> Val,
)
    requires
        unshared(v),
        readable(v, s),
    ensures
        consistent(v, s, base, book, heap),
    decreases v,
{
    assert forall|j: int| 0 <= j < v.kids.len() implies {
        if s.kind is Mapping {
            &&& (#[trigger] v.kids[j]).kids.len() == 2
            &&& consistent(v.kids[j].kids[0], s.kids[0], base + 1, book, heap)
            &&& consistent(
                v.kids[j].kids[1],
                s.kids[1],
                base + 1 + width_of(s.kids[0]),
                book,
                heap,
            )
        } else {
            consistent(v.kids[j], part_shape(v, s, j), part_base(v, s, base, j), book, heap)
        }
    } by {
        assert(unshared(v.kids[j]));
        if s.kind is Mapping {
            let e = v.kids[j];
            assert(unshared(e.kids[0]) && unshared(e.kids[1]));
            lemma_unshared_consistent(e.kids[0], s.kids[0], base + 1, book, heap);
            lemma_unshared_consistent(
                e.kids[1],
                s.kids[1],
                base + 1 + width_of(s.kids[0]),
                book,
                heap,
            );
        } else {
            lemma_unshared_consistent(
                v.kids[j],
                part_shape(v, s, j),
                part_base(v, s, base, j),
                book,
                heap,
            );
        }
    }
}

proof fn lemma_items_book(v: Val, s: Shape, base: nat, row: Row, n: nat)
    requires
        n <= v.kids.len(),
        unshared(v),
        put_items(v, s, base, row, n) is Ok,
    ensures
        put_items(v, s, base, row, n)->Ok_0.book == row.book,
    decreases v, 0nat, n,
{
    if n > 0 {
        lemma_items_book(v, s, base, row, (n - 1) as nat);
        assert(unshared(v.kids[n - 1]));
        let mid = put_items(v, s, base, row, (n - 1) as nat)->Ok_0;
        lemma_book_kept(v.kids[n - 1], s.kids[0], base + 1, mid);
    }
}

proof fn lemma_entries_book(v: Val, s: Shape, base: nat, row: Row, n: nat)
    requires
        n <= v.kids.len(),
        unshared(v),
        put_entries(v, s, base, row, n) is Ok,
    ensures
        put_entries(v, s, base, row, n)->Ok_0.book == row.book,
    decreases v, 0nat, n,
{
    if n > 0 {
        lemma_entries_book(v, s, base, row, (n - 1) as nat);
        let e = v.kids[n - 1];
        assert(unshared(e));
        assert(unshared(e.kids[0]) && unshared(e.kids[1]));
        let mid = put_entries(v, s, base, row, (n - 1) as nat)->Ok_0;
        lemma_book_kept(e.kids[0], s.kids[0], base + 1, mid);
        let keyed = put(e.kids[0], s.kids[0], base + 1, mid)->Ok_0;
        lemma_book_kept(e.kids[1], s.kids[1], base + 1 + width_of(s.kids[0]), keyed);
    }
}

proof fn lemma_fields_book(v: Val, s: Shape, base: nat, row: Row, n: nat)
    requires
        n <= v.kids.len(),
        unshared(v),
        put_fields(v, s, base, row, n) is Ok,
    ensures
        put_fields(v, s, base, row, n)->Ok_0.book == row.book,
    decreases v, 0nat, n,
{
    if n > 0 {
        lemma_fields_book(v, s, base, row, (n - 1) as nat);
        assert(unshared(v.kids[n - 1]));
        let mid = put_fields(v, s, base, row, (n - 1) as nat)->Ok_0;
        lemma_book_kept(v.kids[n - 1], s.kids[n - 1], kid_base(s, base, (n - 1) as nat), mid);
    }
}

proof fn lemma_named_book(
    v: Val,
    labels: Seq<Seq<char>>,
    s: Shape,
    base: nat,
    row: Row,
    n: nat,
)
    requires
        n <= v.kids.len(),
        unshared(v),
        put_named(v, labels, s, base, row, n) is Ok,
    ensures
        put_named(v, labels, s, base, row, n)->Ok_0.book == row.book,
    decreases v, 0nat, n,
{
    if n > 0 {
        lemma_named_book(v, labels, s, base, row, (n - 1) as nat);
        assert(unshared(v.kids[n - 1]));
        let mid = put_named(v, labels, s, base, row, (n - 1) as nat)->Ok_0;
        lemma_book_kept(v.kids[n - 1], s.kids[n - 1], kid_base(s, base, (n - 1) as nat), mid);
    }
}

/// A value without shared objects records none.
proof fn lemma_book_kept(v: Val, s: Shape, base: nat, row: Row)
    requires
        unshared(v),
        put(v, s, base, row) is Ok,
    ensures
        put(v, s, base, row)->Ok_0.book == row.book,
    decreases v, 1nat, 0nat,
{
    if v.kids.len() > 0 {
        assert(unshared(v.kids[0]));
    }
    match s.kind {
        Kind::Option => {
            if v.head is Present {
                lemma_book_kept(v.kids[0], s.kids[0], base + 1, row.append(base, seq![1]));
            }
        },
        Kind::NewtypeStruct => {
            lemma_book_kept(v.kids[0], s.kids[0], base, row);
        },
        Kind::Sequence => {
            lemma_items_book(v, s, base, row, v.kids.len());
        },
        Kind::Mapping => {
            lemma_entries_book(v, s, base, row, v.kids.len());
        },
        Kind::Tuple | Kind::TupleStruct => {
            lemma_fields_book(v, s, base, row, v.kids.len());
        },
        Kind::Struct => {
            if let Head::Struct(_, labels) = v.head {
                assert(put_all_named(v, labels, s, base, row) is Ok);
                lemma_named_book(v, labels, s, base, row, v.kids.len());
            }
        },
        Kind::Enum => {
            let index = match v.head {
                Head::UnitVariant(index, _) => index,
                Head::NewtypeVariant(index, _) => index,
                Head::TupleVariant(index, _) => index,
                Head::StructVariant(index, _, _) => index,
                _ => 0,
            };
            let i = find_variant(s.labels, index, named_variant(v.head)->0)->0;
            let k = s.kids[i as int];
            let at = kid_base(s, base, i);
            let tagged = row.append(base, varint::encoded(i));
            match v.head {
                Head::NewtypeVariant(_, _) => {
                    lemma_book_kept(v.kids[0], k.kids[0], at, tagged);
                },
                Head::TupleVariant(_, _) => {
                    lemma_fields_book(v, k, at, tagged, v.kids.len());
                },
                Head::StructVariant(_, _, labels) => {
                    assert(put_all_named(v, labels, k, at, tagged) is Ok);
                    lemma_named_book(v, labels, k, at, tagged, v.kids.len());
                },
                _ => {},
            }
        },
        _ => {},
    }
}

/// Every value that conforms to a schema comes back from its blob: it is
/// written, whatever numbers its variants carry, and what is read is the same
/// value but for those numbers.
pub proof fn lemma_conforming_round_trip(v: Val, s: Shape)
    requires
        s.well_formed(),
        fits(s),
        width_of(s) <= usize::MAX,
        conforms(v, s),
        unshared(v),
        readable(v, s),
        forall|c: int|
            0 <= c < width_of(s) ==> (#[trigger] pushed(s, seq![v], 1)->Ok_0[c]).len()
                <= usize::MAX,
    ensures
        pushed(s, seq![v], 1) is Ok,
        single(blob(1, pushed(s, seq![v], 1)->Ok_0), s) matches Ok(w) && alike(v, w),
{
    let vs = seq![v];
    let row = new_row(no_rows(s));
    assert(pushed(s, vs, 0) == Ok::<Seq<Seq<u8>>, Fault>(no_rows(s)));
    lemma_conforming_written(v, s, 0, row);
    lemma_book_kept(v, s, 0, row);
    let heap = |c: nat, id: u64| v;
    let after = row_after(s, vs, 0);
    assert(after == put(v, s, 0, row)->Ok_0);
    lemma_unshared_consistent(v, s, 0, after.book, heap);
    assert(pushed(s, vs, 1) is Ok);
    assert(returnable(s, vs, seq![heap])) by {
        assert forall|i: int| 0 <= i < vs.len() implies {
            &&& readable(#[trigger] vs[i], s)
            &&& consistent(vs[i], s, 0, row_after(s, vs, i as nat).book, seq![heap][i])
            &&& forall|c: int|
                0 <= c < width_of(s) ==> (#[trigger] row_after(s, vs, i as nat).book[c]).len()
                    <= u64::MAX
        } by {
            assert(i == 0);
        }
    }
    lemma_single_round_trip(s, v, heap);
    lemma_keyed_alike(v, s, 0, after.book);
}

} // verus!
