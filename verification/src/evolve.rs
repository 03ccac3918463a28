//! Reading what an older version of a type wrote: what a reader is shown of a
//! value, for what it asks.

use vstd::prelude::*;

use crate::conform::conforms;
use crate::error::Fault;
use crate::get::{get, get_fields, Cur};
use crate::plan::{
    given, given_variant, names, Ask, Given, GivenVariant, Plan, VariantAsk,
};
use crate::reader::{finish, step, Next, Step};
use crate::shape::{kid_base, lemma_one_kid_columns, Kind, Shape};
use crate::spot::{wrapped, Spot};
use crate::text::decimal;
use crate::value::{atom, Head, Val, SHARED_TOKEN};

verus! {

/// The names that go with so many numbered fields.
pub open spec fn numbers(n: nat) -> Seq<Seq<char>> {
    Seq::new(n, |i: int| decimal(i as nat))
}

/// The value inside the newtype structs and shared objects around it.
pub open spec fn bare(v: Val) -> Val
    decreases v,
{
    if (v.head is NewtypeStruct || v.head is Shared) && v.kids.len() == 1 {
        bare(v.kids[0])
    } else {
        v
    }
}

/// The names under which the writer stored the parts of a value.
pub open spec fn stored_names(v: Val) -> Seq<Seq<char>> {
    match v.head {
        Head::Struct(_, labels) => labels,
        Head::StructVariant(_, _, labels) => labels,
        _ => seq![],
    }
}

/// What a reader is shown of a value, once it was decided what it is given: a
/// value as it is, one that is present, a wrapper with what is in it, or fields
/// in order, by name or by number.
pub open spec fn shown(given: Given, v: Val) -> Val {
    match given {
        Given::Dispatch => bare(v),
        Given::Present => Val { head: Head::Present, kids: seq![v] },
        Given::Skip => atom(Head::Unit),
        Given::Inner => Val { head: Head::NewtypeStruct(seq![]), kids: v.kids },
        Given::Wrapped => Val { head: Head::NewtypeStruct(seq![]), kids: seq![v] },
        Given::Shared => v,
        Given::Product => Val { head: Head::Tuple, kids: v.kids },
        Given::ByName => Val { head: Head::Struct(seq![], stored_names(v)), kids: v.kids },
        Given::Numbered => Val { head: Head::Struct(seq![], numbers(v.kids.len())), kids: v.kids },
        Given::NumberedSelf => Val { head: Head::Struct(seq![], numbers(1)), kids: seq![v] },
    }
}

/// A reader that asks for an option is shown one, always: what the writer stored
/// as an option as it is, and any other value as present. A field that has been
/// wrapped in an option reads every old value.
pub proof fn lemma_option_reader(s: Shape, v: Val, fast: bool)
    requires
        conforms(v, s),
    ensures
        given(s, fast, Ask::Option) matches Ok(g) && shown(g, v) == if s.kind is Option {
            v
        } else {
            Val { head: Head::Present, kids: seq![v] }
        },
{
}

/// Reading an option with a reader of what is in it: as the plan says.
pub open spec fn option_read(
    inner: spec_fn(Shape, nat, Cur) -> Option<(Val, Cur)>,
    s: Shape,
    base: nat,
    fast: bool,
    cur: Cur,
) -> Option<(Val, Cur)> {
    match given(s, fast, Ask::Option) {
        Ok(Given::Dispatch) => match step(s, base, fast, cur) {
            Ok((Next::Absent, end)) => Some((atom(Head::Absent), end)),
            Ok((Next::Present(place), next)) => match inner(
                place.shape.kids[0],
                place.base + 1,
                next,
            ) {
                Some((v, end)) => Some((Val { head: Head::Present, kids: seq![v] }, end)),
                None => None,
            },
            _ => None,
        },
        Ok(Given::Present) => match inner(s, base, cur) {
            Some((v, end)) => Some((Val { head: Head::Present, kids: seq![v] }, end)),
            None => None,
        },
        _ => None,
    }
}

/// Wherever the writer stored no option, reading an optional value gives what
/// reading the value does, as present: for every position, every input and every
/// reader of the value.
pub proof fn lemma_option_gained(
    inner: spec_fn(Shape, nat, Cur) -> Option<(Val, Cur)>,
    s: Shape,
    base: nat,
    fast: bool,
    cur: Cur,
)
    requires
        !(s.kind is Option),
    ensures
        option_read(inner, s, base, fast, cur) == match inner(s, base, cur) {
            Some((v, end)) => Some((Val { head: Head::Present, kids: seq![v] }, end)),
            None => None,
        },
{
}

/// Wherever the writer stored an option, what is in it is read where it stands.
pub proof fn lemma_option_kept(
    inner: spec_fn(Shape, nat, Cur) -> Option<(Val, Cur)>,
    s: Shape,
    base: nat,
    fast: bool,
    cur: Cur,
)
    requires
        s.kind is Option,
        s.well_formed(),
        forall|t: Shape, b: nat, c: Cur|
            #[trigger] inner(t, b, c) == match get(t, b, c) {
                Ok((v, end)) => Some((v, end)),
                Err(_) => None,
            },
    ensures
        option_read(inner, s, base, fast, cur) == match get(s, base, cur) {
            Ok((v, end)) => Some((v, end)),
            Err(_) => None,
        },
{
}

/// A reader that asks for nothing, or for whatever comes, is never refused.
pub proof fn lemma_plain_reader(s: Shape, v: Val, fast: bool)
    ensures
        given(s, fast, Ask::Nothing) matches Ok(g) && shown(g, v) == atom(Head::Unit),
        given(s, fast, Ask::Any) matches Ok(g) && shown(g, v) == bare(v),
{
}

/// Whether a reader that asks for fields by position can have these: the writer
/// kept no names, or the schemas are the same.
pub open spec fn by_position(s: Shape, fast: bool) -> bool {
    fast || !(s.kind is Struct)
}

/// The kinds that are lists of fields.
pub open spec fn is_fields(kind: Kind) -> bool {
    kind is Unit || kind is UnitStruct || kind is NewtypeStruct || kind is Tuple
        || kind is TupleStruct || kind is Struct
}

/// A reader that asks for positional fields is shown all the fields that the
/// writer stored, in their order, and refused exactly where they have names that
/// it could not tell apart. What is no list of fields is shown as it is.
pub proof fn lemma_positional_reader(s: Shape, v: Val, fast: bool)
    requires
        conforms(v, s),
    ensures
        given(s, fast, Ask::Positional) is Ok <==> by_position(s, fast),
        given(s, fast, Ask::Positional) matches Ok(g) ==> shown(g, v) == if is_fields(s.kind) {
            Val { head: Head::Tuple, kids: v.kids }
        } else {
            bare(v)
        },
{
}

/// A reader that asks for a newtype struct is shown a wrapper: with what is in
/// the writer's wrapper, where there was one, and with the value as it is, where
/// it was plain. A field that has been wrapped reads every old value, and so
/// does one whose wrapper was renamed. Other lists of fields are shown in order.
pub proof fn lemma_newtype_reader(s: Shape, v: Val, fast: bool, name: &str)
    requires
        conforms(v, s),
        name@ != SHARED_TOKEN@,
    ensures
        s.kind is NewtypeStruct ==> (given(s, fast, Ask::Newtype(name)) matches Ok(g) && shown(g, v)
            == (Val { head: Head::NewtypeStruct(seq![]), kids: v.kids })),
        !is_fields(s.kind) ==> (given(s, fast, Ask::Newtype(name)) matches Ok(g) && shown(g, v) == (
        Val { head: Head::NewtypeStruct(seq![]), kids: seq![v] })),
        is_fields(s.kind) && !(s.kind is NewtypeStruct) ==> given(s, fast, Ask::Newtype(name))
            == given(s, fast, Ask::Positional),
{
}

/// A reader that asks for a shared object is shown it, and any other value in a
/// wrapper: a value that was not shared before reads as one that is.
pub proof fn lemma_shared_reader(s: Shape, v: Val, fast: bool, name: &str)
    requires
        name@ == SHARED_TOKEN@,
    ensures
        given(s, fast, Ask::Newtype(name)) matches Ok(g) && shown(g, v) == if s.kind is Shared {
            v
        } else {
            Val { head: Head::NewtypeStruct(seq![]), kids: seq![v] }
        },
{
}

/// Some field goes by the number of one of so many positions.
pub open spec fn claims(fields: Seq<&str>, count: nat) -> bool {
    exists|i: nat, j: int|
        i < count && 0 <= j < fields.len() && (#[trigger] fields[j])@ == #[trigger] decimal(i)
}

/// A reader that asks for named fields is shown every field that the writer
/// stored: under the writer's names, or in order where the schemas are the same,
/// and under their numbers where the writer kept no names. It is refused exactly
/// where the writer stored unnamed fields and it claims none of their numbers. A
/// value that is no list of fields is field number 0 for a reader that claims
/// it.
pub proof fn lemma_struct_reader(s: Shape, v: Val, fast: bool, fields: &[&str])
    requires
        conforms(v, s),
        is_fields(s.kind) ==> v.kids.len() == s.kids.len(),
    ensures
        given(s, fast, Ask::Struct(fields)) is Err <==> is_fields(s.kind) && !(s.kind is Struct)
            && v.kids.len() > 0 && !claims(fields@, v.kids.len()),
        given(s, fast, Ask::Struct(fields)) matches Ok(g) ==> shown(g, v) == if s.kind is Struct {
            if fast {
                Val { head: Head::Tuple, kids: v.kids }
            } else {
                Val { head: Head::Struct(seq![], stored_names(v)), kids: v.kids }
            }
        } else if is_fields(s.kind) {
            Val { head: Head::Struct(seq![], numbers(v.kids.len())), kids: v.kids }
        } else if claims(fields@, 1) {
            Val { head: Head::Struct(seq![], numbers(1)), kids: seq![v] }
        } else {
            bare(v)
        },
{
    lemma_claims(fields@, 1);
    lemma_claims(fields@, s.kids.len());
}

proof fn lemma_claims(fields: Seq<&str>, count: nat)
    ensures
        claims(fields, count) == crate::plan::tags_position(names(fields), count),
{
    let list = names(fields);
    if claims(fields, count) {
        let (i, j) = choose|i: nat, j: int|
            i < count && 0 <= j < fields.len() && (#[trigger] fields[j])@ == #[trigger] decimal(i);
        assert(list[j] == decimal(i));
        assert(list.contains(decimal(i)));
    }
    if crate::plan::tags_position(list, count) {
        let i = choose|i: nat| i < count && #[trigger] list.contains(decimal(i));
        let j = list.index_of(decimal(i));
        assert(fields[j]@ == decimal(i));
    }
}

/// What a reader is shown of the payload of a variant.
pub open spec fn variant_shown(given: GivenVariant, v: Val) -> Val {
    match given {
        GivenVariant::Skip => atom(Head::Unit),
        GivenVariant::Only => Val { head: Head::NewtypeStruct(seq![]), kids: v.kids },
        GivenVariant::Product => Val { head: Head::Tuple, kids: v.kids },
        GivenVariant::ByName => Val { head: Head::Struct(seq![], stored_names(v)), kids: v.kids },
        GivenVariant::Numbered => Val {
            head: Head::Struct(seq![], numbers(v.kids.len())),
            kids: v.kids,
        },
    }
}

/// A variant may change its shape: whatever the writer's was, a reader is shown
/// all that the writer stored, and refused exactly where it could not tell named
/// fields apart, asks for one field where there is another number, or asks for
/// named fields where there are unnamed ones and claims none of their numbers.
pub proof fn lemma_variant_reader(k: Shape, v: Val, name: Seq<char>, fast: bool, fields: &[&str])
    requires
        v.kids.len() == k.kids.len(),
    ensures
        given_variant(k, name, fast, VariantAsk::Unit) matches Ok(g) && variant_shown(g, v) == atom(
            Head::Unit,
        ),
        given_variant(k, name, fast, VariantAsk::Newtype) is Ok <==> (fast || !(k.kind
            is StructVariant)) && v.kids.len() == 1,
        given_variant(k, name, fast, VariantAsk::Newtype) matches Ok(g) ==> variant_shown(g, v) == (
        Val { head: Head::NewtypeStruct(seq![]), kids: v.kids }),
        given_variant(k, name, fast, VariantAsk::Tuple) is Ok <==> fast || !(k.kind
            is StructVariant),
        given_variant(k, name, fast, VariantAsk::Tuple) matches Ok(g) ==> variant_shown(g, v) == (
        Val { head: Head::Tuple, kids: v.kids }),
        given_variant(k, name, fast, VariantAsk::Struct(fields)) is Ok <==> fast || k.kind
            is StructVariant || v.kids.len() == 0 || claims(fields@, v.kids.len()),
        given_variant(k, name, fast, VariantAsk::Struct(fields)) matches Ok(g) ==> variant_shown(
            g,
            v,
        ) == if fast {
            Val { head: Head::Tuple, kids: v.kids }
        } else if k.kind is StructVariant {
            Val { head: Head::Struct(seq![], stored_names(v)), kids: v.kids }
        } else {
            Val { head: Head::Struct(seq![], numbers(v.kids.len())), kids: v.kids }
        },
{
    lemma_claims(fields@, k.kids.len());
}

/// What a plan hands over is read where the writer put it: by the positions of
/// the plan, a reader gets the parts of the value that is there, and ends where
/// the value ends.
pub proof fn lemma_plan_places(plan: Plan<'_>, g: Given, spot: Spot<'_>, cur: Cur)
    requires
        plan.carries_out(g, spot),
        spot.well_formed(),
        get(spot.shape(), spot.base(), cur) is Ok,
        g is Inner ==> spot.shape().kind is NewtypeStruct,
        g is Shared ==> spot.shape().kind is Shared,
        g is Product || g is Numbered ==> is_fields(spot.shape().kind),
        g is ByName ==> spot.shape().kind is Struct,
    ensures
        ({
            let (v, end) = get(spot.shape(), spot.base(), cur)->Ok_0;
            match plan {
                Plan::Newtype(inner) => get(inner.shape(), inner.base(), cur) == Ok::<
                    (Val, Cur),
                    Fault,
                >(
                    (
                        if g is Inner {
                            v.kids[0]
                        } else {
                            v
                        },
                        end,
                    ),
                ),
                Plan::Product(list) | Plan::ByName(list) | Plan::Numbered(list) => get_fields(
                    list.shape(),
                    list.base(),
                    cur,
                    list.shape().kids.len(),
                ) == Ok::<(Seq<Val>, Cur), Fault>(
                    (
                        if g is NumberedSelf {
                            seq![v]
                        } else {
                            v.kids
                        },
                        end,
                    ),
                ),
                Plan::Shared { key, inner } => match cur.varint(key as nat) {
                    Ok((k, next)) => {
                        &&& v.head == Head::Shared(k as u64)
                        &&& k == next.regs[key as int].len() ==> (get(
                            inner.shape(),
                            inner.base(),
                            next.reserve(key as nat),
                        ) matches Ok((x, _)) && v.kids == seq![x])
                    },
                    Err(_) => false,
                },
                _ => true,
            }
        }),
{
    let s = spot.shape();
    let base = spot.base();
    let (v, end) = get(s, base, cur)->Ok_0;
    match g {
        Given::Product | Given::Numbered => {
            if s.kind is NewtypeStruct {
                lemma_one_kid_columns(s);
                lemma_one_field(s, base, cur);
            } else if s.kind is Unit || s.kind is UnitStruct {
                assert(get_fields(s, base, cur, 0) == Ok::<(Seq<Val>, Cur), Fault>((seq![], cur)));
            }
        },
        Given::NumberedSelf => {
            let w = wrapped(s);
            lemma_one_kid_columns(w);
            lemma_one_field(w, base, cur);
        },
        _ => {},
    }
}

/// The only field of a product without columns of its own stands where the
/// product does.
proof fn lemma_one_field(s: Shape, base: nat, cur: Cur)
    requires
        s.kids.len() == 1,
        kid_base(s, base, 0) == base,
        get(s.kids[0], base, cur) is Ok,
    ensures
        get_fields(s, base, cur, 1) == Ok::<(Seq<Val>, Cur), Fault>(
            (seq![get(s.kids[0], base, cur)->Ok_0.0], get(s.kids[0], base, cur)->Ok_0.1),
        ),
{
    assert(get_fields(s, base, cur, 0) == Ok::<(Seq<Val>, Cur), Fault>((seq![], cur)));
    assert(seq![].push(get(s.kids[0], base, cur)->Ok_0.0) =~= seq![
        get(s.kids[0], base, cur)->Ok_0.0,
    ]);
}

/// A reader that takes whatever comes sees through a wrapper: what was wrapped
/// in a newtype struct reads as if it had not been, and what was not reads as if
/// it had.
pub proof fn lemma_wrapper_unseen(s: Shape, name: Seq<char>, base: nat, fast: bool, cur: Cur)
    ensures
        step(crate::shape::node(Kind::NewtypeStruct, name, seq![s]), base, fast, cur) == step(
            s,
            base,
            fast,
            cur,
        ),
{
    let w = crate::shape::node(Kind::NewtypeStruct, name, seq![s]);
    assert(w.kids[0] == s);
}

/// A reader that takes whatever comes sees the first occurrence of a shared
/// object, and a later one only if it asks for it.
pub proof fn lemma_sharing_unseen(s: Shape, base: nat, fast: bool, cur: Cur)
    requires
        s.kind is Shared,
        s.well_formed(),
        cur.varint(base) is Ok,
    ensures
        ({
            let (key, next) = cur.varint(base)->Ok_0;
            &&& key == next.regs[base as int].len() ==> step(s, base, fast, cur) == step(
                s.kids[0],
                base + 1,
                fast,
                next.reserve(base),
            )
            &&& key != next.regs[base as int].len() ==> step(s, base, fast, cur) is Err
        }),
{
}

/// What a step hands over is read where the writer put it: with the positions of
/// the step, its parts are those of the value.
pub proof fn lemma_step_places(shown: Step<'_, '_>, next: Next, cur: Cur, columns: nat)
    requires
        shown.shows(next, columns),
    ensures
        match (shown, next) {
            (Step::Scalar(x), _) => finish(next, cur) == Ok::<(Val, Cur), Fault>(
                (atom(Head::Scalar(x)), cur),
            ),
            (Step::Str(text), _) => finish(next, cur) == Ok::<(Val, Cur), Fault>(
                (atom(Head::Str(text@)), cur),
            ),
            (Step::Bytes(bytes), _) => finish(next, cur) == Ok::<(Val, Cur), Fault>(
                (atom(Head::Bytes(bytes@)), cur),
            ),
            (Step::Absent, _) => finish(next, cur) == Ok::<(Val, Cur), Fault>(
                (atom(Head::Absent), cur),
            ),
            (Step::Present(spot), _) => finish(next, cur) == match get(
                spot.shape(),
                spot.base(),
                cur,
            ) {
                Ok((v, end)) => Ok::<(Val, Cur), Fault>(
                    (Val { head: Head::Present, kids: seq![v] }, end),
                ),
                Err(fault) => Err(fault),
            },
            (Step::Fields(list), Next::Fields(place)) => {
                &&& list.shape() == place.shape
                &&& list.base() == place.base
            },
            (Step::ByName(list), Next::ByName(place)) => {
                &&& list.shape() == place.shape
                &&& list.base() == place.base
            },
            (Step::Variant(variant), Next::Variant(place, i)) => finish(next, cur) == match get_fields(
                variant.shape(),
                variant.base(),
                cur,
                variant.shape().kids.len(),
            ) {
                Ok((kids, end)) => Ok::<(Val, Cur), Fault>(
                    (Val { head: crate::get::variant_head(place.shape, i), kids }, end),
                ),
                Err(fault) => Err(fault),
            },
            _ => true,
        },
{
}

} // verus!
