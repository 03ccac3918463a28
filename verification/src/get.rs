//! What reading a value takes from the columns of a row, as mathematics.

use vstd::prelude::*;
use vstd::utf8::{decode_utf8, valid_utf8};

use crate::error::Fault;
use crate::shape::{width_of, kid_base, primitive_width, Kind, Shape};
use crate::value::{atom, entry, from_little_endian, scalar_of, Head, Val};
use crate::varint;

verus! {

/// Largest repetition count accepted for a value that occupies no columns.
///
/// Such a value consumes no bytes, so the input carries nothing to validate
/// its count against and a handful of header bytes could otherwise ask for an
/// unbounded number of copies.
pub const MAX_ZERO_COLUMN_REPEAT: u64 = 0x10_0000;

/// The columns being read, how far each has been read, and for each column the
/// shared objects that the row has read there. An object is `None` while it is
/// being read, and where it was skipped.
pub struct Cur {
    pub bufs: Seq<Seq<u8>>,
    pub pos: Seq<nat>,
    pub regs: Seq<Seq<Option<Val>>>,
}

impl Cur {
    /// Every position lies within its column.
    pub open spec fn well_formed(self) -> bool {
        &&& self.pos.len() == self.bufs.len()
        &&& self.regs.len() == self.bufs.len()
        &&& forall|c: int|
            0 <= c < self.bufs.len() ==> (#[trigger] self.pos[c]) <= self.bufs[c].len()
    }

    /// There is a position and a list of objects for every column.
    pub open spec fn sized(self) -> bool {
        self.pos.len() == self.bufs.len() && self.regs.len() == self.bufs.len()
    }

    /// What is left of a column.
    pub open spec fn rest(self, col: nat) -> Seq<u8> {
        self.bufs[col as int].subrange(self.pos[col as int] as int, self.bufs[col as int].len() as int)
    }

    /// Moves on by `n` bytes in one column.
    pub open spec fn advance(self, col: nat, n: nat) -> Cur {
        Cur { pos: self.pos.update(col as int, self.pos[col as int] + n), ..self }
    }

    /// Takes the next `n` bytes of a column.
    pub open spec fn take(self, col: nat, n: nat) -> Result<(Seq<u8>, Cur), Fault> {
        if n > self.rest(col).len() {
            Err(Fault::UnexpectedEof)
        } else {
            Ok((self.rest(col).subrange(0, n as int), self.advance(col, n)))
        }
    }

    /// Reads a varint from a column.
    pub open spec fn varint(self, col: nat) -> Result<(nat, Cur), Fault> {
        match varint::decoded(self.rest(col)) {
            Ok((value, used)) => Ok((value, self.advance(col, used))),
            Err(fault) => Err(fault),
        }
    }

    /// Reads a length from a column.
    pub open spec fn len(self, col: nat) -> Result<(nat, Cur), Fault> {
        match self.varint(col) {
            Ok((value, next)) => if value > usize::MAX {
                Err(Fault::Malformed("length overflows usize"@))
            } else {
                Ok((value, next))
            },
            Err(fault) => Err(fault),
        }
    }

    /// The bytes that the first `n` columns have left.
    pub open spec fn left(self, n: nat) -> nat
        decreases n,
    {
        if n == 0 {
            0
        } else {
            self.left((n - 1) as nat) + self.rest((n - 1) as nat).len()
        }
    }

    /// Reserves the next place for a shared object at a position.
    pub open spec fn reserve(self, col: nat) -> Cur {
        Cur { regs: self.regs.update(col as int, self.regs[col as int].push(None)), ..self }
    }

    /// Puts a shared object in its place.
    pub open spec fn fulfill(self, col: nat, key: nat, v: Val) -> Cur {
        Cur {
            regs: self.regs.update(
                col as int,
                self.regs[col as int].update(key as int, Some(v)),
            ),
            ..self
        }
    }
}

/// The count that the input may claim: as many as it has bytes left, since a
/// repeated value with a column takes at least one byte.
pub open spec fn count_limit(element_columns: nat, left: nat) -> nat {
    if element_columns == 0 {
        MAX_ZERO_COLUMN_REPEAT as nat
    } else {
        left
    }
}

/// Validates a claimed count.
pub open spec fn checked(
    what: Seq<char>,
    element_columns: nat,
    claimed: nat,
    left: nat,
) -> Result<nat, Fault> {
    if claimed > count_limit(element_columns, left) {
        Err(
            Fault::LimitExceeded(
                what,
                claimed as u64,
                count_limit(element_columns, left) as u64,
            ),
        )
    } else if claimed > usize::MAX {
        Err(Fault::Malformed("length overflows usize"@))
    } else {
        Ok(claimed)
    }
}

/// Reads a validated count from a length column.
pub open spec fn count(what: Seq<char>, element_columns: nat, col: nat, cur: Cur) -> Result<
    (nat, Cur),
    Fault,
> {
    match cur.varint(col) {
        Ok((claimed, next)) => match checked(
            what,
            element_columns,
            claimed,
            next.left(next.bufs.len()),
        ) {
            Ok(n) => Ok((n, next)),
            Err(fault) => Err(fault),
        },
        Err(fault) => Err(fault),
    }
}

/// Reads an enum tag: the variant's place in the writer's list.
pub open spec fn variant_tag(variants: nat, col: nat, cur: Cur) -> Result<(nat, Cur), Fault> {
    match cur.varint(col) {
        Ok((raw, next)) => if raw < variants {
            Ok((raw, next))
        } else {
            Err(Fault::InvalidTag("enum variant"@, raw as u64))
        },
        Err(fault) => Err(fault),
    }
}

/// Reads a byte string: its length from the first column, its bytes from the
/// second.
pub open spec fn get_bytes(base: nat, cur: Cur) -> Result<(Seq<u8>, Cur), Fault> {
    match cur.len(base) {
        Ok((n, next)) => next.take(base + 1, n),
        Err(fault) => Err(fault),
    }
}

/// The report of a repeated object that is not there to be repeated.
pub open spec fn repeat_unavailable() -> Fault {
    Fault::Message(
        "a repeated shared value cannot be materialized here; the reading field must use carbonite::Shared/SharedArc (or the value is cyclic)"@,
    )
}

/// Reads a value of `s`, whose columns start at `base`.
pub open spec fn get(s: Shape, base: nat, cur: Cur) -> Result<(Val, Cur), Fault>
    decreases s, 1nat, 0nat,
{
    match s.kind {
        Kind::Primitive(p) => match cur.take(base, primitive_width(p)) {
            Ok((bytes, next)) => match scalar_of(p, from_little_endian(bytes)) {
                Ok(x) => Ok((atom(Head::Scalar(x)), next)),
                Err(fault) => Err(fault),
            },
            Err(fault) => Err(fault),
        },
        Kind::String => match get_bytes(base, cur) {
            Ok((bytes, next)) => if valid_utf8(bytes) {
                Ok((atom(Head::Str(decode_utf8(bytes))), next))
            } else {
                Err(Fault::InvalidUtf8)
            },
            Err(fault) => Err(fault),
        },
        Kind::Bytes => match get_bytes(base, cur) {
            Ok((bytes, next)) => Ok((atom(Head::Bytes(bytes)), next)),
            Err(fault) => Err(fault),
        },
        Kind::Unit => Ok((atom(Head::Unit), cur)),
        Kind::UnitStruct => Ok((atom(Head::UnitStruct(s.name)), cur)),
        Kind::NewtypeStruct => if s.kids.len() == 1 {
            match get(s.kids[0], base, cur) {
                Ok((v, next)) => Ok(
                    (Val { head: Head::NewtypeStruct(s.name), kids: seq![v] }, next),
                ),
                Err(fault) => Err(fault),
            }
        } else {
            Err(Fault::UnexpectedEof)
        },
        Kind::Option => match cur.take(base, 1) {
            Ok((tag, next)) => if tag[0] == 0 {
                Ok((atom(Head::Absent), next))
            } else if tag[0] == 1 && s.kids.len() == 1 {
                match get(s.kids[0], base + 1, next) {
                    Ok((v, end)) => Ok((Val { head: Head::Present, kids: seq![v] }, end)),
                    Err(fault) => Err(fault),
                }
            } else {
                Err(Fault::InvalidTag("presence"@, tag[0] as u64))
            },
            Err(fault) => Err(fault),
        },
        Kind::Sequence => if s.kids.len() == 1 {
            match count("sequence length"@, width_of(s.kids[0]), base, cur) {
                Ok((n, next)) => match get_items(s, base, next, n) {
                    Ok((kids, end)) => Ok((Val { head: Head::Sequence, kids }, end)),
                    Err(fault) => Err(fault),
                },
                Err(fault) => Err(fault),
            }
        } else {
            Err(Fault::UnexpectedEof)
        },
        Kind::Mapping => if s.kids.len() == 2 {
            match count("map length"@, width_of(s.kids[0]) + width_of(s.kids[1]), base, cur) {
                Ok((n, next)) => match get_entries(s, base, next, n) {
                    Ok((kids, end)) => Ok((Val { head: Head::Mapping, kids }, end)),
                    Err(fault) => Err(fault),
                },
                Err(fault) => Err(fault),
            }
        } else {
            Err(Fault::UnexpectedEof)
        },
        Kind::Tuple => match get_fields(s, base, cur, s.kids.len()) {
            Ok((kids, end)) => Ok((Val { head: Head::Tuple, kids }, end)),
            Err(fault) => Err(fault),
        },
        Kind::TupleStruct => match get_fields(s, base, cur, s.kids.len()) {
            Ok((kids, end)) => Ok((Val { head: Head::TupleStruct(s.name), kids }, end)),
            Err(fault) => Err(fault),
        },
        Kind::Struct => match get_fields(s, base, cur, s.kids.len()) {
            Ok((kids, end)) => Ok((Val { head: Head::Struct(s.name, s.labels), kids }, end)),
            Err(fault) => Err(fault),
        },
        Kind::Enum => match variant_tag(s.kids.len(), base, cur) {
            Ok((i, next)) => if i < s.kids.len() {
                match get_fields(
                    s.kids[i as int],
                    kid_base(s, base, i),
                    next,
                    s.kids[i as int].kids.len(),
                ) {
                    Ok((kids, end)) => Ok((Val { head: variant_head(s, i), kids }, end)),
                    Err(fault) => Err(fault),
                }
            } else {
                Err(Fault::UnexpectedEof)
            },
            Err(fault) => Err(fault),
        },
        Kind::Shared => if s.kids.len() == 1 {
            match cur.varint(base) {
                Ok((key, next)) => if key < next.regs[base as int].len() {
                    match next.regs[base as int][key as int] {
                        Some(v) => Ok(
                            (Val { head: Head::Shared(key as u64), kids: seq![v] }, next),
                        ),
                        None => Err(repeat_unavailable()),
                    }
                } else if key == next.regs[base as int].len() {
                    match get(s.kids[0], base + 1, next.reserve(base)) {
                        Ok((v, end)) => Ok(
                            (
                                Val { head: Head::Shared(key as u64), kids: seq![v] },
                                end.fulfill(base, key, v),
                            ),
                        ),
                        Err(fault) => Err(fault),
                    }
                } else {
                    Err(Fault::InvalidTag("shared key"@, key as u64))
                },
                Err(fault) => Err(fault),
            }
        } else {
            Err(Fault::UnexpectedEof)
        },
        Kind::UnitVariant | Kind::NewtypeVariant | Kind::TupleVariant | Kind::StructVariant => Err(
            Fault::UnexpectedEof,
        ),
    }
}

/// The head of a value of variant `i` of the enum `s`.
pub open spec fn variant_head(s: Shape, i: nat) -> Head {
    match s.kids[i as int].kind {
        Kind::NewtypeVariant => Head::NewtypeVariant(i as u64, s.labels[i as int]),
        Kind::TupleVariant => Head::TupleVariant(i as u64, s.labels[i as int]),
        Kind::StructVariant => Head::StructVariant(
            i as u64,
            s.labels[i as int],
            s.kids[i as int].labels,
        ),
        _ => Head::UnitVariant(i as u64, s.labels[i as int]),
    }
}

/// Reads `n` elements of the sequence `s`.
pub open spec fn get_items(s: Shape, base: nat, cur: Cur, n: nat) -> Result<(Seq<Val>, Cur), Fault>
    decreases s, 0nat, n,
{
    if n == 0 || s.kids.len() != 1 {
        Ok((seq![], cur))
    } else {
        match get_items(s, base, cur, (n - 1) as nat) {
            Ok((items, next)) => match get(s.kids[0], base + 1, next) {
                Ok((v, end)) => Ok((items.push(v), end)),
                Err(fault) => Err(fault),
            },
            Err(fault) => Err(fault),
        }
    }
}

/// Reads `n` entries of the mapping `s`.
pub open spec fn get_entries(s: Shape, base: nat, cur: Cur, n: nat) -> Result<
    (Seq<Val>, Cur),
    Fault,
>
    decreases s, 0nat, n,
{
    if n == 0 || s.kids.len() != 2 {
        Ok((seq![], cur))
    } else {
        match get_entries(s, base, cur, (n - 1) as nat) {
            Ok((entries, next)) => match get(s.kids[0], base + 1, next) {
                Ok((key, keyed)) => match get(s.kids[1], base + 1 + width_of(s.kids[0]), keyed) {
                    Ok((value, end)) => Ok((entries.push(entry(key, value)), end)),
                    Err(fault) => Err(fault),
                },
                Err(fault) => Err(fault),
            },
            Err(fault) => Err(fault),
        }
    }
}

/// Reads the first `n` fields of `s`.
pub open spec fn get_fields(s: Shape, base: nat, cur: Cur, n: nat) -> Result<
    (Seq<Val>, Cur),
    Fault,
>
    decreases s, 0nat, n,
{
    if n == 0 || n > s.kids.len() {
        Ok((seq![], cur))
    } else {
        match get_fields(s, base, cur, (n - 1) as nat) {
            Ok((fields, next)) => match get(
                s.kids[n - 1],
                kid_base(s, base, (n - 1) as nat),
                next,
            ) {
                Ok((v, end)) => Ok((fields.push(v), end)),
                Err(fault) => Err(fault),
            },
            Err(fault) => Err(fault),
        }
    }
}

/// Advances past a value of `s` without materializing it.
pub open spec fn skip(s: Shape, base: nat, cur: Cur) -> Result<Cur, Fault>
    decreases s, 1nat, 0nat,
{
    match s.kind {
        Kind::Primitive(p) => match cur.take(base, primitive_width(p)) {
            Ok((_, next)) => Ok(next),
            Err(fault) => Err(fault),
        },
        Kind::String | Kind::Bytes => match get_bytes(base, cur) {
            Ok((_, next)) => Ok(next),
            Err(fault) => Err(fault),
        },
        Kind::Unit | Kind::UnitStruct => Ok(cur),
        Kind::NewtypeStruct => if s.kids.len() == 1 {
            skip(s.kids[0], base, cur)
        } else {
            Err(Fault::UnexpectedEof)
        },
        Kind::Option => match cur.take(base, 1) {
            Ok((tag, next)) => if tag[0] == 0 {
                Ok(next)
            } else if tag[0] == 1 && s.kids.len() == 1 {
                skip(s.kids[0], base + 1, next)
            } else {
                Err(Fault::InvalidTag("presence"@, tag[0] as u64))
            },
            Err(fault) => Err(fault),
        },
        Kind::Sequence => if s.kids.len() == 1 {
            match count("sequence length"@, width_of(s.kids[0]), base, cur) {
                Ok((n, next)) => skip_items(s, base, next, n),
                Err(fault) => Err(fault),
            }
        } else {
            Err(Fault::UnexpectedEof)
        },
        Kind::Mapping => if s.kids.len() == 2 {
            match count("map length"@, width_of(s.kids[0]) + width_of(s.kids[1]), base, cur) {
                Ok((n, next)) => skip_entries(s, base, next, n),
                Err(fault) => Err(fault),
            }
        } else {
            Err(Fault::UnexpectedEof)
        },
        Kind::Tuple | Kind::TupleStruct | Kind::Struct => skip_fields(s, base, cur, s.kids.len()),
        Kind::Enum => match variant_tag(s.kids.len(), base, cur) {
            Ok((i, next)) => if i < s.kids.len() {
                skip_fields(
                    s.kids[i as int],
                    kid_base(s, base, i),
                    next,
                    s.kids[i as int].kids.len(),
                )
            } else {
                Err(Fault::UnexpectedEof)
            },
            Err(fault) => Err(fault),
        },
        Kind::Shared => if s.kids.len() == 1 {
            match cur.varint(base) {
                Ok((key, next)) => if key < next.regs[base as int].len() {
                    Ok(next)
                } else if key == next.regs[base as int].len() {
                    skip(s.kids[0], base + 1, next.reserve(base))
                } else {
                    Err(Fault::InvalidTag("shared key"@, key as u64))
                },
                Err(fault) => Err(fault),
            }
        } else {
            Err(Fault::UnexpectedEof)
        },
        Kind::UnitVariant | Kind::NewtypeVariant | Kind::TupleVariant | Kind::StructVariant => Err(
            Fault::UnexpectedEof,
        ),
    }
}

/// Advances past `n` elements of the sequence `s`.
pub open spec fn skip_items(s: Shape, base: nat, cur: Cur, n: nat) -> Result<Cur, Fault>
    decreases s, 0nat, n,
{
    if n == 0 || s.kids.len() != 1 {
        Ok(cur)
    } else {
        match skip_items(s, base, cur, (n - 1) as nat) {
            Ok(next) => skip(s.kids[0], base + 1, next),
            Err(fault) => Err(fault),
        }
    }
}

/// Advances past `n` entries of the mapping `s`.
pub open spec fn skip_entries(s: Shape, base: nat, cur: Cur, n: nat) -> Result<Cur, Fault>
    decreases s, 0nat, n,
{
    if n == 0 || s.kids.len() != 2 {
        Ok(cur)
    } else {
        match skip_entries(s, base, cur, (n - 1) as nat) {
            Ok(next) => match skip(s.kids[0], base + 1, next) {
                Ok(keyed) => skip(s.kids[1], base + 1 + width_of(s.kids[0]), keyed),
                Err(fault) => Err(fault),
            },
            Err(fault) => Err(fault),
        }
    }
}

/// Advances past the first `n` fields of `s`.
pub open spec fn skip_fields(s: Shape, base: nat, cur: Cur, n: nat) -> Result<Cur, Fault>
    decreases s, 0nat, n,
{
    if n == 0 || n > s.kids.len() {
        Ok(cur)
    } else {
        match skip_fields(s, base, cur, (n - 1) as nat) {
            Ok(next) => skip(s.kids[n - 1], kid_base(s, base, (n - 1) as nat), next),
            Err(fault) => Err(fault),
        }
    }
}


/// Two readers stand at the same places, and have seen as many shared objects,
/// though they may not have kept them all.
pub open spec fn same_places(a: Cur, b: Cur) -> bool {
    &&& a.bufs == b.bufs
    &&& a.pos == b.pos
    &&& a.regs.len() == b.regs.len()
    &&& forall|c: int|
        #![trigger a.regs[c]]
        #![trigger b.regs[c]]
        0 <= c < a.regs.len() ==> a.regs[c].len() == b.regs[c].len()
}

proof fn lemma_same_left(a: Cur, b: Cur, n: nat)
    requires
        same_places(a, b),
    ensures
        a.left(n) == b.left(n),
    decreases n,
{
    if n > 0 {
        lemma_same_left(a, b, (n - 1) as nat);
    }
}

proof fn lemma_same_count(what: Seq<char>, element_columns: nat, col: nat, a: Cur, b: Cur)
    requires
        same_places(a, b),
    ensures
        match count(what, element_columns, col, a) {
            Ok((n, next)) => count(what, element_columns, col, b) is Ok && count(
                what,
                element_columns,
                col,
                b,
            )->Ok_0.0 == n && same_places(
                next,
                count(what, element_columns, col, b)->Ok_0.1,
            ),
            Err(fault) => count(what, element_columns, col, b) == Err::<(nat, Cur), Fault>(fault),
        },
{
    if let Ok((claimed, next)) = a.varint(col) {
        let other = b.varint(col)->Ok_0.1;
        lemma_same_left(next, other, next.bufs.len());
    }
}

/// Skipping a value moves on exactly as far as reading it does.
pub proof fn lemma_skip_get(s: Shape, base: nat, a: Cur, b: Cur)
    requires
        same_places(a, b),
        a.sized(),
        base + width_of(s) <= a.bufs.len(),
        s.well_formed(),
        get(s, base, a) is Ok,
    ensures
        skip(s, base, b) is Ok,
        same_places(get(s, base, a)->Ok_0.1, skip(s, base, b)->Ok_0),
    decreases s, 1nat, 0nat,
{
    match s.kind {
        Kind::NewtypeStruct => {
            crate::shape::lemma_one_kid_columns(s);
            lemma_skip_get(s.kids[0], base, a, b);
        },
        Kind::Option => {
            crate::shape::lemma_one_kid_columns(s);
            let (tag, next) = a.take(base, 1)->Ok_0;
            let other = b.take(base, 1)->Ok_0.1;
            assert(same_places(next, other));
            if tag[0] == 1 {
                lemma_skip_get(s.kids[0], base + 1, next, other);
            }
        },
        Kind::Sequence => {
            crate::shape::lemma_one_kid_columns(s);
            lemma_same_count("sequence length"@, width_of(s.kids[0]), base, a, b);
            let (n, next) = count("sequence length"@, width_of(s.kids[0]), base, a)->Ok_0;
            let other = count("sequence length"@, width_of(s.kids[0]), base, b)->Ok_0.1;
            lemma_skip_items(s, base, next, other, n);
        },
        Kind::Mapping => {
            crate::shape::lemma_two_kids_columns(s);
            let width = width_of(s.kids[0]) + width_of(s.kids[1]);
            lemma_same_count("map length"@, width, base, a, b);
            let (n, next) = count("map length"@, width, base, a)->Ok_0;
            let other = count("map length"@, width, base, b)->Ok_0.1;
            lemma_skip_entries(s, base, next, other, n);
        },
        Kind::Tuple | Kind::TupleStruct | Kind::Struct => {
            lemma_skip_fields(s, base, a, b, s.kids.len());
        },
        Kind::Enum => {
            let (i, next) = variant_tag(s.kids.len(), base, a)->Ok_0;
            let other = variant_tag(s.kids.len(), base, b)->Ok_0.1;
            crate::shape::lemma_kid_columns(s, i);
            assert(s.kids[i as int].well_formed());
            assert(same_places(next, other));
            lemma_skip_fields(
                s.kids[i as int],
                kid_base(s, base, i),
                next,
                other,
                s.kids[i as int].kids.len(),
            );
        },
        Kind::Shared => {
            crate::shape::lemma_one_kid_columns(s);
            let (key, next) = a.varint(base)->Ok_0;
            let other = b.varint(base)->Ok_0.1;
            assert(same_places(next, other));
            assert(next.regs[base as int].len() == other.regs[base as int].len());
            if key == next.regs[base as int].len() {
                assert(same_places(next.reserve(base), other.reserve(base)));
                lemma_skip_get(s.kids[0], base + 1, next.reserve(base), other.reserve(base));
                lemma_get_within(s.kids[0], base + 1, next.reserve(base));
                let end = get(s.kids[0], base + 1, next.reserve(base))->Ok_0.1;
                assert(end.regs[base as int] == next.reserve(base).regs[base as int]);
            }
        },
        _ => {},
    }
}

proof fn lemma_skip_items(s: Shape, base: nat, a: Cur, b: Cur, n: nat)
    requires
        same_places(a, b),
        a.sized(),
        s.kids.len() == 1,
        base + 1 + width_of(s.kids[0]) <= a.bufs.len(),
        s.well_formed(),
        get_items(s, base, a, n) is Ok,
    ensures
        skip_items(s, base, b, n) is Ok,
        same_places(get_items(s, base, a, n)->Ok_0.1, skip_items(s, base, b, n)->Ok_0),
        get_items(s, base, a, n)->Ok_0.1.sized(),
        get_items(s, base, a, n)->Ok_0.1.bufs == a.bufs,
    decreases s, 0nat, n,
{
    if n > 0 {
        lemma_skip_items(s, base, a, b, (n - 1) as nat);
        let next = get_items(s, base, a, (n - 1) as nat)->Ok_0.1;
        let other = skip_items(s, base, b, (n - 1) as nat)->Ok_0;
        lemma_skip_get(s.kids[0], base + 1, next, other);
        lemma_get_within(s.kids[0], base + 1, next);
    }
}

proof fn lemma_skip_entries(s: Shape, base: nat, a: Cur, b: Cur, n: nat)
    requires
        same_places(a, b),
        a.sized(),
        s.kids.len() == 2,
        base + 1 + width_of(s.kids[0]) + width_of(s.kids[1]) <= a.bufs.len(),
        s.well_formed(),
        get_entries(s, base, a, n) is Ok,
    ensures
        skip_entries(s, base, b, n) is Ok,
        same_places(get_entries(s, base, a, n)->Ok_0.1, skip_entries(s, base, b, n)->Ok_0),
        get_entries(s, base, a, n)->Ok_0.1.sized(),
        get_entries(s, base, a, n)->Ok_0.1.bufs == a.bufs,
    decreases s, 0nat, n,
{
    if n > 0 {
        lemma_skip_entries(s, base, a, b, (n - 1) as nat);
        let next = get_entries(s, base, a, (n - 1) as nat)->Ok_0.1;
        let other = skip_entries(s, base, b, (n - 1) as nat)->Ok_0;
        lemma_skip_get(s.kids[0], base + 1, next, other);
        lemma_get_within(s.kids[0], base + 1, next);
        let next2 = get(s.kids[0], base + 1, next)->Ok_0.1;
        let other2 = skip(s.kids[0], base + 1, other)->Ok_0;
        lemma_skip_get(s.kids[1], base + 1 + width_of(s.kids[0]), next2, other2);
        lemma_get_within(s.kids[1], base + 1 + width_of(s.kids[0]), next2);
    }
}

proof fn lemma_skip_fields(s: Shape, base: nat, a: Cur, b: Cur, n: nat)
    requires
        same_places(a, b),
        a.sized(),
        n <= s.kids.len(),
        base + width_of(s) <= a.bufs.len(),
        s.well_formed(),
        get_fields(s, base, a, n) is Ok,
    ensures
        skip_fields(s, base, b, n) is Ok,
        same_places(get_fields(s, base, a, n)->Ok_0.1, skip_fields(s, base, b, n)->Ok_0),
        get_fields(s, base, a, n)->Ok_0.1.sized(),
        get_fields(s, base, a, n)->Ok_0.1.bufs == a.bufs,
    decreases s, 0nat, n,
{
    if n > 0 {
        let i = (n - 1) as nat;
        lemma_skip_fields(s, base, a, b, i);
        let next = get_fields(s, base, a, i)->Ok_0.1;
        let other = skip_fields(s, base, b, i)->Ok_0;
        crate::shape::lemma_kid_columns(s, i);
        lemma_skip_get(s.kids[i as int], kid_base(s, base, i), next, other);
        lemma_get_within(s.kids[i as int], kid_base(s, base, i), next);
    }
}

/// Nothing but `width` columns from `base` on has been read, and the columns
/// themselves are the same.
pub open spec fn reads_within(before: Cur, after: Cur, base: nat, width: nat) -> bool {
    &&& after.sized()
    &&& after.bufs == before.bufs
    &&& forall|c: int|
        0 <= c < before.bufs.len() && !(base <= c < base + width) ==> #[trigger] after.pos[c]
            == before.pos[c]
    &&& forall|c: int|
        0 <= c < before.bufs.len() && !(base <= c < base + width) ==> #[trigger] after.regs[c]
            == before.regs[c]
}

/// Reading a value moves on in the columns of its schema alone.
pub proof fn lemma_get_within(s: Shape, base: nat, cur: Cur)
    requires
        cur.sized(),
        s.well_formed(),
        base + width_of(s) <= cur.bufs.len(),
        get(s, base, cur) is Ok,
    ensures
        reads_within(cur, get(s, base, cur)->Ok_0.1, base, width_of(s)),
    decreases s, 1nat, 0nat,
{
    match s.kind {
        Kind::NewtypeStruct => {
            crate::shape::lemma_one_kid_columns(s);
            lemma_get_within(s.kids[0], base, cur);
        },
        Kind::Option => {
            crate::shape::lemma_one_kid_columns(s);
            let (tag, next) = cur.take(base, 1)->Ok_0;
            if tag[0] == 1 {
                lemma_get_within(s.kids[0], base + 1, next);
            }
        },
        Kind::Sequence => {
            crate::shape::lemma_one_kid_columns(s);
            let (n, next) = count("sequence length"@, width_of(s.kids[0]), base, cur)->Ok_0;
            lemma_get_items_within(s, base, next, n);
        },
        Kind::Mapping => {
            crate::shape::lemma_two_kids_columns(s);
            let (n, next) = count(
                "map length"@,
                width_of(s.kids[0]) + width_of(s.kids[1]),
                base,
                cur,
            )->Ok_0;
            lemma_get_entries_within(s, base, next, n);
        },
        Kind::Tuple | Kind::TupleStruct | Kind::Struct => {
            lemma_get_fields_within(s, base, cur, s.kids.len());
        },
        Kind::Enum => {
            let (i, next) = variant_tag(s.kids.len(), base, cur)->Ok_0;
            crate::shape::lemma_kid_columns(s, i);
            assert(s.kids[i as int].well_formed());
            lemma_get_fields_within(
                s.kids[i as int],
                kid_base(s, base, i),
                next,
                s.kids[i as int].kids.len(),
            );
        },
        Kind::Shared => {
            crate::shape::lemma_one_kid_columns(s);
            let (key, next) = cur.varint(base)->Ok_0;
            if key == next.regs[base as int].len() {
                lemma_get_within(s.kids[0], base + 1, next.reserve(base));
            }
        },
        _ => {},
    }
}

proof fn lemma_get_items_within(s: Shape, base: nat, cur: Cur, n: nat)
    requires
        cur.sized(),
        s.well_formed(),
        s.kids.len() == 1,
        base + 1 + width_of(s.kids[0]) <= cur.bufs.len(),
        get_items(s, base, cur, n) is Ok,
    ensures
        reads_within(cur, get_items(s, base, cur, n)->Ok_0.1, base + 1, width_of(s.kids[0])),
    decreases s, 0nat, n,
{
    if n > 0 {
        lemma_get_items_within(s, base, cur, (n - 1) as nat);
        lemma_get_within(
            s.kids[0],
            base + 1,
            get_items(s, base, cur, (n - 1) as nat)->Ok_0.1,
        );
    }
}

proof fn lemma_get_entries_within(s: Shape, base: nat, cur: Cur, n: nat)
    requires
        cur.sized(),
        s.well_formed(),
        s.kids.len() == 2,
        base + 1 + width_of(s.kids[0]) + width_of(s.kids[1]) <= cur.bufs.len(),
        get_entries(s, base, cur, n) is Ok,
    ensures
        reads_within(
            cur,
            get_entries(s, base, cur, n)->Ok_0.1,
            base + 1,
            width_of(s.kids[0]) + width_of(s.kids[1]),
        ),
    decreases s, 0nat, n,
{
    if n > 0 {
        lemma_get_entries_within(s, base, cur, (n - 1) as nat);
        let next = get_entries(s, base, cur, (n - 1) as nat)->Ok_0.1;
        lemma_get_within(s.kids[0], base + 1, next);
        lemma_get_within(
            s.kids[1],
            base + 1 + width_of(s.kids[0]),
            get(s.kids[0], base + 1, next)->Ok_0.1,
        );
    }
}

proof fn lemma_get_fields_within(s: Shape, base: nat, cur: Cur, n: nat)
    requires
        cur.sized(),
        s.well_formed(),
        n <= s.kids.len(),
        base + width_of(s) <= cur.bufs.len(),
        get_fields(s, base, cur, n) is Ok,
    ensures
        reads_within(cur, get_fields(s, base, cur, n)->Ok_0.1, base, width_of(s)),
    decreases s, 0nat, n,
{
    if n > 0 {
        crate::shape::lemma_kid_columns(s, (n - 1) as nat);
        lemma_get_fields_within(s, base, cur, (n - 1) as nat);
        lemma_get_within(
            s.kids[n - 1],
            kid_base(s, base, (n - 1) as nat),
            get_fields(s, base, cur, (n - 1) as nat)->Ok_0.1,
        );
    }
}

} // verus!
