//! The columnar fast path for boxed slices and strings, and for the numeric
//! wrappers and bounds of std.

use std::num::Wrapping;
use std::ops::Bound;

use vstd::prelude::*;

use crate::columnar::{invalid_variant, write_varint, ColumnCursor};
use crate::error::{Fault, Result};
use crate::get::{get_fields, variant_head, variant_tag, Cur};
use crate::put::{find_variant, prefix, Row};
use crate::roundtrip::readable;
use crate::schema::{labels, variant_shapes, SchemaNode, VariantNode};
use crate::shape::{
    columns_before, kid_base, lemma_one_kid_columns, node, width_of, Kind, Shape,
};
use crate::static_schema::StaticSchema;
use crate::typed_de::{
    lemma_back_str, lemma_field, lemma_stands_part, lemma_vec_back, nothing, passed, read_part, rejoin, window,
    DeserializeColumns, RoundTrip,
};
use crate::typed_ser::{
    appended, blank, lemma_image_len, lemma_stamp_append, lemma_stamp_blank, lemma_stamp_twice,
    stamped, straight, Modeled, SerializeColumns, Walk,
};
use crate::typed_std::list_image;
use crate::value::{atom, Head, Val};
use crate::varint;

verus! {

// ---------------------------------------------------------------------------
// Boxed slices and strings.
// ---------------------------------------------------------------------------

/// `Vec::into_boxed_slice`: the box holds the items of the vector.
#[verifier::external_body]
fn into_boxed_slice<T>(items: Vec<T>) -> (result: Box<[T]>)
    ensures
        result@ == items@,
{
    items.into_boxed_slice()
}

/// `String::into_boxed_str`: the box holds the characters of the string.
#[verifier::external_body]
fn into_boxed_str(text: String) -> (result: Box<str>)
    ensures
        result@ == text@,
{
    text.into_boxed_str()
}

impl<'de, T: DeserializeColumns<'de>> DeserializeColumns<'de> for Box<[T]> {
    open spec fn sound() -> bool {
        T::sound()
    }

    open spec fn read(cur: Cur) -> std::result::Result<(Val, Cur), Fault> {
        <Vec<T>>::read(cur)
    }

    proof fn lemma_read(base: nat, cur: Cur) {
        <Vec<T>>::lemma_read(base, cur);
    }

    fn deserialize_columns(cursors: &mut [ColumnCursor<'de>]) -> (result: Result<Self>) {
        match <Vec<T>>::deserialize_columns(cursors) {
            Ok(items) => Ok(into_boxed_slice(items)),
            Err(error) => Err(error),
        }
    }
}

impl<'de, T: RoundTrip<'de>> RoundTrip<'de> for Box<[T]> {
    proof fn lemma_read_back(&self, w: Walk, cur: Cur) {
        assert(self.image(w) == list_image(self@, w));
        lemma_vec_back(self@, w, self.val(w), cur);
    }
}

impl<'de> DeserializeColumns<'de> for Box<str> {
    open spec fn sound() -> bool {
        true
    }

    open spec fn read(cur: Cur) -> std::result::Result<(Val, Cur), Fault> {
        <String>::read(cur)
    }

    proof fn lemma_read(base: nat, cur: Cur) {
        <String>::lemma_read(base, cur);
    }

    fn deserialize_columns(cursors: &mut [ColumnCursor<'de>]) -> (result: Result<Self>) {
        match <String>::deserialize_columns(cursors) {
            Ok(text) => Ok(into_boxed_str(text)),
            Err(error) => Err(error),
        }
    }
}

impl<'de> RoundTrip<'de> for Box<str> {
    proof fn lemma_read_back(&self, w: Walk, cur: Cur) {
        lemma_back_str(self@, cur);
    }
}

// ---------------------------------------------------------------------------
// Wrapping arithmetic.
// ---------------------------------------------------------------------------

/// `std::num::Wrapping`, with its only field.
#[verifier::external_type_specification]
pub struct ExWrapping<T>(std::num::Wrapping<T>);

impl<T: StaticSchema> StaticSchema for Wrapping<T> {
    open spec fn node() -> Shape {
        T::node()
    }

    proof fn lemma_node() {
        T::lemma_node();
    }

    fn schema_node() -> SchemaNode {
        T::schema_node()
    }

    fn columns() -> usize {
        T::columns()
    }

    fn fixed_width() -> Option<usize> {
        T::fixed_width()
    }
}

impl<T: Modeled> Modeled for Wrapping<T> {
    open spec fn val(&self, w: Walk) -> Val {
        self.0.val(w)
    }

    open spec fn stands_for(&self, v: Val) -> bool {
        self.0.stands_for(v)
    }
}

impl<T: SerializeColumns> SerializeColumns for Wrapping<T> {
    open spec fn writes(&self) -> bool {
        self.0.writes()
    }

    open spec fn refusal(&self) -> Option<Fault> {
        self.0.refusal()
    }

    open spec fn image(&self, w: Walk) -> Seq<Seq<u8>> {
        self.0.image(w)
    }

    proof fn lemma_image(&self, w: Walk, base: nat, row: Row) {
        self.0.lemma_image(w, base, row);
    }

    fn serialize_columns(&self, columns: &mut [Vec<u8>]) -> (result: Result<()>) {
        assert forall|w: Walk| #[trigger] self.0.image(w) == self.image(w) by {}
        self.0.serialize_columns(columns)
    }
}

impl<'de, T: DeserializeColumns<'de>> DeserializeColumns<'de> for Wrapping<T> {
    open spec fn sound() -> bool {
        T::sound()
    }

    open spec fn read(cur: Cur) -> std::result::Result<(Val, Cur), Fault> {
        T::read(cur)
    }

    proof fn lemma_read(base: nat, cur: Cur) {
        T::lemma_read(base, cur);
    }

    fn deserialize_columns(cursors: &mut [ColumnCursor<'de>]) -> (result: Result<Self>) {
        match T::deserialize_columns(cursors) {
            Ok(x) => Ok(Wrapping(x)),
            Err(error) => Err(error),
        }
    }
}

impl<'de, T: RoundTrip<'de>> RoundTrip<'de> for Wrapping<T> {
    proof fn lemma_read_back(&self, w: Walk, cur: Cur) {
        self.0.lemma_read_back(w, cur);
    }
}

// ---------------------------------------------------------------------------
// Bounds.
// ---------------------------------------------------------------------------

/// `std::ops::Bound`, with its variants.
#[verifier::external_type_specification]
pub struct ExBound<T>(std::ops::Bound<T>);

/// The schema of a bound of values of `s`.
pub open spec fn bound_shape(s: Shape) -> Shape {
    Shape {
        kind: Kind::Enum,
        name: "Bound"@,
        labels: seq!["Unbounded"@, "Included"@, "Excluded"@],
        kids: seq![
            node(Kind::UnitVariant, seq![], seq![]),
            node(Kind::NewtypeVariant, seq![], seq![s]),
            node(Kind::NewtypeVariant, seq![], seq![s]),
        ],
    }
}

proof fn lemma_bound_columns(s: Shape)
    ensures
        ({
            let b = bound_shape(s);
            let width = width_of(s);
            &&& width_of(b.kids[0]) == 0
            &&& width_of(b.kids[1]) == width
            &&& width_of(b.kids[2]) == width
            &&& columns_before(b, 0) == 0
            &&& columns_before(b, 1) == 0
            &&& columns_before(b, 2) == width
            &&& width_of(b) == 1 + width + width
        }),
{
    let b = bound_shape(s);
    reveal_with_fuel(columns_before, 4);
    lemma_one_kid_columns(b.kids[1]);
    lemma_one_kid_columns(b.kids[2]);
    assert(columns_before(b.kids[0], 0) == 0);
    assert(columns_before(b, 1) == columns_before(b, 0) + width_of(b.kids[0]));
    assert(columns_before(b, 2) == columns_before(b, 1) + width_of(b.kids[1]));
    assert(columns_before(b, 3) == columns_before(b, 2) + width_of(b.kids[2]));
}

impl<T: StaticSchema> StaticSchema for Bound<T> {
    open spec fn node() -> Shape {
        bound_shape(T::node())
    }

    proof fn lemma_node() {
        T::lemma_node();
        assert(node(Kind::UnitVariant, seq![], seq![]).well_formed());
        assert(node(Kind::NewtypeVariant, seq![], seq![T::node()]).well_formed());
    }

    fn schema_node() -> SchemaNode {
        let mut variants: Vec<(String, VariantNode)> = Vec::new();
        variants.push(("Unbounded".to_owned(), VariantNode::Unit));
        variants.push(("Included".to_owned(), VariantNode::Newtype(Box::new(T::schema_node()))));
        variants.push(("Excluded".to_owned(), VariantNode::Newtype(Box::new(T::schema_node()))));
        assert(variant_shapes(variants@) =~= Self::node().kids);
        assert(labels(variants@) =~= Self::node().labels);
        SchemaNode::Enum { name: "Bound".to_owned(), variants }
    }

    fn columns() -> usize {
        proof {
            lemma_bound_columns(T::node());
        }
        let part = T::columns();
        1 + part + part
    }

    fn fixed_width() -> Option<usize> {
        None
    }
}

impl<T: Modeled> Modeled for Bound<T> {
    open spec fn val(&self, w: Walk) -> Val {
        match *self {
            Bound::Unbounded => atom(Head::UnitVariant(0, "Unbounded"@)),
            Bound::Included(x) => Val {
                head: Head::NewtypeVariant(1, "Included"@),
                kids: seq![x.val(w)],
            },
            Bound::Excluded(x) => Val {
                head: Head::NewtypeVariant(2, "Excluded"@),
                kids: seq![x.val(w)],
            },
        }
    }

    open spec fn stands_for(&self, v: Val) -> bool {
        match *self {
            Bound::Unbounded => v == atom(Head::UnitVariant(0, "Unbounded"@)),
            Bound::Included(x) => {
                &&& v.head == Head::NewtypeVariant(1, "Included"@)
                &&& v.kids.len() == 1
                &&& x.stands_for(v.kids[0])
            },
            Bound::Excluded(x) => {
                &&& v.head == Head::NewtypeVariant(2, "Excluded"@)
                &&& v.kids.len() == 1
                &&& x.stands_for(v.kids[0])
            },
        }
    }
}

impl<T: SerializeColumns> SerializeColumns for Bound<T> {
    open spec fn writes(&self) -> bool {
        match *self {
            Bound::Unbounded => true,
            Bound::Included(x) => x.writes(),
            Bound::Excluded(x) => x.writes(),
        }
    }

    open spec fn refusal(&self) -> Option<Fault> {
        match *self {
            Bound::Unbounded => None,
            Bound::Included(x) => x.refusal(),
            Bound::Excluded(x) => x.refusal(),
        }
    }

    open spec fn image(&self, w: Walk) -> Seq<Seq<u8>> {
        let width = width_of(T::node());
        match *self {
            Bound::Unbounded => seq![varint::encoded(0)] + blank(width + width),
            Bound::Included(x) => seq![varint::encoded(1)] + x.image(w) + blank(width),
            Bound::Excluded(x) => seq![varint::encoded(2)] + blank(width) + x.image(w),
        }
    }

    proof fn lemma_image(&self, w: Walk, base: nat, row: Row) {
        let s = Self::node();
        lemma_bound_columns(T::node());
        let width = width_of(T::node());
        match *self {
            Bound::Unbounded => {
                let head = seq![varint::encoded(0)];
                lemma_stamp_append(row, base, varint::encoded(0));
                lemma_stamp_twice(row, base, head, blank(width + width));
                lemma_stamp_blank(stamped(row, base, head), base + 1, width + width);
                assert(find_variant(s.labels, 0, "Unbounded"@) == Some(0nat));
            },
            Bound::Included(x) => {
                let head = seq![varint::encoded(1)];
                lemma_stamp_append(row, base, varint::encoded(1));
                let tagged = stamped(row, base, head);
                x.lemma_image(w, base + 1, tagged);
                lemma_stamp_twice(row, base, head, x.image(w));
                lemma_stamp_twice(row, base, head + x.image(w), blank(width));
                lemma_stamp_blank(stamped(row, base, head + x.image(w)), base + 1 + width, width);
                assert(find_variant(s.labels, 1, "Included"@) == Some(1nat));
                assert(kid_base(s, base, 1) == base + 1);
            },
            Bound::Excluded(x) => {
                let head = seq![varint::encoded(2)];
                lemma_stamp_append(row, base, varint::encoded(2));
                let tagged = stamped(row, base, head);
                lemma_stamp_twice(row, base, head, blank(width));
                lemma_stamp_blank(tagged, base + 1, width);
                x.lemma_image(w, base + 1 + width, tagged);
                lemma_stamp_twice(row, base, head + blank(width), x.image(w));
                assert(find_variant(s.labels, 2, "Excluded"@) == Some(2nat));
                assert(kid_base(s, base, 2) == base + 1 + width);
            },
        }
    }

    fn serialize_columns(&self, columns: &mut [Vec<u8>]) -> (result: Result<()>) {
        let ghost before = columns@;
        let ghost width = width_of(T::node());
        assert(columns@.len() == columns.len());
        proof {
            lemma_bound_columns(T::node());
        }
        let (head, rest) = columns.split_at_mut(1);
        let (first, second) = rest.split_at_mut(T::columns());
        match self {
            Bound::Unbounded => {
                write_varint(&mut head[0], 0);
                let ghost image = self.image(straight());
                assert(image[0] == varint::encoded(0));
                assert forall|c: int| 1 <= c < before.len() implies before[c]@ + image[c]
                    == #[trigger] before[c]@ by {
                    assert(before[c]@ + image[c] =~= before[c]@);
                }
                Ok(())
            },
            Bound::Included(x) => {
                write_varint(&mut head[0], 1);
                let ghost part = first@;
                let result = x.serialize_columns(first);
                proof {
                    if x.writes() {
                        let w = choose|w: Walk| appended(part, first@, #[trigger] x.image(w));
                        lemma_image_len(x, w);
                        let image = self.image(w);
                        assert(image == seq![varint::encoded(1)] + x.image(w) + blank(width));
                        assert(image.len() == before.len());
                        assert(image[0] == varint::encoded(1));
                        assert forall|c: int| 1 <= c < 1 + width implies #[trigger] image[c]
                            == x.image(w)[c - 1] by {}
                        assert forall|c: int| 0 <= c < before.len() && c > width implies before[c]@
                            + self.image(w)[c] == #[trigger] before[c]@ by {
                            assert(before[c]@ + self.image(w)[c] =~= before[c]@);
                        }
                    }
                }
                result
            },
            Bound::Excluded(x) => {
                write_varint(&mut head[0], 2);
                let ghost part = second@;
                let result = x.serialize_columns(second);
                proof {
                    if x.writes() {
                        let w = choose|w: Walk| appended(part, second@, #[trigger] x.image(w));
                        lemma_image_len(x, w);
                        let image = self.image(w);
                        assert(image.len() == before.len());
                        assert(image[0] == varint::encoded(2));
                        assert forall|c: int| 1 <= c < 1 + width implies before[c]@ + self.image(w)[c]
                            == #[trigger] before[c]@ by {
                            assert(before[c]@ + self.image(w)[c] =~= before[c]@);
                        }
                    }
                }
                result
            },
        }
    }
}

/// What is read of a bound whose value stands at `off`, after its tag.
pub open spec fn read_bound<'de, T: DeserializeColumns<'de>>(
    head: Head,
    next: Cur,
    off: nat,
) -> std::result::Result<(Val, Cur), Fault> {
    match T::read(window(next, off, width_of(T::node()))) {
        Ok((v, end)) => Ok((Val { head, kids: seq![v] }, rejoin(next, off, end))),
        Err(fault) => Err(fault),
    }
}

impl<'de, T: DeserializeColumns<'de>> DeserializeColumns<'de> for Bound<T> {
    open spec fn sound() -> bool {
        T::sound()
    }

    open spec fn read(cur: Cur) -> std::result::Result<(Val, Cur), Fault> {
        match cur.varint(0) {
            Ok((tag, next)) => if tag == 0 {
                Ok((atom(Head::UnitVariant(0, "Unbounded"@)), next))
            } else if tag == 1 {
                read_bound::<T>(Head::NewtypeVariant(1, "Included"@), next, 1)
            } else if tag == 2 {
                read_bound::<T>(
                    Head::NewtypeVariant(2, "Excluded"@),
                    next,
                    1 + width_of(T::node()),
                )
            } else {
                Err(Fault::InvalidTag("enum variant"@, tag as u64))
            },
            Err(fault) => Err(fault),
        }
    }

    proof fn lemma_read(base: nat, cur: Cur) {
        let s = Self::node();
        lemma_bound_columns(T::node());
        let width = width_of(T::node());
        let part = window(cur, base, width_of(s));
        assert(part.rest(0) =~= cur.rest(base));
        let (tag, used) = varint::decoded(part.rest(0))->Ok_0;
        let next = part.advance(0, used);
        let other = cur.advance(base, used);
        assert(window(other, base, width_of(s)) == next) by {
            assert(window(other, base, width_of(s)).bufs =~= next.bufs);
            assert(window(other, base, width_of(s)).pos =~= next.pos);
            assert(window(other, base, width_of(s)).regs =~= next.regs);
        }
        assert(rejoin(other, base, next) == other) by {
            assert(rejoin(other, base, next).pos =~= other.pos);
        }
        assert(variant_tag(3, base, cur) == Ok::<(nat, Cur), Fault>((tag, other)));
        let k = s.kids[tag as int];
        assert(get_fields(k, kid_base(s, base, tag), other, 0) == Ok::<(Seq<Val>, Cur), Fault>(
            (seq![], other),
        ));
        if tag == 0 {
            assert(variant_head(s, 0) == Head::UnitVariant(0, "Unbounded"@));
            assert(rejoin(cur, base, next).pos =~= other.pos);
        } else {
            let off: nat = if tag == 1 {
                1
            } else {
                1 + width
            };
            assert(kid_base(k, kid_base(s, base, tag), 0) == kid_base(s, base, tag));
            assert(kid_base(s, base, tag) == base + off);
            lemma_field::<T>(other, base, width_of(s), next, off);
            let (v, end) = T::read(window(next, off, width))->Ok_0;
            assert(Seq::<Val>::empty().push(v) =~= seq![v]);
            assert(rejoin(other, base, rejoin(next, off, end)).pos =~= rejoin(
                cur,
                base,
                rejoin(next, off, end),
            ).pos);
            assert(get_fields(k, kid_base(s, base, tag), other, 1) == Ok::<(Seq<Val>, Cur), Fault>(
                (seq![v], rejoin(cur, base, rejoin(next, off, end))),
            ));
        }
    }

    fn deserialize_columns(cursors: &mut [ColumnCursor<'de>]) -> (result: Result<Self>) {
        proof {
            lemma_bound_columns(T::node());
        }
        assert(cursors@.len() == cursors.len());
        let ghost columns = cursors@.len();
        match crate::de::read_varint(cursors, 0, Ghost(nothing(columns))) {
            Ok(tag) => {
                if tag == 0 {
                    Ok(Bound::Unbounded)
                } else if tag == 1 {
                    match read_part::<T>(cursors, 1) {
                        Ok(x) => Ok(Bound::Included(x)),
                        Err(error) => Err(error),
                    }
                } else if tag == 2 {
                    match read_part::<T>(cursors, 1 + T::columns()) {
                        Ok(x) => Ok(Bound::Excluded(x)),
                        Err(error) => Err(error),
                    }
                } else {
                    Err(invalid_variant(tag))
                }
            },
            Err(error) => Err(error),
        }
    }
}

impl<'de, T: RoundTrip<'de>> RoundTrip<'de> for Bound<T> {
    proof fn lemma_read_back(&self, w: Walk, cur: Cur) {
        let s = Self::node();
        lemma_bound_columns(T::node());
        let width = width_of(T::node());
        let image = self.image(w);
        let tag: u64 = match *self {
            Bound::Unbounded => 0,
            Bound::Included(_) => 1,
            Bound::Excluded(_) => 2,
        };
        let code = varint::encoded(tag as nat);
        assert(image[0] == code);
        assert(prefix(image[0], cur.rest(0)));
        let tail = cur.rest(0).subrange(code.len() as int, cur.rest(0).len() as int);
        assert(cur.rest(0) =~= code + tail);
        varint::lemma_decode_encode(tag, tail);
        let next = cur.advance(0, code.len());
        match *self {
            Bound::Unbounded => {
                assert(next.pos =~= passed(cur, image).pos);
            },
            Bound::Included(x) => {
                lemma_image_len(&x, w);
                assert(image.subrange(1, (1 + width) as int) =~= x.image(w));
                lemma_stands_part(cur, next, image, 1, width);
                assert(readable(x.val(w), T::node())) by {
                    assert(self.val(w).kids[0] == x.val(w));
                    assert(find_variant(s.labels, 1, "Included"@) == Some(1nat));
                }
                x.lemma_read_back(w, window(next, 1, width));
                assert(rejoin(next, 1, passed(window(next, 1, width), x.image(w))).pos =~= passed(
                    cur,
                    image,
                ).pos);
            },
            Bound::Excluded(x) => {
                lemma_image_len(&x, w);
                assert(image.subrange((1 + width) as int, (1 + width + width) as int) =~= x.image(w));
                lemma_stands_part(cur, next, image, 1 + width, width);
                assert(readable(x.val(w), T::node())) by {
                    assert(self.val(w).kids[0] == x.val(w));
                    assert(find_variant(s.labels, 2, "Excluded"@) == Some(2nat));
                }
                x.lemma_read_back(w, window(next, 1 + width, width));
                assert(rejoin(next, 1 + width, passed(window(next, 1 + width, width), x.image(w))).pos
                    =~= passed(cur, image).pos);
            },
        }
    }
}

} // verus!
