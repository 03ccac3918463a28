//! What a reader is given for what it asks.

use vstd::prelude::*;

use crate::error::{Error, Fault, Result};
use crate::node::{Node, VariantKind};
use crate::shape::{kid_base, lemma_one_kid_columns, Kind, Shape};
use crate::spot::{is_product, wrapped, FieldList, Spot, VariantSpot};
use crate::text::{self, decimal};
use crate::value::SHARED_TOKEN;

verus! {

/// What a reader asks for.
pub enum Ask<'a> {
    /// Whatever comes.
    Any,
    /// An optional value.
    Option,
    /// Nothing: the value is ignored, or the type stores nothing.
    Nothing,
    /// A newtype struct of this name.
    Newtype(&'a str),
    /// Named fields; these are their names and aliases.
    Struct(&'a [&'a str]),
    /// Positional fields: a tuple or a tuple struct.
    Positional,
}

/// The names in a reader's field list.
pub open spec fn names(fields: Seq<&str>) -> Seq<Seq<char>> {
    fields.map_values(|field: &str| field@)
}

/// Whether the reading type tags any of its fields with one of the writer's
/// positions `"0"`..`"count-1"`, which is how it opts into index matching for
/// a payload the writer recorded positionally.
pub open spec fn tags_position(fields: Seq<Seq<char>>, count: nat) -> bool {
    exists|i: nat| i < count && #[trigger] fields.contains(decimal(i))
}

/// What the reader is given.
pub enum Given {
    /// Whatever the schema says is next.
    Dispatch,
    /// The value itself, as present.
    Present,
    /// Nothing, after skipping the value.
    Skip,
    /// The inside of the newtype struct, in the reader's wrapper.
    Inner,
    /// The value itself, in the reader's wrapper.
    Wrapped,
    /// The shared object.
    Shared,
    /// The fields in the writer's order.
    Product,
    /// The fields by the writer's names.
    ByName,
    /// The fields by number.
    Numbered,
    /// The value itself, as field number 0.
    NumberedSelf,
}

/// The report of a named payload reaching a tuple.
pub open spec fn named_refused() -> Fault {
    Fault::SchemaMismatch(
        "a reader with named fields, matched by name"@,
        "a tuple, which has nowhere to declare which of the writer's named fields each position holds"@,
    )
}

/// The aliases for the first `count` positions, as a list.
pub open spec fn alias_list(count: nat) -> Seq<char>
    decreases count,
{
    if count == 0 {
        seq![]
    } else if count == 1 {
        alias(0)
    } else {
        alias_list((count - 1) as nat) + ", "@ + alias((count - 1) as nat)
    }
}

/// The alias for one position.
pub open spec fn alias(i: nat) -> Seq<char> {
    "#[serde(alias = \""@ + decimal(i) + "\")]"@
}

/// The report of a positional payload reaching named fields that have not said
/// which position each one replaces.
pub open spec fn positions_needed(count: nat) -> Fault {
    Fault::SchemaMismatch(
        "named fields tagged with the positions they replace ("@ + alias_list(count)
            + "), since the writer recorded positions and no names"@,
        "named fields without them; matching by declaration order would silently change meaning if those fields are ever reordered"@,
    )
}

/// What a reader asking for positional fields is given. A writer that
/// recorded names is refused, unless the schemas are the same.
pub open spec fn given_positional(s: Shape, fast: bool) -> std::result::Result<Given, Fault> {
    if !is_product(s.kind) {
        Ok(Given::Dispatch)
    } else if s.kind == Kind::Struct && !fast {
        Err(named_refused())
    } else {
        Ok(Given::Product)
    }
}

/// What a reader asking for named fields is given.
///
/// A writer that had them too is read by name, or in order where the schemas
/// are the same. A positional writer is read by number, if the reader declared
/// the positions. A plain value is a product whose single position is the
/// value itself, for a reader that claims position 0. A writer that stored
/// nothing leaves every field missing.
pub open spec fn given_struct(s: Shape, fast: bool, fields: Seq<Seq<char>>) -> std::result::Result<
    Given,
    Fault,
> {
    if s.kind == Kind::Struct {
        if fast {
            Ok(Given::Product)
        } else {
            Ok(Given::ByName)
        }
    } else if !is_product(s.kind) {
        if tags_position(fields, 1) {
            Ok(Given::NumberedSelf)
        } else {
            Ok(Given::Dispatch)
        }
    } else if s.kids.len() == 0 || tags_position(fields, s.kids.len()) {
        Ok(Given::Numbered)
    } else {
        Err(positions_needed(s.kids.len()))
    }
}

/// What a reader asking for a newtype struct is given: the inside of one, the
/// fields of any other product in order, and any plain value as it is, since
/// the wrapper occupies no columns of its own. The shared wrapper is given the
/// shared object, or any other value as it is.
pub open spec fn given_newtype(s: Shape, fast: bool, name: Seq<char>) -> std::result::Result<
    Given,
    Fault,
> {
    if name == SHARED_TOKEN@ {
        if s.kind == Kind::Shared {
            Ok(Given::Shared)
        } else {
            Ok(Given::Wrapped)
        }
    } else if s.kind == Kind::NewtypeStruct {
        Ok(Given::Inner)
    } else if is_product(s.kind) {
        given_positional(s, fast)
    } else {
        Ok(Given::Wrapped)
    }
}

/// What a reader is given for what it asks.
pub open spec fn given(s: Shape, fast: bool, ask: Ask<'_>) -> std::result::Result<Given, Fault> {
    match ask {
        Ask::Any => Ok(Given::Dispatch),
        Ask::Option => if s.kind == Kind::Option {
            Ok(Given::Dispatch)
        } else {
            Ok(Given::Present)
        },
        Ask::Nothing => Ok(Given::Skip),
        Ask::Newtype(name) => given_newtype(s, fast, name@),
        Ask::Struct(fields) => given_struct(s, fast, names(fields@)),
        Ask::Positional => given_positional(s, fast),
    }
}

/// What the reader is given, with the positions to read from.
pub enum Plan<'s> {
    Dispatch,
    Present,
    Skip,
    Newtype(Spot<'s>),
    Shared { key: usize, inner: Spot<'s> },
    Product(FieldList<'s>),
    ByName(FieldList<'s>),
    Numbered(FieldList<'s>),
}

impl<'s> Plan<'s> {
    /// This is what is given at a position.
    pub open spec fn carries_out(&self, given: Given, spot: Spot<'s>) -> bool {
        match given {
            Given::Dispatch => *self == Plan::<'s>::Dispatch,
            Given::Present => *self == Plan::<'s>::Present,
            Given::Skip => *self == Plan::<'s>::Skip,
            Given::Inner => {
                &&& self matches Plan::Newtype(inner)
                &&& inner.well_formed()
                &&& inner.shape() == spot.shape().kids[0]
                &&& inner.base() == spot.base()
            },
            Given::Wrapped => *self == Plan::<'s>::Newtype(spot),
            Given::Shared => {
                &&& self matches Plan::Shared { key, inner }
                &&& key == spot.base()
                &&& inner.well_formed()
                &&& inner.shape() == spot.shape().kids[0]
                &&& inner.base() == spot.base() + 1
            },
            Given::Product => {
                &&& self matches Plan::Product(list)
                &&& list.well_formed()
                &&& list.shape() == spot.shape()
                &&& list.base() == spot.base()
            },
            Given::ByName => {
                &&& self matches Plan::ByName(list)
                &&& list.well_formed()
                &&& list.named()
                &&& list.shape() == spot.shape()
                &&& list.base() == spot.base()
            },
            Given::Numbered => {
                &&& self matches Plan::Numbered(list)
                &&& list.well_formed()
                &&& list.shape() == spot.shape()
                &&& list.base() == spot.base()
            },
            Given::NumberedSelf => {
                &&& self matches Plan::Numbered(list)
                &&& list.well_formed()
                &&& list.shape() == wrapped(spot.shape())
                &&& list.base() == spot.base()
            },
        }
    }
}

/// What has been decided, for a result.
pub open spec fn decided<'s>(
    result: Result<Plan<'s>>,
    expected: std::result::Result<Given, Fault>,
    spot: Spot<'s>,
) -> bool {
    match result {
        Ok(plan) => expected matches Ok(given) && plan.carries_out(given, spot),
        Err(error) => expected == Err::<Given, Fault>(error@),
    }
}

/// Whether a string is a number in decimal.
fn is_index(s: &str, n: usize) -> (result: bool)
    ensures
        result == (s@ == decimal(n as nat)),
{
    let number = text::to_decimal(n as u64);
    text::same(s, number.as_str())
}

/// Whether the reading type tags any of its fields with one of the writer's
/// positions. One tag is enough to opt in. The reader is then driven over
/// every position the writer stored, so a position it left untagged matches
/// nothing and is reported as a missing field.
pub fn positional_names(fields: &[&str], count: usize) -> (result: bool)
    ensures
        result == tags_position(names(fields@), count as nat),
{
    let ghost list = names(fields@);
    let mut i: usize = 0;
    while i < count
        invariant
            list == names(fields@),
            i <= count,
            forall|k: nat| k < i ==> !#[trigger] list.contains(decimal(k)),
        decreases count - i,
    {
        let mut j: usize = 0;
        while j < fields.len()
            invariant
                list == names(fields@),
                i < count,
                j <= fields@.len(),
                forall|k: int| 0 <= k < j ==> #[trigger] list[k] != decimal(i as nat),
            decreases fields@.len() - j,
        {
            if is_index(fields[j], i) {
                assert(list[j as int] == decimal(i as nat));
                assert(list.contains(decimal(i as nat)));
                return true;
            }
            j += 1;
        }
        assert(!list.contains(decimal(i as nat)));
        i += 1;
    }
    false
}

/// Appends to a string.
fn push_text(out: &mut String, text: &str)
    ensures
        final(out)@ == old(out)@ + text@,
{
    out.append(text);
}

/// A positional payload reaching named fields that have not said which
/// position each one replaces.
///
/// Reading it in declaration order would be an evolution step that does not
/// compose: reordering named fields is already a no-op, so a blob could decode
/// with its values swapped, silently. Requiring the positions to be declared
/// makes the correspondence survive any later reordering.
fn needs_positional_names(count: usize) -> (result: Error)
    ensures
        result@ == positions_needed(count as nat),
{
    let mut aliases = String::new();
    let mut i: usize = 0;
    while i < count
        invariant
            i <= count,
            aliases@ == alias_list(i as nat),
        decreases count - i,
    {
        if i > 0 {
            push_text(&mut aliases, ", ");
        }
        push_text(&mut aliases, "#[serde(alias = \"");
        text::push_decimal(&mut aliases, i as u64);
        push_text(&mut aliases, "\")]");
        proof {
            if i == 0 {
                assert(aliases@ =~= alias(0));
            } else {
                assert(aliases@ =~= alias_list(i as nat) + ", "@ + alias(i as nat));
            }
        }
        i += 1;
    }
    let expected = text::join(
        "named fields tagged with the positions they replace (",
        aliases.as_str(),
        "), since the writer recorded positions and no names",
    );
    Error::SchemaMismatch {
        expected,
        found: "named fields without them; matching by declaration order would silently change meaning if those fields are ever reordered".to_owned(),
    }
}

/// The mirror image: a named payload reaching a tuple, which fails to compose
/// for the same reason and cannot be rescued, because a tuple has nowhere to
/// put the declaration.
fn named_into_positional() -> (result: Error)
    ensures
        result@ == named_refused(),
{
    Error::SchemaMismatch {
        expected: "a reader with named fields, matched by name".to_owned(),
        found: "a tuple, which has nowhere to declare which of the writer's named fields each position holds".to_owned(),
    }
}

impl<'s> Spot<'s> {
    /// What a reader is given here for what it asks.
    pub fn plan(&self, fast: bool, ask: &Ask<'_>) -> (result: Result<Plan<'s>>)
        requires
            self.well_formed(),
        ensures
            decided(result, given(self.shape(), fast, *ask), *self),
    {
        proof {
            self.at().lemma_top(self.base());
        }
        match ask {
            Ask::Any => Ok(Plan::Dispatch),
            Ask::Option => {
                if matches!(self.node(), Node::Option { .. }) {
                    Ok(Plan::Dispatch)
                } else {
                    Ok(Plan::Present)
                }
            },
            Ask::Nothing => Ok(Plan::Skip),
            Ask::Newtype(name) => self.plan_newtype(fast, name),
            Ask::Struct(fields) => self.plan_struct(fast, fields),
            Ask::Positional => self.plan_positional(fast),
        }
    }

    /// For a reader asking for a newtype struct.
    fn plan_newtype(&self, fast: bool, name: &str) -> (result: Result<Plan<'s>>)
        requires
            self.well_formed(),
        ensures
            decided(result, given_newtype(self.shape(), fast, name@), *self),
    {
        let ghost s = self.shape();
        proof {
            self.at().lemma_top(self.base());
        }
        let shared = text::same(name, SHARED_TOKEN);
        match self.node() {
            Node::Shared { key, inner } => {
                if shared {
                    proof {
                        lemma_one_kid_columns(s);
                        assert(s.kids[0].well_formed());
                    }
                    Ok(
                        Plan::Shared {
                            key: *key,
                            inner: Spot::new(inner, Ghost((self.base() + 1) as nat)),
                        },
                    )
                } else {
                    Ok(Plan::Newtype(*self))
                }
            },
            Node::Newtype { inner, .. } => {
                if shared {
                    Ok(Plan::Newtype(*self))
                } else {
                    proof {
                        assert(s.kids[0].well_formed());
                    }
                    Ok(Plan::Newtype(Spot::new(inner, Ghost(self.base()))))
                }
            },
            Node::Struct { .. } | Node::Tuple { .. } | Node::Unit { .. } => {
                if shared {
                    Ok(Plan::Newtype(*self))
                } else {
                    self.plan_positional(fast)
                }
            },
            _ => Ok(Plan::Newtype(*self)),
        }
    }

    /// For a reader asking for named fields.
    fn plan_struct(&self, fast: bool, fields: &[&str]) -> (result: Result<Plan<'s>>)
        requires
            self.well_formed(),
        ensures
            decided(result, given_struct(self.shape(), fast, names(fields@)), *self),
    {
        match self.product_fields() {
            None => {
                if positional_names(fields, 1) {
                    Ok(Plan::Numbered(self.alone()))
                } else {
                    Ok(Plan::Dispatch)
                }
            },
            Some(list) => {
                if list.is_named() {
                    if fast {
                        Ok(Plan::Product(list))
                    } else {
                        Ok(Plan::ByName(list))
                    }
                } else if list.len() == 0 || positional_names(fields, list.len()) {
                    Ok(Plan::Numbered(list))
                } else {
                    Err(needs_positional_names(list.len()))
                }
            },
        }
    }

    /// For a reader asking for a tuple, tuple struct, or newtype struct.
    fn plan_positional(&self, fast: bool) -> (result: Result<Plan<'s>>)
        requires
            self.well_formed(),
        ensures
            decided(result, given_positional(self.shape(), fast), *self),
    {
        match self.product_fields() {
            Some(list) => {
                if list.is_named() && !fast {
                    Err(named_into_positional())
                } else {
                    Ok(Plan::Product(list))
                }
            },
            None => Ok(Plan::Dispatch),
        }
    }
}

/// What a reader asks of a variant's payload.
pub enum VariantAsk<'a> {
    /// Nothing.
    Unit,
    /// The only field.
    Newtype,
    /// Positional fields.
    Tuple,
    /// Named fields; these are their names and aliases.
    Struct(&'a [&'a str]),
}

/// What the reader is given of a variant's payload.
pub enum GivenVariant {
    /// Nothing, after skipping the payload.
    Skip,
    /// The only field.
    Only,
    /// The fields in the writer's order.
    Product,
    /// The fields by the writer's names.
    ByName,
    /// The fields by number.
    Numbered,
}

/// The name of a variant shape.
pub open spec fn shape_name(kind: Kind) -> Seq<char> {
    match kind {
        Kind::NewtypeVariant => "newtype variant"@,
        Kind::TupleVariant => "tuple variant"@,
        Kind::StructVariant => "struct variant"@,
        _ => "unit variant"@,
    }
}

/// What a reader is given of the payload of a variant of shape `s`.
pub open spec fn given_variant(
    s: Shape,
    name: Seq<char>,
    fast: bool,
    ask: VariantAsk<'_>,
) -> std::result::Result<GivenVariant, Fault> {
    let named = s.kind == Kind::StructVariant;
    match ask {
        VariantAsk::Unit => Ok(GivenVariant::Skip),
        VariantAsk::Newtype => if named && !fast {
            Err(named_refused())
        } else if s.kids.len() == 1 {
            Ok(GivenVariant::Only)
        } else {
            Err(Fault::SchemaMismatch(shape_name(s.kind), "newtype variant `"@ + name + "`"@))
        },
        VariantAsk::Tuple => if named && !fast {
            Err(named_refused())
        } else {
            Ok(GivenVariant::Product)
        },
        VariantAsk::Struct(fields) => if named && !fast {
            Ok(GivenVariant::ByName)
        } else if fast {
            Ok(GivenVariant::Product)
        } else if s.kids.len() == 0 || tags_position(names(fields@), s.kids.len()) {
            Ok(GivenVariant::Numbered)
        } else {
            Err(positions_needed(s.kids.len()))
        },
    }
}

/// What the reader is given of a payload, with the positions to read from.
pub enum VariantPlan<'s> {
    Skip,
    Only(Spot<'s>),
    Product(FieldList<'s>),
    ByName(FieldList<'s>),
    Numbered(FieldList<'s>),
}

impl<'s> VariantPlan<'s> {
    /// This is what is given of a variant.
    pub open spec fn carries_out(&self, given: GivenVariant, spot: VariantSpot<'s>) -> bool {
        match given {
            GivenVariant::Skip => *self == VariantPlan::<'s>::Skip,
            GivenVariant::Only => {
                &&& self matches VariantPlan::Only(only)
                &&& only.well_formed()
                &&& only.shape() == spot.shape().kids[0]
                &&& only.base() == kid_base(spot.shape(), spot.base(), 0)
            },
            GivenVariant::Product => {
                &&& self matches VariantPlan::Product(list)
                &&& list.well_formed()
                &&& list.shape() == spot.shape()
                &&& list.base() == spot.base()
            },
            GivenVariant::ByName => {
                &&& self matches VariantPlan::ByName(list)
                &&& list.well_formed()
                &&& list.named()
                &&& list.shape() == spot.shape()
                &&& list.base() == spot.base()
            },
            GivenVariant::Numbered => {
                &&& self matches VariantPlan::Numbered(list)
                &&& list.well_formed()
                &&& list.shape() == spot.shape()
                &&& list.base() == spot.base()
            },
        }
    }
}

/// The name of a variant's shape.
fn variant_shape_name(kind: &VariantKind) -> (result: &'static str)
    ensures
        result@ == shape_name(kind.shape().kind),
{
    proof {
        kind.lemma_top(0);
    }
    match kind {
        VariantKind::Unit => "unit variant",
        VariantKind::Newtype(_) => "newtype variant",
        VariantKind::Tuple(_) => "tuple variant",
        VariantKind::Struct(_) => "struct variant",
    }
}

impl<'s> VariantSpot<'s> {
    /// What a reader is given of this payload for what it asks.
    pub fn plan(&self, fast: bool, ask: &VariantAsk<'_>) -> (result: Result<VariantPlan<'s>>)
        requires
            self.well_formed(),
        ensures
            match result {
                Ok(plan) => given_variant(self.shape(), self.at().name@, fast, *ask) matches Ok(
                    given,
                ) && plan.carries_out(given, *self),
                Err(error) => given_variant(self.shape(), self.at().name@, fast, *ask) == Err::<
                    GivenVariant,
                    Fault,
                >(error@),
            },
    {
        let fields = self.payload_fields();
        match ask {
            VariantAsk::Unit => Ok(VariantPlan::Skip),
            VariantAsk::Newtype => {
                if fields.is_named() && !fast {
                    return Err(named_into_positional());
                }
                if fields.len() == 1 {
                    if let Some(only) = fields.get(0) {
                        return Ok(VariantPlan::Only(only));
                    }
                }
                Err(
                    Error::SchemaMismatch {
                        expected: variant_shape_name(self.kind()).to_owned(),
                        found: text::join("newtype variant `", self.name(), "`"),
                    },
                )
            },
            VariantAsk::Tuple => {
                if fields.is_named() && !fast {
                    Err(named_into_positional())
                } else {
                    Ok(VariantPlan::Product(fields))
                }
            },
            VariantAsk::Struct(wanted) => {
                if fields.is_named() && !fast {
                    Ok(VariantPlan::ByName(fields))
                } else if fast {
                    Ok(VariantPlan::Product(fields))
                } else if fields.len() == 0 || positional_names(wanted, fields.len()) {
                    Ok(VariantPlan::Numbered(fields))
                } else {
                    Err(needs_positional_names(fields.len()))
                }
            },
        }
    }
}

/// The writer's own reader is never refused: on the fast path every ask for
/// the shape that was written is granted.
pub proof fn lemma_fast_never_refuses(s: Shape, fields: Seq<Seq<char>>, name: Seq<char>)
    ensures
        s.kind == Kind::Struct ==> given_struct(s, true, fields) == Ok::<Given, Fault>(
            Given::Product,
        ),
        s.kind == Kind::Tuple || s.kind == Kind::TupleStruct ==> given_positional(s, true) == Ok::<
            Given,
            Fault,
        >(Given::Product),
        s.kind == Kind::NewtypeStruct && name != SHARED_TOKEN@ ==> given_newtype(s, true, name)
            == Ok::<Given, Fault>(Given::Inner),
{
}

} // verus!
