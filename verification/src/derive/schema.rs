//! The schema of a struct or enum: the shape that its fields have on the wire,
//! honoring the attributes that affect it.

use vstd::prelude::*;

use crate::derive::attrs::texts_of;
use crate::derive::model::{
    field_wire, field_wire_name, first_rule, lemma_live, lemma_live_variants, live, live_fields,
    live_variant_list, live_variants, rule_or, variant_wire, variant_wire_name, Field, Style,
    Variant,
};
use crate::derive::rename::RenameRule;
use crate::schema::{labels, named_shapes, shapes, SchemaNode, VariantNode};
use crate::shape::{columns_before, leaf, node, width_of, Kind, Shape};

verus! {

/// How the fields that reach the wire make up the schema.
#[derive(Debug)]
pub enum Plan {
    /// The only field stands for the whole.
    Through,
    /// No fields.
    Unit,
    /// A wrapper around the only field.
    Newtype,
    /// Fields by position.
    Tuple,
    /// Fields by name.
    Named(Vec<String>),
}

/// The view of a [`Plan`].
pub enum Form {
    Through,
    Unit,
    Newtype,
    Tuple,
    Named(Seq<Seq<char>>),
}

impl View for Plan {
    type V = Form;

    open spec fn view(&self) -> Form {
        match *self {
            Plan::Through => Form::Through,
            Plan::Unit => Form::Unit,
            Plan::Newtype => Form::Newtype,
            Plan::Tuple => Form::Tuple,
            Plan::Named(names) => Form::Named(texts_of(names@)),
        }
    }
}

/// The wire names of the live fields.
pub open spec fn wire_names(fields: Seq<Field>, live: Seq<usize>, rule: Option<RenameRule>) -> Seq<
    Seq<char>,
> {
    Seq::new(
        live.len(),
        |i: int| field_wire(fields[live[i] as int].ident@, fields[live[i] as int].attrs@, rule),
    )
}

/// The form of a list of fields. One positional field makes a newtype, unless
/// others were skipped: that leaves a tuple of one.
pub open spec fn form_of(style: Style, fields: Seq<Field>, rule: Option<RenameRule>) -> Form {
    let live = live(fields, fields.len());
    match style {
        Style::Unit => Form::Unit,
        Style::Unnamed => if fields.len() == 1 && live.len() == 1 {
            Form::Newtype
        } else {
            Form::Tuple
        },
        Style::Named => Form::Named(wire_names(fields, live, rule)),
    }
}

/// The form of a struct; nothing where it asks to be represented as its only
/// field and does not have exactly one.
pub open spec fn struct_form(
    style: Style,
    fields: Seq<Field>,
    transparent: bool,
    rule: Option<RenameRule>,
) -> Option<Form> {
    if !transparent {
        Some(form_of(style, fields, rule))
    } else if live(fields, fields.len()).len() == 1 {
        Some(Form::Through)
    } else {
        None
    }
}

fn names_of(fields: &Vec<Field>, live: &Vec<usize>, rule: Option<RenameRule>) -> (result: Vec<
    String,
>)
    requires
        forall|i: int| 0 <= i < live@.len() ==> #[trigger] live@[i] < fields@.len(),
    ensures
        texts_of(result@) == wire_names(fields@, live@, rule),
{
    let mut out: Vec<String> = Vec::new();
    let mut i: usize = 0;
    while i < live.len()
        invariant
            i <= live@.len(),
            forall|i: int| 0 <= i < live@.len() ==> #[trigger] live@[i] < fields@.len(),
            out@.len() == i,
            forall|j: int|
                0 <= j < i ==> (#[trigger] out@[j])@ == wire_names(fields@, live@, rule)[j],
        decreases live@.len() - i,
    {
        out.push(field_wire_name(&fields[live[i]], rule));
        i += 1;
    }
    assert(texts_of(out@) =~= wire_names(fields@, live@, rule));
    out
}

fn plan_of(style: Style, fields: &Vec<Field>, rule: Option<RenameRule>) -> (result: Plan)
    ensures
        result@ == form_of(style, fields@, rule),
{
    let live_list = live_fields(fields);
    proof {
        assert(fields@.len() == fields.len());
        lemma_live(fields@, fields@.len());
    }
    match style {
        Style::Unit => Plan::Unit,
        Style::Unnamed => if fields.len() == 1 && live_list.len() == 1 {
            Plan::Newtype
        } else {
            Plan::Tuple
        },
        Style::Named => Plan::Named(names_of(fields, &live_list, rule)),
    }
}

/// Plans the schema of a struct.
pub fn expand_struct(
    style: Style,
    fields: &Vec<Field>,
    transparent: bool,
    rule: Option<RenameRule>,
) -> (result: Result<Plan, String>)
    ensures
        match result {
            Ok(plan) => struct_form(style, fields@, transparent, rule) == Some(plan@),
            Err(message) => struct_form(style, fields@, transparent, rule) is None && message@
                == "serde(transparent) requires exactly one non-skipped field"@,
        },
{
    if transparent {
        if live_fields(fields).len() == 1 {
            Ok(Plan::Through)
        } else {
            Err("serde(transparent) requires exactly one non-skipped field".to_owned())
        }
    } else {
        Ok(plan_of(style, fields, rule))
    }
}

/// How one variant stands in the schema.
#[derive(Debug)]
pub struct VariantPlan {
    /// The number of the variant.
    pub variant: usize,
    /// Its name on the wire.
    pub name: String,
    /// How its fields make up the payload.
    pub payload: Plan,
}

/// Plans the schema of an enum: one entry for each variant that reaches the
/// wire, in order.
///
/// The casing of field names inside a variant is the variant's own where it
/// has one, and the container's otherwise.
pub fn expand_enum(
    variants: &Vec<Variant>,
    rule: Option<RenameRule>,
    field_rule: Option<RenameRule>,
) -> (result: Vec<VariantPlan>)
    ensures
        result@.len() == live_variants(variants@, variants@.len()).len(),
        forall|k: int|
            0 <= k < result@.len() ==> {
                let v = live_variants(variants@, variants@.len())[k];
                &&& (#[trigger] result@[k]).variant == v
                &&& result@[k].name@ == variant_wire(
                    variants@[v as int].ident@,
                    variants@[v as int].attrs@,
                    rule,
                )
                &&& result@[k].payload@ == form_of(
                    variants@[v as int].style,
                    variants@[v as int].fields@,
                    rule_or(variants@[v as int].attrs@.rename_all, field_rule),
                )
            },
{
    let live_list = live_variant_list(variants);
    proof {
        assert(variants@.len() == variants.len());
        lemma_live_variants(variants@, variants@.len());
    }
    let mut out: Vec<VariantPlan> = Vec::new();
    let mut k: usize = 0;
    while k < live_list.len()
        invariant
            k <= live_list@.len(),
            live_list@ == live_variants(variants@, variants@.len()),
            forall|i: int|
                0 <= i < live_list@.len() ==> #[trigger] live_list@[i] < variants@.len(),
            out@.len() == k,
            forall|j: int|
                0 <= j < k ==> {
                    let v = live_list@[j];
                    &&& (#[trigger] out@[j]).variant == v
                    &&& out@[j].name@ == variant_wire(
                        variants@[v as int].ident@,
                        variants@[v as int].attrs@,
                        rule,
                    )
                    &&& out@[j].payload@ == form_of(
                        variants@[v as int].style,
                        variants@[v as int].fields@,
                        rule_or(variants@[v as int].attrs@.rename_all, field_rule),
                    )
                },
        decreases live_list@.len() - k,
    {
        let variant: usize = live_list[k];
        let name = variant_wire_name(&variants[variant], rule);
        let inner = first_rule(variants[variant].attrs.rename_all, field_rule);
        let payload = plan_of(variants[variant].style, &variants[variant].fields, inner);
        out.push(VariantPlan { variant, name, payload });
        k += 1;
    }
    out
}

/// Whether a form has a place for this many fields.
pub open spec fn takes(form: Form, n: nat) -> bool {
    match form {
        Form::Through | Form::Newtype => n == 1,
        Form::Unit => n == 0,
        Form::Tuple => true,
        Form::Named(names) => names.len() == n,
    }
}

/// The schema of a struct, from the schemas of its live fields.
pub open spec fn struct_shape(form: Form, name: Seq<char>, kids: Seq<Shape>) -> Shape {
    match form {
        Form::Through => kids[0],
        Form::Unit => leaf(Kind::UnitStruct, name),
        Form::Newtype => node(Kind::NewtypeStruct, name, kids),
        Form::Tuple => node(Kind::TupleStruct, name, kids),
        Form::Named(names) => Shape { kind: Kind::Struct, name, labels: names, kids },
    }
}

/// The shape of a variant, from the schemas of its live fields.
pub open spec fn variant_shape(form: Form, kids: Seq<Shape>) -> Shape {
    match form {
        Form::Through | Form::Newtype => node(Kind::NewtypeVariant, seq![], kids),
        Form::Unit => leaf(Kind::UnitVariant, seq![]),
        Form::Tuple => node(Kind::TupleVariant, seq![], kids),
        Form::Named(names) => Shape {
            kind: Kind::StructVariant,
            name: seq![],
            labels: names,
            kids,
        },
    }
}

fn pair_up(names: Vec<String>, nodes: Vec<SchemaNode>) -> (result: Vec<(String, SchemaNode)>)
    requires
        names@.len() == nodes@.len(),
    ensures
        labels(result@) == texts_of(names@),
        named_shapes(result@) == shapes(nodes@),
{
    let mut names = names;
    let mut nodes = nodes;
    let ghost all = names@;
    let ghost parts = nodes@;
    let mut out: Vec<(String, SchemaNode)> = Vec::new();
    while names.len() > 0 && nodes.len() > 0
        invariant
            names@.len() == nodes@.len(),
            all.len() == parts.len(),
            out@.len() + names@.len() == all.len(),
            names@ == all.subrange(out@.len() as int, all.len() as int),
            nodes@ == parts.subrange(out@.len() as int, parts.len() as int),
            forall|j: int| 0 <= j < out@.len() ==> (#[trigger] out@[j]).0@ == all[j]@,
            forall|j: int| 0 <= j < out@.len() ==> (#[trigger] out@[j]).1 == parts[j],
        decreases names@.len(),
    {
        let ghost before = out@;
        let name = names.remove(0);
        let node = nodes.remove(0);
        out.push((name, node));
        assert(names@ =~= all.subrange(out@.len() as int, all.len() as int));
        assert(nodes@ =~= parts.subrange(out@.len() as int, parts.len() as int));
    }
    assert(labels(out@) =~= texts_of(all));
    assert(named_shapes(out@) =~= shapes(parts));
    out
}

impl Plan {
    /// The schema of a struct, from the schemas of its live fields.
    pub fn struct_node(self, name: String, nodes: Vec<SchemaNode>) -> (result: SchemaNode)
        requires
            takes(self@, nodes@.len()),
        ensures
            result@ == struct_shape(self@, name@, shapes(nodes@)),
    {
        let ghost kids = shapes(nodes@);
        let mut nodes = nodes;
        match self {
            Plan::Through => {
                let inner = nodes.remove(0);
                assert(kids[0] == inner@);
                inner
            },
            Plan::Unit => SchemaNode::UnitStruct { name },
            Plan::Newtype => {
                let inner = nodes.remove(0);
                assert(kids =~= seq![inner@]);
                SchemaNode::NewtypeStruct { name, inner: Box::new(inner) }
            },
            Plan::Tuple => SchemaNode::TupleStruct { name, fields: nodes },
            Plan::Named(names) => SchemaNode::Struct { name, fields: pair_up(names, nodes) },
        }
    }

    /// The shape of a variant, from the schemas of its live fields.
    pub fn variant_node(self, nodes: Vec<SchemaNode>) -> (result: VariantNode)
        requires
            takes(self@, nodes@.len()),
        ensures
            result@ == variant_shape(self@, shapes(nodes@)),
    {
        let ghost kids = shapes(nodes@);
        let mut nodes = nodes;
        match self {
            Plan::Through | Plan::Newtype => {
                let inner = nodes.remove(0);
                assert(kids =~= seq![inner@]);
                VariantNode::Newtype(Box::new(inner))
            },
            Plan::Unit => VariantNode::Unit,
            Plan::Tuple => VariantNode::Tuple(nodes),
            Plan::Named(names) => VariantNode::Struct(pair_up(names, nodes)),
        }
    }
}

/// The columns of the first `n` of these schemas together.
pub open spec fn widths(kids: Seq<Shape>, n: nat) -> nat
    decreases n,
{
    if n == 0 || n > kids.len() {
        0
    } else {
        widths(kids, (n - 1) as nat) + width_of(kids[n - 1])
    }
}

proof fn lemma_widths(s: Shape, n: nat)
    requires
        n <= s.kids.len(),
    ensures
        columns_before(s, n) == widths(s.kids, n),
    decreases n,
{
    if n > 0 {
        lemma_widths(s, (n - 1) as nat);
    }
}

/// The columns of a derived struct are those of its live fields, one after the
/// other: nothing but the fields has a column.
pub proof fn lemma_struct_columns(form: Form, name: Seq<char>, kids: Seq<Shape>)
    requires
        takes(form, kids.len()),
    ensures
        width_of(struct_shape(form, name, kids)) == widths(kids, kids.len()),
{
    let s = struct_shape(form, name, kids);
    match form {
        Form::Through => {
            assert(widths(kids, 0) == 0);
            assert(widths(kids, 1) == width_of(kids[0]));
        },
        _ => {
            lemma_widths(s, s.kids.len());
        },
    }
}

/// The same of the payload of a derived variant.
pub proof fn lemma_variant_columns(form: Form, kids: Seq<Shape>)
    requires
        takes(form, kids.len()),
    ensures
        width_of(variant_shape(form, kids)) == widths(kids, kids.len()),
{
    let s = variant_shape(form, kids);
    lemma_widths(s, s.kids.len());
}

} // verus!
