//! The plan of the columnar reader and writer: straight-line code whose column
//! offsets are sums of the columns of the fields before.
//!
//! What it writes is byte for byte what the schema-driven path writes, over the
//! layout of the derived schema: columns depth-first, a node's own columns
//! before its children's.

use vstd::prelude::*;

use crate::derive::model::{
    lemma_live_variants, live, live_fields, live_variant_list, live_variants, Field, Variant,
};
use crate::derive::rename::{strip_raw, stripped};
use crate::derive::schema::{lemma_variant_columns, takes, variant_shape, widths, Form};
use crate::shape::{kid_base, width_of, Kind, Shape};

verus! {

/// Where the value of a field comes from when it is read.
#[derive(Clone, Copy, Debug, PartialEq, Eq, Structural)]
pub enum Source {
    /// The field is skipped and takes its default.
    Default,
    /// Its own columns.
    Columns,
    /// Its own columns, through serde.
    Serde,
}

/// The source of a field.
pub open spec fn source_of(field: Field) -> Source {
    if field.attrs.skip {
        Source::Default
    } else if field.attrs.fallback is Some {
        Source::Serde
    } else {
        Source::Columns
    }
}

/// The sources of a list of fields.
pub open spec fn sources(fields: Seq<Field>) -> Seq<Source> {
    Seq::new(fields.len(), |i: int| source_of(fields[i]))
}

/// Whether some field goes through serde, so that the column count is only
/// known when the program runs.
pub open spec fn any_serde(fields: Seq<Field>) -> bool {
    exists|i: int| 0 <= i < fields.len() && source_of(#[trigger] fields[i]) == Source::Serde
}

/// The columnar code of a list of fields.
#[derive(Debug)]
pub struct ColumnarParts {
    /// The fields that have columns, in order; the columns of each follow those
    /// of the one before.
    pub active: Vec<usize>,
    /// Where each field's value comes from.
    pub sources: Vec<Source>,
    /// Whether a field goes through serde.
    pub has_fallback: bool,
}

impl ColumnarParts {
    /// These are the parts of the fields.
    pub open spec fn belong_to(self, fields: Seq<Field>) -> bool {
        &&& self.active@ == live(fields, fields.len())
        &&& self.sources@ == sources(fields)
        &&& self.has_fallback == any_serde(fields)
    }
}

/// Plans the columnar code of a struct.
pub fn columnar_struct_parts(fields: &Vec<Field>) -> (result: ColumnarParts)
    ensures
        result.belong_to(fields@),
{
    let mut list: Vec<Source> = Vec::new();
    let mut has_fallback = false;
    let mut i: usize = 0;
    while i < fields.len()
        invariant
            i <= fields@.len(),
            list@.len() == i,
            forall|j: int| 0 <= j < i ==> #[trigger] list@[j] == source_of(fields@[j]),
            has_fallback == exists|j: int|
                0 <= j < i && source_of(#[trigger] fields@[j]) == Source::Serde,
        decreases fields@.len() - i,
    {
        let source = if fields[i].attrs.skip {
            Source::Default
        } else if fields[i].attrs.fallback.is_some() {
            Source::Serde
        } else {
            Source::Columns
        };
        assert(source == source_of(fields@[i as int]));
        if source == Source::Serde {
            has_fallback = true;
        }
        list.push(source);
        i += 1;
    }
    assert(list@ =~= sources(fields@));
    ColumnarParts { active: live_fields(fields), sources: list, has_fallback }
}

/// The columnar code of one variant.
#[derive(Debug)]
pub struct VariantParts {
    /// The number of the variant.
    pub variant: usize,
    /// Its tag on the wire.
    pub tag: u64,
    /// The fields of the variants before it, as variant and field: its own
    /// columns start past the tag column and the columns of these.
    pub preceding: Vec<(usize, usize)>,
    /// Its fields.
    pub fields: ColumnarParts,
}

/// The columnar code of an enum.
#[derive(Debug)]
pub struct EnumParts {
    /// The variants that reach the wire.
    pub active: Vec<VariantParts>,
    /// The names of those that do not, and so cannot be written.
    pub skipped: Vec<(usize, String)>,
    /// Whether a field goes through serde.
    pub has_fallback: bool,
}

/// The first `n` of a variant's live fields.
pub open spec fn paired(variant: usize, live: Seq<usize>) -> Seq<(usize, usize)> {
    Seq::new(live.len(), |i: int| (variant, live[i]))
}

/// The live fields of the first `k` live variants.
pub open spec fn fields_before(variants: Seq<Variant>, list: Seq<usize>, k: nat) -> Seq<
    (usize, usize),
>
    decreases k,
{
    if k == 0 || k > list.len() {
        seq![]
    } else {
        let v = list[k - 1];
        let fields = variants[v as int].fields@;
        fields_before(variants, list, (k - 1) as nat) + paired(v, live(fields, fields.len()))
    }
}

/// The numbers of the skipped variants among the first `n`.
pub open spec fn skipped_variants(variants: Seq<Variant>, n: nat) -> Seq<usize>
    decreases n,
{
    if n == 0 {
        seq![]
    } else {
        let before = skipped_variants(variants, (n - 1) as nat);
        if variants[n - 1].attrs.skip {
            before.push((n - 1) as usize)
        } else {
            before
        }
    }
}

/// Whether some live variant has a field that goes through serde.
pub open spec fn any_variant_serde(variants: Seq<Variant>) -> bool {
    exists|i: int|
        0 <= i < variants.len() && !(#[trigger] variants[i]).attrs.skip && any_serde(
            variants[i].fields@,
        )
}

impl VariantParts {
    /// These are the parts of live variant `k`.
    pub open spec fn belong_to(self, variants: Seq<Variant>, k: nat) -> bool {
        let list = live_variants(variants, variants.len());
        &&& self.variant == list[k as int]
        &&& self.tag == k
        &&& self.preceding@ == fields_before(variants, list, k)
        &&& self.fields.belong_to(variants[self.variant as int].fields@)
    }
}

fn list_skipped(variants: &Vec<Variant>) -> (result: Vec<(usize, String)>)
    ensures
        result@.len() == skipped_variants(variants@, variants@.len()).len(),
        forall|i: int|
            0 <= i < result@.len() ==> (#[trigger] result@[i]).0 == skipped_variants(
                variants@,
                variants@.len(),
            )[i] && result@[i].0 < variants@.len() && result@[i].1@ == stripped(
                variants@[result@[i].0 as int].ident@,
            ),
{
    let mut out: Vec<(usize, String)> = Vec::new();
    let mut i: usize = 0;
    while i < variants.len()
        invariant
            i <= variants@.len(),
            out@.len() == skipped_variants(variants@, i as nat).len(),
            forall|j: int|
                0 <= j < out@.len() ==> (#[trigger] out@[j]).0 == skipped_variants(
                    variants@,
                    i as nat,
                )[j] && out@[j].0 < variants@.len() && out@[j].1@ == stripped(
                    variants@[out@[j].0 as int].ident@,
                ),
        decreases variants@.len() - i,
    {
        if variants[i].attrs.skip {
            out.push((i, strip_raw(variants[i].ident.as_str())));
        }
        i += 1;
    }
    out
}

fn append_fields(out: &mut Vec<(usize, usize)>, variant: usize, active: &Vec<usize>)
    ensures
        final(out)@ == old(out)@ + paired(variant, active@),
{
    let ghost before = out@;
    let mut i: usize = 0;
    while i < active.len()
        invariant
            i <= active@.len(),
            out@ == before + paired(variant, active@).subrange(0, i as int),
        decreases active@.len() - i,
    {
        out.push((variant, active[i]));
        assert(paired(variant, active@).subrange(0, i + 1) =~= paired(variant, active@).subrange(
            0,
            i as int,
        ).push((variant, active@[i as int])));
        i += 1;
    }
    assert(paired(variant, active@).subrange(0, active@.len() as int) =~= paired(variant, active@));
}

/// Plans the columnar code of an enum: a tag column, then the columns of each
/// variant's payload.
pub fn columnar_enum_parts(variants: &Vec<Variant>) -> (result: EnumParts)
    ensures
        result.active@.len() == live_variants(variants@, variants@.len()).len(),
        forall|k: int|
            0 <= k < result.active@.len() ==> (#[trigger] result.active@[k]).belong_to(
                variants@,
                k as nat,
            ),
        result.skipped@.len() == skipped_variants(variants@, variants@.len()).len(),
        forall|i: int|
            0 <= i < result.skipped@.len() ==> (#[trigger] result.skipped@[i]).0
                == skipped_variants(variants@, variants@.len())[i] && result.skipped@[i].0
                < variants@.len() && result.skipped@[i].1@ == stripped(
                variants@[result.skipped@[i].0 as int].ident@,
            ),
        result.has_fallback == any_variant_serde(variants@),
{
    let list = live_variant_list(variants);
    let skipped = list_skipped(variants);
    proof {
        assert(variants@.len() == variants.len());
        lemma_live_variants(variants@, variants@.len());
    }
    let mut active: Vec<VariantParts> = Vec::new();
    let mut so_far: Vec<(usize, usize)> = Vec::new();
    let mut has_fallback = false;
    let mut k: usize = 0;
    while k < list.len()
        invariant
            k <= list@.len(),
            list@ == live_variants(variants@, variants@.len()),
            forall|i: int| 0 <= i < list@.len() ==> #[trigger] list@[i] < variants@.len(),
            active@.len() == k,
            so_far@ == fields_before(variants@, list@, k as nat),
            forall|j: int|
                0 <= j < k ==> (#[trigger] active@[j]).belong_to(variants@, j as nat),
            has_fallback == exists|j: int|
                0 <= j < k && any_serde(variants@[#[trigger] list@[j] as int].fields@),
        decreases list@.len() - k,
    {
        let variant: usize = list[k];
        let fields = columnar_struct_parts(&variants[variant].fields);
        let mut preceding: Vec<(usize, usize)> = Vec::new();
        let mut i: usize = 0;
        while i < so_far.len()
            invariant
                i <= so_far@.len(),
                preceding@ == so_far@.subrange(0, i as int),
            decreases so_far@.len() - i,
        {
            preceding.push(so_far[i]);
            assert(so_far@.subrange(0, i + 1) =~= so_far@.subrange(0, i as int).push(
                so_far@[i as int],
            ));
            i += 1;
        }
        assert(preceding@ =~= so_far@);
        append_fields(&mut so_far, variant, &fields.active);
        if fields.has_fallback {
            has_fallback = true;
            assert(any_serde(variants@[list@[k as int] as int].fields@));
        }
        active.push(VariantParts { variant, tag: k as u64, preceding, fields });
        k += 1;
    }
    proof {
        lemma_covers(variants@, variants@.len());
        if has_fallback {
            let j = choose|j: int|
                0 <= j < list@.len() && any_serde(variants@[#[trigger] list@[j] as int].fields@);
            assert(!variants@[list@[j] as int].attrs.skip);
        }
    }
    EnumParts { active, skipped, has_fallback }
}

/// Every variant that is not skipped is listed.
proof fn lemma_covers(variants: Seq<Variant>, n: nat)
    requires
        n <= variants.len() <= usize::MAX,
    ensures
        forall|v: int|
            0 <= v < n && !(#[trigger] variants[v]).attrs.skip ==> exists|j: int|
                0 <= j < live_variants(variants, n).len() && #[trigger] live_variants(
                    variants,
                    n,
                )[j] == v,
    decreases n,
{
    if n > 0 {
        let m = (n - 1) as nat;
        lemma_covers(variants, m);
        let before = live_variants(variants, m);
        let all = live_variants(variants, n);
        assert forall|v: int| 0 <= v < n && !(#[trigger] variants[v]).attrs.skip implies exists|
            j: int,
        | 0 <= j < all.len() && #[trigger] all[j] == v by {
            if v < m {
                let j = choose|j: int| 0 <= j < before.len() && #[trigger] before[j] == v;
                assert(all[j] == v);
            } else {
                assert(all[before.len() as int] == v);
            }
        }
    }
}

/// The columns of these fields together, given the schema of each.
pub open spec fn columns_of(fields: Seq<(usize, usize)>, kinds: spec_fn(usize, usize) -> Shape) -> nat
    decreases fields.len(),
{
    if fields.len() == 0 {
        0
    } else {
        columns_of(fields.drop_last(), kinds) + width_of(kinds(fields.last().0, fields.last().1))
    }
}

/// The schemas of a variant's live fields.
pub open spec fn payload_kids(
    variant: usize,
    live: Seq<usize>,
    kinds: spec_fn(usize, usize) -> Shape,
) -> Seq<Shape> {
    Seq::new(live.len(), |i: int| kinds(variant, live[i]))
}

proof fn lemma_columns_of_paired(
    before: Seq<(usize, usize)>,
    variant: usize,
    live: Seq<usize>,
    kinds: spec_fn(usize, usize) -> Shape,
    n: nat,
)
    requires
        n <= live.len(),
    ensures
        columns_of(before + paired(variant, live).subrange(0, n as int), kinds) == columns_of(
            before,
            kinds,
        ) + widths(payload_kids(variant, live, kinds), n),
    decreases n,
{
    let part = paired(variant, live).subrange(0, n as int);
    if n == 0 {
        assert(before + part =~= before);
    } else {
        let m = (n - 1) as nat;
        let shorter = paired(variant, live).subrange(0, m as int);
        lemma_columns_of_paired(before, variant, live, kinds, m);
        assert((before + part).drop_last() =~= before + shorter);
        assert((before + part).last() == (variant, live[m as int]));
    }
}

/// A variant's columns start where the plan says: past the tag column and the
/// columns of the fields of the variants before it. This holds of every enum
/// schema whose variants are made up of their live fields.
pub proof fn lemma_variant_offset(
    variants: Seq<Variant>,
    forms: Seq<Form>,
    kinds: spec_fn(usize, usize) -> Shape,
    s: Shape,
    k: nat,
)
    requires
        s.kind == Kind::Enum,
        s.kids.len() == live_variants(variants, variants.len()).len(),
        forms.len() == s.kids.len(),
        k <= s.kids.len(),
        forall|i: int|
            0 <= i < s.kids.len() ==> {
                let v = live_variants(variants, variants.len())[i];
                let list = live(variants[v as int].fields@, variants[v as int].fields@.len());
                &&& takes(forms[i], list.len())
                &&& #[trigger] s.kids[i] == variant_shape(forms[i], payload_kids(v, list, kinds))
            },
    ensures
        kid_base(s, 0, k) == 1 + columns_of(
            fields_before(variants, live_variants(variants, variants.len()), k),
            kinds,
        ),
    decreases k,
{
    if k > 0 {
        let m = (k - 1) as nat;
        lemma_variant_offset(variants, forms, kinds, s, m);
        let all = live_variants(variants, variants.len());
        let v = all[m as int];
        let fields = variants[v as int].fields@;
        let list = live(fields, fields.len());
        assert(s.kids[m as int] == variant_shape(forms[m as int], payload_kids(v, list, kinds)));
        lemma_variant_columns(forms[m as int], payload_kids(v, list, kinds));
        lemma_columns_of_paired(fields_before(variants, all, m), v, list, kinds, list.len());
        assert(paired(v, list).subrange(0, list.len() as int) =~= paired(v, list));
    }
}

} // verus!
