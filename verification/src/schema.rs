//! The schema finalizer: validates the collected fields, resolves canonical
//! identifiers, groups enum values by variant identifier with collision
//! diagnostics, and produces the canonical schema — or, when any stage left a
//! diagnostic, the full batch instead.

use vstd::prelude::*;
use vstd::string::*;

use crate::collect::{collect_controls, spec_collect};
use crate::controls::{view_inputs, view_opt, view_selects, InputControl, SelectControl};
use crate::diag::{view_diags, Diagnostic, DiagnosticView};
use crate::fields::{view_entries, FieldEntry, FieldEntryView, FieldKind, FieldKindView, ScalarType, ScalarTypeView};
use crate::idents::{
    field_ident, field_ident_of, type_ident, type_ident_of, variant_ident, variant_ident_of,
};
use crate::strs::{
    lemma_lex_asym, lemma_lex_trichotomy, lex_lt, str_eq, str_lt, views_of,
};

verus! {

/// One variant of an enumerated field: its canonical identifier and the raw
/// markup value it stands for, kept so that serialization can round-trip to
/// the original string exactly.
#[derive(Debug, Clone, PartialEq, Eq)]
pub struct VariantDef {
    pub ident: String,
    pub raw: String,
}

/// The mathematical image of a `VariantDef`.
#[verifier::ext_equal]
pub struct VariantDefView {
    pub ident: Seq<char>,
    pub raw: Seq<char>,
}

impl View for VariantDef {
    type V = VariantDefView;

    open spec fn view(&self) -> VariantDefView {
        VariantDefView { ident: self.ident@, raw: self.raw@ }
    }
}

/// The type definition of an enumerated field: its canonical type identifier
/// and its variants, ordered by variant identifier.
#[derive(Debug, Clone, PartialEq, Eq)]
pub struct EnumDef {
    pub ident: String,
    pub variants: Vec<VariantDef>,
}

/// The mathematical image of an `EnumDef`.
#[verifier::ext_equal]
pub struct EnumDefView {
    pub ident: Seq<char>,
    pub variants: Seq<VariantDefView>,
}

impl View for EnumDef {
    type V = EnumDefView;

    open spec fn view(&self) -> EnumDefView {
        EnumDefView {
            ident: self.ident@,
            variants: self.variants@.map_values(|v: VariantDef| v@),
        }
    }
}

/// The resolved type of a schema field.
#[derive(Debug, Clone, PartialEq, Eq)]
pub enum FieldType {
    Text,
    Integer,
    Boolean,
    Custom(String),
    Enumeration(EnumDef),
}

/// The mathematical image of a `FieldType`.
#[verifier::ext_equal]
pub enum FieldTypeView {
    Text,
    Integer,
    Boolean,
    Custom(Seq<char>),
    Enumeration(EnumDefView),
}

impl View for FieldType {
    type V = FieldTypeView;

    open spec fn view(&self) -> FieldTypeView {
        match self {
            FieldType::Text => FieldTypeView::Text,
            FieldType::Integer => FieldTypeView::Integer,
            FieldType::Boolean => FieldTypeView::Boolean,
            FieldType::Custom(t) => FieldTypeView::Custom(t@),
            FieldType::Enumeration(e) => FieldTypeView::Enumeration(e@),
        }
    }
}

/// One finalized field: the raw field name, its canonical identifier, its
/// resolved type, whether it is required (an optional field is wrapped by the
/// renderer), and its codec override.
#[derive(Debug, Clone, PartialEq, Eq)]
pub struct SchemaField {
    pub name: String,
    pub ident: String,
    pub ty: FieldType,
    pub required: bool,
    pub codec_override: Option<String>,
}

/// The mathematical image of a `SchemaField`.
#[verifier::ext_equal]
pub struct SchemaFieldView {
    pub name: Seq<char>,
    pub ident: Seq<char>,
    pub ty: FieldTypeView,
    pub required: bool,
    pub codec_override: Option<Seq<char>>,
}

impl View for SchemaField {
    type V = SchemaFieldView;

    open spec fn view(&self) -> SchemaFieldView {
        SchemaFieldView {
            name: self.name@,
            ident: self.ident@,
            ty: self.ty@,
            required: self.required,
            codec_override: view_opt(self.codec_override),
        }
    }
}

/// The canonical schema: the target name and the fields, ordered
/// lexicographically by field name.
#[derive(Debug, Clone, PartialEq, Eq)]
pub struct Schema {
    pub name: String,
    pub fields: Vec<SchemaField>,
}

/// The mathematical image of a `Schema`.
#[verifier::ext_equal]
pub struct SchemaView {
    pub name: Seq<char>,
    pub fields: Seq<SchemaFieldView>,
}

impl View for Schema {
    type V = SchemaView;

    open spec fn view(&self) -> SchemaView {
        SchemaView { name: self.name@, fields: self.fields@.map_values(|f: SchemaField| f@) }
    }
}

/// A group of raw values sharing one canonical variant identifier, the
/// members in the order the sorted value set supplied them.
pub struct GroupEntry {
    pub ident: String,
    pub members: Vec<String>,
}

/// The mathematical image of a `GroupEntry`.
#[verifier::ext_equal]
pub struct GroupEntryView {
    pub ident: Seq<char>,
    pub members: Seq<Seq<char>>,
}

impl View for GroupEntry {
    type V = GroupEntryView;

    open spec fn view(&self) -> GroupEntryView {
        GroupEntryView { ident: self.ident@, members: views_of(self.members@) }
    }
}

/// The views of a list of groups.
pub open spec fn view_groups(gs: Seq<GroupEntry>) -> Seq<GroupEntryView> {
    gs.map_values(|g: GroupEntry| g@)
}

/// Inserting a raw value under its variant identifier into the
/// identifier-sorted group list.
pub open spec fn group_insert(
    gs: Seq<GroupEntryView>,
    ident: Seq<char>,
    raw: Seq<char>,
) -> Seq<GroupEntryView>
    decreases gs.len(),
{
    if gs.len() == 0 {
        seq![GroupEntryView { ident: ident, members: seq![raw] }]
    } else if ident == gs[0].ident {
        seq![GroupEntryView { ident: ident, members: gs[0].members.push(raw) }] + gs.drop_first()
    } else if lex_lt(ident, gs[0].ident) {
        seq![GroupEntryView { ident: ident, members: seq![raw] }] + gs
    } else {
        seq![gs[0]] + group_insert(gs.drop_first(), ident, raw)
    }
}

proof fn lemma_group_insert_merge(gs: Seq<GroupEntryView>, ident: Seq<char>, raw: Seq<char>, j: int)
    requires
        0 <= j < gs.len(),
        gs[j].ident == ident,
        forall|k: int| 0 <= k < j ==> lex_lt(#[trigger] gs[k].ident, ident),
    ensures
        group_insert(gs, ident, raw) == gs.update(
            j,
            GroupEntryView { ident: ident, members: gs[j].members.push(raw) },
        ),
    decreases j,
{
    let updated = GroupEntryView { ident: ident, members: gs[j].members.push(raw) };
    if j == 0 {
        assert(group_insert(gs, ident, raw) =~= gs.update(0, updated));
    } else {
        lemma_lex_asym(gs[0].ident, ident);
        let d = gs.drop_first();
        assert(forall|k: int| 0 <= k < j - 1 ==> d[k] == gs[k + 1]);
        lemma_group_insert_merge(d, ident, raw, j - 1);
        assert(seq![gs[0]] + d.update(j - 1, updated) =~= gs.update(j, updated));
    }
}

proof fn lemma_group_insert_fresh(gs: Seq<GroupEntryView>, ident: Seq<char>, raw: Seq<char>, j: int)
    requires
        0 <= j <= gs.len(),
        forall|k: int| 0 <= k < j ==> lex_lt(#[trigger] gs[k].ident, ident),
        j < gs.len() ==> !lex_lt(gs[j].ident, ident) && gs[j].ident != ident,
    ensures
        group_insert(gs, ident, raw) == gs.take(j) + seq![
            GroupEntryView { ident: ident, members: seq![raw] },
        ] + gs.skip(j),
    decreases j,
{
    let fresh = GroupEntryView { ident: ident, members: seq![raw] };
    if j == 0 {
        if gs.len() == 0 {
            assert(group_insert(gs, ident, raw) =~= gs.take(0) + seq![fresh] + gs.skip(0));
        } else {
            lemma_lex_trichotomy(ident, gs[0].ident);
            assert(lex_lt(ident, gs[0].ident));
            assert(group_insert(gs, ident, raw) =~= gs.take(0) + seq![fresh] + gs.skip(0));
        }
    } else {
        lemma_lex_asym(gs[0].ident, ident);
        let d = gs.drop_first();
        assert(forall|k: int| 0 <= k < j - 1 ==> d[k] == gs[k + 1]);
        lemma_group_insert_fresh(d, ident, raw, j - 1);
        assert(seq![gs[0]] + (d.take(j - 1) + seq![fresh] + d.skip(j - 1)) =~= gs.take(j)
            + seq![fresh] + gs.skip(j));
    }
}

/// The first `n` raw values grouped by their canonical variant identifier.
pub open spec fn group_fold(vals: Seq<Seq<char>>, n: int) -> Seq<GroupEntryView>
    decreases n,
{
    if n <= 0 {
        Seq::<GroupEntryView>::empty()
    } else {
        group_insert(group_fold(vals, n - 1), variant_ident_of(vals[n - 1]), vals[n - 1])
    }
}

proof fn lemma_group_insert_nonempty(gs: Seq<GroupEntryView>, ident: Seq<char>, raw: Seq<char>)
    requires
        forall|k: int| 0 <= k < gs.len() ==> (#[trigger] gs[k].members).len() > 0,
    ensures
        forall|k: int|
            0 <= k < group_insert(gs, ident, raw).len() ==> (#[trigger] group_insert(
                gs,
                ident,
                raw,
            )[k].members).len() > 0,
    decreases gs.len(),
{
    let r = group_insert(gs, ident, raw);
    if gs.len() == 0 {
        assert(r[0].members.len() == 1);
    } else if ident == gs[0].ident {
        assert forall|k: int| 0 <= k < r.len() implies (#[trigger] r[k].members).len() > 0 by {
            if k > 0 {
                assert(r[k] == gs[k]);
            }
        }
    } else if lex_lt(ident, gs[0].ident) {
        assert forall|k: int| 0 <= k < r.len() implies (#[trigger] r[k].members).len() > 0 by {
            if k > 0 {
                assert(r[k] == gs[k - 1]);
            }
        }
    } else {
        let d = gs.drop_first();
        assert(forall|k: int| 0 <= k < d.len() ==> d[k] == gs[k + 1]);
        lemma_group_insert_nonempty(d, ident, raw);
        assert forall|k: int| 0 <= k < r.len() implies (#[trigger] r[k].members).len() > 0 by {
            if k > 0 {
                assert(r[k] == group_insert(d, ident, raw)[k - 1]);
            }
        }
    }
}

/// Every group a fold yields holds at least one raw value.
pub proof fn lemma_group_fold_nonempty(vals: Seq<Seq<char>>, n: int)
    ensures
        forall|k: int|
            0 <= k < group_fold(vals, n).len() ==> (#[trigger] group_fold(
                vals,
                n,
            )[k].members).len() > 0,
    decreases n,
{
    if n > 0 {
        lemma_group_fold_nonempty(vals, n - 1);
        lemma_group_insert_nonempty(group_fold(vals, n - 1), variant_ident_of(vals[n - 1]), vals[n - 1]);
    }
}

fn group_lower_bound(gs: &Vec<GroupEntry>, ident: &str) -> (j: usize)
    ensures
        j <= gs@.len(),
        forall|k: int| 0 <= k < j ==> lex_lt(#[trigger] view_groups(gs@)[k].ident, ident@),
        j < gs@.len() ==> !lex_lt(view_groups(gs@)[j as int].ident, ident@),
{
    let mut j: usize = 0;
    loop
        invariant
            j <= gs.len(),
            forall|k: int| 0 <= k < j ==> lex_lt(#[trigger] view_groups(gs@)[k].ident, ident@),
        decreases gs.len() - j,
    {
        if j == gs.len() {
            return j;
        }
        if !str_lt(gs[j].ident.as_str(), ident) {
            return j;
        }
        j = j + 1;
    }
}

fn group_insert_exec(gs: &mut Vec<GroupEntry>, ident: String, raw: &str)
    ensures
        view_groups(final(gs)@) == group_insert(view_groups(old(gs)@), ident@, raw@),
{
    let ghost gs0 = view_groups(gs@);
    let j = group_lower_bound(gs, ident.as_str());
    if j < gs.len() && str_eq(gs[j].ident.as_str(), ident.as_str()) {
        proof {
            lemma_group_insert_merge(gs0, ident@, raw@, j as int);
        }
        let mut e = gs.remove(j);
        e.members.push(raw.to_owned());
        gs.insert(j, e);
        proof {
            assert(view_groups(gs@) =~~= gs0.update(
                j as int,
                GroupEntryView { ident: ident@, members: gs0[j as int].members.push(raw@) },
            ));
        }
    } else {
        proof {
            lemma_group_insert_fresh(gs0, ident@, raw@, j as int);
        }
        let mut members: Vec<String> = Vec::new();
        members.push(raw.to_owned());
        gs.insert(j, GroupEntry { ident, members });
        proof {
            assert(view_groups(gs@) =~~= gs0.take(j as int) + seq![
                GroupEntryView { ident: ident@, members: seq![raw@] },
            ] + gs0.skip(j as int));
        }
    }
}

/// Groups the sorted raw values of one enumerated field by their canonical
/// variant identifiers.
pub fn group_values(values: &Vec<String>) -> (gs: Vec<GroupEntry>)
    ensures
        view_groups(gs@) == group_fold(views_of(values@), values@.len() as int),
{
    let mut gs: Vec<GroupEntry> = Vec::new();
    proof {
        assert(view_groups(gs@) =~= group_fold(views_of(values@), 0));
    }
    let mut i: usize = 0;
    while i < values.len()
        invariant
            i <= values.len(),
            view_groups(gs@) == group_fold(views_of(values@), i as int),
        decreases values.len() - i,
    {
        let vid = variant_ident(values[i].as_str());
        proof {
            assert(views_of(values@)[i as int] == values@[i as int]@);
        }
        group_insert_exec(&mut gs, vid, values[i].as_str());
        i = i + 1;
    }
    gs
}

/// The variants a group list yields: one per group, tagged with the group's
/// first (lexicographically least) raw value.
pub open spec fn variants_of_groups(gs: Seq<GroupEntryView>) -> Seq<VariantDefView> {
    gs.map_values(|g: GroupEntryView| VariantDefView { ident: g.ident, raw: g.members[0] })
}

/// The collision diagnostics of the first `n` groups: one per group that
/// holds more than one raw value, naming every colliding raw value.
pub open spec fn collision_diags(
    field: Seq<char>,
    gs: Seq<GroupEntryView>,
    n: int,
) -> Seq<DiagnosticView>
    decreases n,
{
    if n <= 0 {
        Seq::<DiagnosticView>::empty()
    } else {
        let prev = collision_diags(field, gs, n - 1);
        if gs[n - 1].members.len() > 1 {
            prev.push(
                DiagnosticView::VariantCollision {
                    field: field,
                    variant: gs[n - 1].ident,
                    originals: gs[n - 1].members,
                },
            )
        } else {
            prev
        }
    }
}

/// The scalar type tag as a field type.
pub open spec fn scalar_field_type(t: ScalarTypeView) -> FieldTypeView {
    match t {
        ScalarTypeView::Text => FieldTypeView::Text,
        ScalarTypeView::Integer => FieldTypeView::Integer,
        ScalarTypeView::Boolean => FieldTypeView::Boolean,
        ScalarTypeView::Custom(s) => FieldTypeView::Custom(s),
    }
}

/// What the finalizer makes of one collected entry: a scalar field keeps its
/// tag; an enumerated field with no values yields only a diagnostic; any
/// other enumerated field yields its type definition and the collision
/// diagnostics of its value groups.
pub open spec fn finalize_entry(e: FieldEntryView) -> (Option<SchemaFieldView>, Seq<DiagnosticView>) {
    match e.info.kind {
        FieldKindView::Scalar(t) => (
            Some(
                SchemaFieldView {
                    name: e.name,
                    ident: field_ident_of(e.name),
                    ty: scalar_field_type(t),
                    required: e.info.required,
                    codec_override: e.info.codec_override,
                },
            ),
            Seq::<DiagnosticView>::empty(),
        ),
        FieldKindView::Enumerated => {
            if e.values.len() == 0 {
                (None, seq![DiagnosticView::EnumNoValues { field: e.name }])
            } else {
                let gs = group_fold(e.values, e.values.len() as int);
                (
                    Some(
                        SchemaFieldView {
                            name: e.name,
                            ident: field_ident_of(e.name),
                            ty: FieldTypeView::Enumeration(
                                EnumDefView {
                                    ident: type_ident_of(e.name),
                                    variants: variants_of_groups(gs),
                                },
                            ),
                            required: e.info.required,
                            codec_override: e.info.codec_override,
                        },
                    ),
                    collision_diags(e.name, gs, gs.len() as int),
                )
            }
        },
    }
}

/// The finalized fields and diagnostics of the first `n` collected entries.
pub open spec fn finalize_fold(es: Seq<FieldEntryView>, n: int) -> (
    Seq<SchemaFieldView>,
    Seq<DiagnosticView>,
)
    decreases n,
{
    if n <= 0 {
        (Seq::<SchemaFieldView>::empty(), Seq::<DiagnosticView>::empty())
    } else {
        let (fs, ds) = finalize_fold(es, n - 1);
        let (fo, d1) = finalize_entry(es[n - 1]);
        (
            match fo {
                Some(f) => fs.push(f),
                None => fs,
            },
            ds + d1,
        )
    }
}

/// The whole derivation: the collected state finalized; when any stage left a
/// diagnostic the full batch is the result, otherwise the canonical schema.
pub open spec fn spec_derive(
    inputs: Seq<crate::controls::InputControlView>,
    selects: Seq<crate::controls::SelectControlView>,
    target: Seq<char>,
) -> Result<SchemaView, Seq<DiagnosticView>> {
    let st = spec_collect(inputs, selects);
    let (fs, ds) = finalize_fold(st.fields, st.fields.len() as int);
    let all = st.diags + ds;
    if all.len() == 0 {
        Ok(SchemaView { name: target, fields: fs })
    } else {
        Err(all)
    }
}

/// The view of a derivation result.
pub open spec fn view_result(r: Result<Schema, Vec<Diagnostic>>) -> Result<
    SchemaView,
    Seq<DiagnosticView>,
> {
    match r {
        Ok(s) => Ok(s@),
        Err(ds) => Err(view_diags(ds@)),
    }
}

fn clone_strings(v: &Vec<String>) -> (r: Vec<String>)
    ensures
        views_of(r@) == views_of(v@),
{
    let mut r: Vec<String> = Vec::new();
    let mut i: usize = 0;
    while i < v.len()
        invariant
            i <= v.len(),
            r@.len() == i,
            forall|k: int| 0 <= k < i ==> r@[k]@ == v@[k]@,
        decreases v.len() - i,
    {
        r.push(v[i].clone());
        i = i + 1;
    }
    proof {
        assert(views_of(r@) =~= views_of(v@));
    }
    r
}

fn finalize_entry_exec(e: &FieldEntry, diags: &mut Vec<Diagnostic>) -> (r: Option<SchemaField>)
    ensures
        match (r, finalize_entry(e@).0) {
            (Some(f), Some(fv)) => f@ == fv,
            (None, None) => true,
            _ => false,
        },
        view_diags(final(diags)@) == view_diags(old(diags)@) + finalize_entry(e@).1,
{
    let ghost ds0 = view_diags(old(diags)@);
    match &e.info.kind {
        FieldKind::Scalar(t) => {
            let ty = match t {
                ScalarType::Text => FieldType::Text,
                ScalarType::Integer => FieldType::Integer,
                ScalarType::Boolean => FieldType::Boolean,
                ScalarType::Custom(s) => FieldType::Custom(s.clone()),
            };
            let f = SchemaField {
                name: e.name.clone(),
                ident: field_ident(e.name.as_str()),
                ty,
                required: e.info.required,
                codec_override: match &e.info.codec_override {
                    Some(w) => Some(w.clone()),
                    None => None,
                },
            };
            proof {
                assert(view_diags(diags@) =~= ds0 + finalize_entry(e@).1);
            }
            Some(f)
        },
        FieldKind::Enumerated => {
            if e.values.len() == 0 {
                diags.push(Diagnostic::EnumNoValues { field: e.name.clone() });
                proof {
                    assert(view_diags(diags@) =~= ds0 + finalize_entry(e@).1);
                }
                None
            } else {
                let gs = group_values(&e.values);
                let ghost gviews = view_groups(gs@);
                proof {
                    lemma_group_fold_nonempty(views_of(e.values@), e.values@.len() as int);
                }
                let mut variants: Vec<VariantDef> = Vec::new();
                let mut i: usize = 0;
                while i < gs.len()
                    invariant
                        i <= gs.len(),
                        gviews == view_groups(gs@),
                        gviews == group_fold(views_of(e.values@), e.values@.len() as int),
                        variants@.len() == i,
                        forall|k: int|
                            0 <= k < i ==> (#[trigger] variants@[k])@ == (VariantDefView {
                                ident: gviews[k].ident,
                                raw: gviews[k].members[0],
                            }),
                        view_diags(diags@) == ds0 + collision_diags(e@.name, gviews, i as int),
                        forall|k: int|
                            0 <= k < gviews.len() ==> (#[trigger] gviews[k].members).len() > 0,
                    decreases gs.len() - i,
                {
                    let g = &gs[i];
                    proof {
                        assert(gviews[i as int] == g@);
                        assert(g@.members.len() > 0);
                        assert(views_of(g.members@)[0] == g.members@[0]@);
                    }
                    variants.push(
                        VariantDef { ident: g.ident.clone(), raw: g.members[0].clone() },
                    );
                    let ghost prevds = collision_diags(e@.name, gviews, i as int);
                    let ghost dv = DiagnosticView::VariantCollision {
                        field: e@.name,
                        variant: gviews[i as int].ident,
                        originals: gviews[i as int].members,
                    };
                    if g.members.len() > 1 {
                        diags.push(
                            Diagnostic::VariantCollision {
                                field: e.name.clone(),
                                variant: g.ident.clone(),
                                originals: clone_strings(&g.members),
                            },
                        );
                        proof {
                            assert(view_diags(diags@) =~~= (ds0 + prevds).push(dv));
                            assert((ds0 + prevds).push(dv) =~= ds0 + prevds.push(dv));
                            assert(collision_diags(e@.name, gviews, i as int + 1) == prevds.push(
                                dv,
                            ));
                        }
                    } else {
                        proof {
                            assert(collision_diags(e@.name, gviews, i as int + 1) == prevds);
                        }
                    }
                    i = i + 1;
                }
                proof {
                    assert(variants@.map_values(|v: VariantDef| v@) =~~= variants_of_groups(
                        gviews,
                    ));
                }
                let f = SchemaField {
                    name: e.name.clone(),
                    ident: field_ident(e.name.as_str()),
                    ty: FieldType::Enumeration(
                        EnumDef { ident: type_ident(e.name.as_str()), variants },
                    ),
                    required: e.info.required,
                    codec_override: match &e.info.codec_override {
                        Some(w) => Some(w.clone()),
                        None => None,
                    },
                };
                proof {
                    assert(f@.ty =~~= finalize_entry(e@).0->Some_0.ty);
                    assert(f@ =~~= finalize_entry(e@).0->Some_0);
                }
                Some(f)
            }
        },
    }
}

/// Derives the canonical schema from the collected controls of one run: the
/// result is exactly `spec_derive` of the controls and the target name, so a
/// run either produces the schema with every diagnostic-free field, or the
/// batch holding every diagnostic of every stage.
///
/// Identifier collisions are diagnosed in one namespace only: the variant
/// identifiers within one enumeration, the one collision the engine's error
/// categories name. Two field names, or two enumeration names, that
/// canonicalize to the same identifier are deliberately emitted as they
/// stand; such a pair surfaces when the rendered definitions are compiled.
pub fn derive_schema(
    inputs: &Vec<InputControl>,
    selects: &Vec<SelectControl>,
    target: &str,
) -> (r: Result<Schema, Vec<Diagnostic>>)
    ensures
        view_result(r) == spec_derive(view_inputs(inputs@), view_selects(selects@), target@),
{
    let st = collect_controls(inputs, selects);
    let ghost stv = spec_collect(view_inputs(inputs@), view_selects(selects@));
    let entries = st.fields;
    let mut diags = st.diags;
    let ghost collect_diags = stv.diags;
    let ghost eviews = stv.fields;
    let mut out_fields: Vec<SchemaField> = Vec::new();
    let mut i: usize = 0;
    proof {
        assert(view_diags(diags@) =~= collect_diags + finalize_fold(eviews, 0).1);
        assert(out_fields@.map_values(|f: SchemaField| f@) =~= finalize_fold(eviews, 0).0);
    }
    while i < entries.len()
        invariant
            i <= entries.len(),
            eviews == view_entries(entries@),
            out_fields@.map_values(|f: SchemaField| f@) == finalize_fold(eviews, i as int).0,
            view_diags(diags@) == collect_diags + finalize_fold(eviews, i as int).1,
        decreases entries.len() - i,
    {
        proof {
            assert(eviews[i as int] == entries@[i as int]@);
        }
        let fo = finalize_entry_exec(&entries[i], &mut diags);
        match fo {
            Some(f) => {
                out_fields.push(f);
                proof {
                    assert(out_fields@.map_values(|f: SchemaField| f@) =~= finalize_fold(
                        eviews,
                        i as int + 1,
                    ).0);
                }
            },
            None => {},
        }
        proof {
            assert(view_diags(diags@) =~= collect_diags + finalize_fold(eviews, i as int + 1).1);
        }
        i = i + 1;
    }
    if diags.len() == 0 {
        proof {
            assert(view_diags(diags@) =~= Seq::<DiagnosticView>::empty());
            assert((collect_diags + finalize_fold(eviews, eviews.len() as int).1).len() == 0);
        }
        let s = Schema { name: target.to_owned(), fields: out_fields };
        proof {
            assert(s@ =~~= spec_derive(
                view_inputs(inputs@),
                view_selects(selects@),
                target@,
            )->Ok_0);
        }
        Ok(s)
    } else {
        proof {
            assert(view_diags(diags@).len() > 0);
        }
        Err(diags)
    }
}

} // verus!
