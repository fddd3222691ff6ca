//! The collected description of one field, the merge policy applied when a
//! field name recurs, and the name-keyed collection kept sorted so that the
//! finalized schema is ordered lexicographically by field name.

use vstd::prelude::*;
use vstd::string::*;

use crate::controls::view_opt;
use crate::strs::{
    lemma_lex_asym, lemma_lex_trichotomy, lex_lt, str_eq, str_lt, views_of,
};

verus! {

/// The type tag of a scalar field: inferred from the control, or overridden
/// by a directive.
#[derive(Debug, Clone, PartialEq, Eq)]
pub enum ScalarType {
    Text,
    Integer,
    Boolean,
    Custom(String),
}

/// The mathematical image of a `ScalarType`.
#[verifier::ext_equal]
pub enum ScalarTypeView {
    Text,
    Integer,
    Boolean,
    Custom(Seq<char>),
}

impl View for ScalarType {
    type V = ScalarTypeView;

    open spec fn view(&self) -> ScalarTypeView {
        match self {
            ScalarType::Text => ScalarTypeView::Text,
            ScalarType::Integer => ScalarTypeView::Integer,
            ScalarType::Boolean => ScalarTypeView::Boolean,
            ScalarType::Custom(t) => ScalarTypeView::Custom(t@),
        }
    }
}

/// A field is a scalar of one type, or enumerated over a closed value set.
#[derive(Debug, Clone, PartialEq, Eq)]
pub enum FieldKind {
    Scalar(ScalarType),
    Enumerated,
}

/// The mathematical image of a `FieldKind`.
#[verifier::ext_equal]
pub enum FieldKindView {
    Scalar(ScalarTypeView),
    Enumerated,
}

impl View for FieldKind {
    type V = FieldKindView;

    open spec fn view(&self) -> FieldKindView {
        match self {
            FieldKind::Scalar(t) => FieldKindView::Scalar(t@),
            FieldKind::Enumerated => FieldKindView::Enumerated,
        }
    }
}

/// What is known about one field while collecting.
#[derive(Debug, Clone, PartialEq, Eq)]
pub struct FieldInfo {
    pub kind: FieldKind,
    pub required: bool,
    pub codec_override: Option<String>,
}

/// The mathematical image of a `FieldInfo`.
#[verifier::ext_equal]
pub struct FieldInfoView {
    pub kind: FieldKindView,
    pub required: bool,
    pub codec_override: Option<Seq<char>>,
}

impl View for FieldInfo {
    type V = FieldInfoView;

    open spec fn view(&self) -> FieldInfoView {
        FieldInfoView {
            kind: self.kind@,
            required: self.required,
            codec_override: view_opt(self.codec_override),
        }
    }
}

/// The merge policy when a field name recurs: `required` is the OR of the
/// occurrences, a present codec override from a later occurrence replaces the
/// prior one, and a later scalar classification replaces the existing kind —
/// including a prior enumerated one — while a later enumerated one does not.
pub open spec fn merge_info(existing: FieldInfoView, incoming: FieldInfoView) -> FieldInfoView {
    FieldInfoView {
        required: existing.required || incoming.required,
        codec_override: if incoming.codec_override is Some {
            incoming.codec_override
        } else {
            existing.codec_override
        },
        kind: if incoming.kind is Scalar {
            incoming.kind
        } else {
            existing.kind
        },
    }
}

/// Merges a later description of a field into the existing one.
pub fn merge_info_exec(existing: FieldInfo, incoming: FieldInfo) -> (r: FieldInfo)
    ensures
        r@ == merge_info(existing@, incoming@),
{
    let required = existing.required || incoming.required;
    let codec_override = match incoming.codec_override {
        Some(w) => Some(w),
        None => existing.codec_override,
    };
    let kind = match incoming.kind {
        FieldKind::Scalar(t) => FieldKind::Scalar(t),
        FieldKind::Enumerated => existing.kind,
    };
    FieldInfo { kind, required, codec_override }
}

/// One collected field: its name, what is known about it, and — for
/// enumerated fields — its deduplicated, sorted raw values.
pub struct FieldEntry {
    pub name: String,
    pub info: FieldInfo,
    pub values: Vec<String>,
}

/// The mathematical image of a `FieldEntry`.
#[verifier::ext_equal]
pub struct FieldEntryView {
    pub name: Seq<char>,
    pub info: FieldInfoView,
    pub values: Seq<Seq<char>>,
}

impl View for FieldEntry {
    type V = FieldEntryView;

    open spec fn view(&self) -> FieldEntryView {
        FieldEntryView { name: self.name@, info: self.info@, values: views_of(self.values@) }
    }
}

/// The views of a list of field entries.
pub open spec fn view_entries(es: Seq<FieldEntry>) -> Seq<FieldEntryView> {
    es.map_values(|e: FieldEntry| e@)
}

/// Inserting a description under a name into the name-sorted entry list:
/// an existing entry with that name absorbs it by the merge policy, any other
/// name gets a fresh entry with no values at its sorted position.
pub open spec fn spec_upsert(
    fs: Seq<FieldEntryView>,
    name: Seq<char>,
    info: FieldInfoView,
) -> Seq<FieldEntryView>
    decreases fs.len(),
{
    if fs.len() == 0 {
        seq![FieldEntryView { name: name, info: info, values: Seq::<Seq<char>>::empty() }]
    } else if name == fs[0].name {
        seq![
            FieldEntryView { name: name, info: merge_info(fs[0].info, info), values: fs[0].values },
        ] + fs.drop_first()
    } else if lex_lt(name, fs[0].name) {
        seq![FieldEntryView { name: name, info: info, values: Seq::<Seq<char>>::empty() }] + fs
    } else {
        seq![fs[0]] + spec_upsert(fs.drop_first(), name, info)
    }
}

proof fn lemma_upsert_merge(fs: Seq<FieldEntryView>, name: Seq<char>, info: FieldInfoView, j: int)
    requires
        0 <= j < fs.len(),
        fs[j].name == name,
        forall|k: int| 0 <= k < j ==> lex_lt(#[trigger] fs[k].name, name),
    ensures
        spec_upsert(fs, name, info) == fs.update(
            j,
            FieldEntryView {
                name: name,
                info: merge_info(fs[j].info, info),
                values: fs[j].values,
            },
        ),
    decreases j,
{
    if j == 0 {
        assert(spec_upsert(fs, name, info) =~= fs.update(
            0,
            FieldEntryView {
                name: name,
                info: merge_info(fs[0].info, info),
                values: fs[0].values,
            },
        ));
    } else {
        lemma_lex_asym(fs[0].name, name);
        let d = fs.drop_first();
        assert(forall|k: int| 0 <= k < j - 1 ==> d[k] == fs[k + 1]);
        lemma_upsert_merge(d, name, info, j - 1);
        let merged = FieldEntryView {
            name: name,
            info: merge_info(fs[j].info, info),
            values: fs[j].values,
        };
        assert(seq![fs[0]] + d.update(j - 1, merged) =~= fs.update(j, merged));
    }
}

proof fn lemma_upsert_insert(fs: Seq<FieldEntryView>, name: Seq<char>, info: FieldInfoView, j: int)
    requires
        0 <= j <= fs.len(),
        forall|k: int| 0 <= k < j ==> lex_lt(#[trigger] fs[k].name, name),
        j < fs.len() ==> !lex_lt(fs[j].name, name) && fs[j].name != name,
    ensures
        spec_upsert(fs, name, info) == fs.take(j) + seq![
            FieldEntryView { name: name, info: info, values: Seq::<Seq<char>>::empty() },
        ] + fs.skip(j),
    decreases j,
{
    let fresh = FieldEntryView { name: name, info: info, values: Seq::<Seq<char>>::empty() };
    if j == 0 {
        if fs.len() == 0 {
            assert(spec_upsert(fs, name, info) =~= fs.take(0) + seq![fresh] + fs.skip(0));
        } else {
            lemma_lex_trichotomy(name, fs[0].name);
            assert(lex_lt(name, fs[0].name));
            assert(spec_upsert(fs, name, info) =~= fs.take(0) + seq![fresh] + fs.skip(0));
        }
    } else {
        lemma_lex_asym(fs[0].name, name);
        let d = fs.drop_first();
        assert(forall|k: int| 0 <= k < j - 1 ==> d[k] == fs[k + 1]);
        lemma_upsert_insert(d, name, info, j - 1);
        assert(seq![fs[0]] + (d.take(j - 1) + seq![fresh] + d.skip(j - 1)) =~= fs.take(j)
            + seq![fresh] + fs.skip(j));
    }
}

/// Inserting a raw value into a sorted, deduplicated value list.
pub open spec fn insert_sorted(vs: Seq<Seq<char>>, v: Seq<char>) -> Seq<Seq<char>>
    decreases vs.len(),
{
    if vs.len() == 0 {
        seq![v]
    } else if v == vs[0] {
        vs
    } else if lex_lt(v, vs[0]) {
        seq![v] + vs
    } else {
        seq![vs[0]] + insert_sorted(vs.drop_first(), v)
    }
}

proof fn lemma_insert_sorted_at(vs: Seq<Seq<char>>, v: Seq<char>, j: int)
    requires
        0 <= j <= vs.len(),
        forall|k: int| 0 <= k < j ==> lex_lt(#[trigger] vs[k], v),
        j < vs.len() ==> !lex_lt(vs[j], v),
    ensures
        insert_sorted(vs, v) == if j < vs.len() && vs[j] == v {
            vs
        } else {
            vs.take(j) + seq![v] + vs.skip(j)
        },
    decreases j,
{
    if j == 0 {
        if vs.len() == 0 {
            assert(insert_sorted(vs, v) =~= vs.take(0) + seq![v] + vs.skip(0));
        } else if vs[0] == v {
        } else {
            lemma_lex_trichotomy(v, vs[0]);
            assert(lex_lt(v, vs[0]));
            assert(insert_sorted(vs, v) =~= vs.take(0) + seq![v] + vs.skip(0));
        }
    } else {
        lemma_lex_asym(vs[0], v);
        let d = vs.drop_first();
        assert(forall|k: int| 0 <= k < j - 1 ==> d[k] == vs[k + 1]);
        lemma_insert_sorted_at(d, v, j - 1);
        if j < vs.len() && vs[j] == v {
            assert(seq![vs[0]] + d =~= vs);
        } else {
            assert(seq![vs[0]] + (d.take(j - 1) + seq![v] + d.skip(j - 1)) =~= vs.take(j) + seq![v]
                + vs.skip(j));
        }
    }
}

/// Adding a raw value to the value set of the entry named `name`; without
/// such an entry the list is unchanged.
pub open spec fn spec_add_value(
    fs: Seq<FieldEntryView>,
    name: Seq<char>,
    v: Seq<char>,
) -> Seq<FieldEntryView>
    decreases fs.len(),
{
    if fs.len() == 0 {
        fs
    } else if name == fs[0].name {
        seq![
            FieldEntryView {
                name: fs[0].name,
                info: fs[0].info,
                values: insert_sorted(fs[0].values, v),
            },
        ] + fs.drop_first()
    } else {
        seq![fs[0]] + spec_add_value(fs.drop_first(), name, v)
    }
}

proof fn lemma_add_value_at(fs: Seq<FieldEntryView>, name: Seq<char>, v: Seq<char>, j: int)
    requires
        0 <= j < fs.len(),
        fs[j].name == name,
        forall|k: int| 0 <= k < j ==> (#[trigger] fs[k].name) != name,
    ensures
        spec_add_value(fs, name, v) == fs.update(
            j,
            FieldEntryView {
                name: fs[j].name,
                info: fs[j].info,
                values: insert_sorted(fs[j].values, v),
            },
        ),
    decreases j,
{
    let updated = FieldEntryView {
        name: fs[j].name,
        info: fs[j].info,
        values: insert_sorted(fs[j].values, v),
    };
    if j == 0 {
        assert(spec_add_value(fs, name, v) =~= fs.update(0, updated));
    } else {
        let d = fs.drop_first();
        assert(forall|k: int| 0 <= k < j - 1 ==> d[k] == fs[k + 1]);
        lemma_add_value_at(d, name, v, j - 1);
        assert(seq![fs[0]] + d.update(j - 1, updated) =~= fs.update(j, updated));
    }
}

proof fn lemma_add_value_absent(fs: Seq<FieldEntryView>, name: Seq<char>, v: Seq<char>)
    requires
        forall|k: int| 0 <= k < fs.len() ==> (#[trigger] fs[k].name) != name,
    ensures
        spec_add_value(fs, name, v) == fs,
    decreases fs.len(),
{
    if fs.len() > 0 {
        let d = fs.drop_first();
        assert(forall|k: int| 0 <= k < d.len() ==> d[k] == fs[k + 1]);
        lemma_add_value_absent(d, name, v);
        assert(seq![fs[0]] + d =~= fs);
    }
}

fn lower_bound_entry(fields: &Vec<FieldEntry>, name: &str) -> (j: usize)
    ensures
        j <= fields@.len(),
        forall|k: int| 0 <= k < j ==> lex_lt(#[trigger] view_entries(fields@)[k].name, name@),
        j < fields@.len() ==> !lex_lt(view_entries(fields@)[j as int].name, name@),
{
    let mut j: usize = 0;
    loop
        invariant
            j <= fields.len(),
            forall|k: int| 0 <= k < j ==> lex_lt(#[trigger] view_entries(fields@)[k].name, name@),
        decreases fields.len() - j,
    {
        if j == fields.len() {
            return j;
        }
        if !str_lt(fields[j].name.as_str(), name) {
            return j;
        }
        j = j + 1;
    }
}

/// Inserts or merges the description of field `name` into the sorted entry
/// list.
pub fn upsert_field(fields: &mut Vec<FieldEntry>, name: &str, info: FieldInfo)
    ensures
        view_entries(final(fields)@) == spec_upsert(view_entries(old(fields)@), name@, info@),
{
    let ghost fs0 = view_entries(fields@);
    let j = lower_bound_entry(fields, name);
    if j < fields.len() && str_eq(fields[j].name.as_str(), name) {
        proof {
            lemma_upsert_merge(fs0, name@, info@, j as int);
        }
        let e = fields.remove(j);
        let merged = FieldEntry {
            name: e.name,
            info: merge_info_exec(e.info, info),
            values: e.values,
        };
        fields.insert(j, merged);
        proof {
            assert(view_entries(fields@) =~= fs0.update(
                j as int,
                FieldEntryView {
                    name: name@,
                    info: merge_info(fs0[j as int].info, info@),
                    values: fs0[j as int].values,
                },
            ));
        }
    } else {
        proof {
            lemma_upsert_insert(fs0, name@, info@, j as int);
        }
        fields.insert(j, FieldEntry { name: name.to_owned(), info, values: Vec::new() });
        proof {
            assert(view_entries(fields@) =~~= fs0.take(j as int) + seq![
                FieldEntryView {
                    name: name@,
                    info: info@,
                    values: Seq::<Seq<char>>::empty(),
                },
            ] + fs0.skip(j as int));
        }
    }
}

fn lower_bound_value(vs: &Vec<String>, v: &str) -> (j: usize)
    ensures
        j <= vs@.len(),
        forall|k: int| 0 <= k < j ==> lex_lt(#[trigger] views_of(vs@)[k], v@),
        j < vs@.len() ==> !lex_lt(views_of(vs@)[j as int], v@),
{
    let mut j: usize = 0;
    loop
        invariant
            j <= vs.len(),
            forall|k: int| 0 <= k < j ==> lex_lt(#[trigger] views_of(vs@)[k], v@),
        decreases vs.len() - j,
    {
        if j == vs.len() {
            return j;
        }
        if !str_lt(vs[j].as_str(), v) {
            return j;
        }
        j = j + 1;
    }
}

fn insert_value_sorted(vs: &mut Vec<String>, v: &str)
    ensures
        views_of(final(vs)@) == insert_sorted(views_of(old(vs)@), v@),
{
    let ghost vs0 = views_of(vs@);
    let j = lower_bound_value(vs, v);
    proof {
        lemma_insert_sorted_at(vs0, v@, j as int);
    }
    if j < vs.len() && str_eq(vs[j].as_str(), v) {
    } else {
        vs.insert(j, v.to_owned());
        proof {
            assert(views_of(vs@) =~= vs0.take(j as int) + seq![v@] + vs0.skip(j as int));
        }
    }
}

fn find_entry(fields: &Vec<FieldEntry>, name: &str) -> (r: Option<usize>)
    ensures
        match r {
            Some(j) => j < fields@.len() && view_entries(fields@)[j as int].name == name@ && forall|
                k: int,
            | 0 <= k < j ==> (#[trigger] view_entries(fields@)[k].name) != name@,
            None => forall|k: int|
                0 <= k < fields@.len() ==> (#[trigger] view_entries(fields@)[k].name) != name@,
        },
{
    let mut j: usize = 0;
    loop
        invariant
            j <= fields.len(),
            forall|k: int| 0 <= k < j ==> (#[trigger] view_entries(fields@)[k].name) != name@,
        decreases fields.len() - j,
    {
        if j == fields.len() {
            return None;
        }
        if str_eq(fields[j].name.as_str(), name) {
            return Some(j);
        }
        j = j + 1;
    }
}

/// Adds a raw value to the value set of the entry named `name`.
pub fn add_enum_value(fields: &mut Vec<FieldEntry>, name: &str, v: &str)
    ensures
        view_entries(final(fields)@) == spec_add_value(view_entries(old(fields)@), name@, v@),
{
    let ghost fs0 = view_entries(fields@);
    match find_entry(fields, name) {
        None => {
            proof {
                lemma_add_value_absent(fs0, name@, v@);
            }
        },
        Some(j) => {
            proof {
                lemma_add_value_at(fs0, name@, v@, j as int);
            }
            let mut e = fields.remove(j);
            insert_value_sorted(&mut e.values, v);
            fields.insert(j, e);
            proof {
                assert(view_entries(fields@) =~= fs0.update(
                    j as int,
                    FieldEntryView {
                        name: fs0[j as int].name,
                        info: fs0[j as int].info,
                        values: insert_sorted(fs0[j as int].values, v@),
                    },
                ));
            }
        },
    }
}

} // verus!
