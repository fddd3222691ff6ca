//! Laws of the derivation, proved once and for all over the specification
//! that `derive_schema` is held to.

use vstd::prelude::*;

use crate::collect::{
    checkbox_violation, empty_state, input_step, inputs_fold, select_step, selects_fold,
    spec_collect, CollectStateView,
};
use crate::controls::{InputControlView, SelectControlView};
use crate::diag::DiagnosticView;
use crate::fields::FieldEntryView;
use crate::schema::{
    collision_diags, finalize_entry, finalize_fold, group_fold, spec_derive, SchemaView,
};

verus! {

/// Law: the derivation is deterministic — its result is a function of the
/// control lists and the target name alone, so two runs over identical
/// markup-derived controls yield identical schemas, field order, identifiers
/// and variant order included.
pub proof fn lemma_derivation_deterministic(
    r1: Result<SchemaView, Seq<DiagnosticView>>,
    r2: Result<SchemaView, Seq<DiagnosticView>>,
    inputs: Seq<InputControlView>,
    selects: Seq<SelectControlView>,
    target: Seq<char>,
)
    requires
        r1 == spec_derive(inputs, selects, target),
        r2 == spec_derive(inputs, selects, target),
    ensures
        r1 == r2,
{
}

/// How often the batch reports the checkbox-group violation for `name`.
pub open spec fn count_group_diags(ds: Seq<DiagnosticView>, name: Seq<char>) -> int
    decreases ds.len(),
{
    if ds.len() == 0 {
        0
    } else {
        count_group_diags(ds.drop_last(), name) + if ds.last()
            == (DiagnosticView::CheckboxGroupRequired { field: name }) {
            1int
        } else {
            0int
        }
    }
}

proof fn lemma_count_push(ds: Seq<DiagnosticView>, d: DiagnosticView, name: Seq<char>)
    ensures
        count_group_diags(ds.push(d), name) == count_group_diags(ds, name) + if d
            == (DiagnosticView::CheckboxGroupRequired { field: name }) {
            1int
        } else {
            0int
        },
{
    assert(ds.push(d).drop_last() =~= ds);
    assert(ds.push(d).last() == d);
}

proof fn lemma_count_concat(a: Seq<DiagnosticView>, b: Seq<DiagnosticView>, name: Seq<char>)
    ensures
        count_group_diags(a + b, name) == count_group_diags(a, name) + count_group_diags(b, name),
    decreases b.len(),
{
    if b.len() == 0 {
        assert(a + b =~= a);
    } else {
        assert((a + b).drop_last() =~= a + b.drop_last());
        assert((a + b).last() == b.last());
        lemma_count_concat(a, b.drop_last(), name);
    }
}

proof fn lemma_contains_push<A>(s: Seq<A>, x: A, y: A)
    ensures
        s.push(x).contains(y) <==> (s.contains(y) || x == y),
{
    if s.contains(y) {
        let i = choose|i: int| 0 <= i < s.len() && s[i] == y;
        assert(s.push(x)[i] == y);
    }
    if x == y {
        assert(s.push(x)[s.len() as int] == y);
    }
    if s.push(x).contains(y) {
        let i = choose|i: int| 0 <= i < s.push(x).len() && s.push(x)[i] == y;
        if i < s.len() {
            assert(s[i] == y);
        }
    }
}

/// The batch of a state reports the violation for `name` exactly once when
/// `name` is among the reported names, and never otherwise.
pub open spec fn group_count_ok(st: CollectStateView, name: Seq<char>) -> bool {
    count_group_diags(st.diags, name) == if st.reported.contains(name) {
        1int
    } else {
        0int
    }
}

proof fn lemma_input_step_count(st: CollectStateView, c: InputControlView, name: Seq<char>)
    requires
        group_count_ok(st, name),
    ensures
        group_count_ok(input_step(st, c), name),
        input_step(st, c).reported.contains(name) <==> st.reported.contains(name) || (
        checkbox_violation(c) && c.name == name),
{
    if checkbox_violation(c) && !st.reported.contains(c.name) {
        lemma_count_push(
            st.diags,
            DiagnosticView::CheckboxGroupRequired { field: c.name },
            name,
        );
        lemma_contains_push(st.reported, c.name, name);
    }
    let st1 = if checkbox_violation(c) && !st.reported.contains(c.name) {
        CollectStateView {
            fields: st.fields,
            diags: st.diags.push(DiagnosticView::CheckboxGroupRequired { field: c.name }),
            reported: st.reported.push(c.name),
        }
    } else {
        st
    };
    match crate::directive::directive_lookup_spec(c.preceding) {
        crate::directive::DirectiveResultView::Malformed(detail) => {
            lemma_count_push(
                st1.diags,
                DiagnosticView::InvalidCommentSpec { field: c.name, detail },
                name,
            );
        },
        _ => {},
    }
}

proof fn lemma_select_step_count(st: CollectStateView, c: SelectControlView, name: Seq<char>)
    ensures
        count_group_diags(select_step(st, c).diags, name) == count_group_diags(st.diags, name),
        select_step(st, c).reported == st.reported,
{
    if c.multiple {
        lemma_count_push(st.diags, DiagnosticView::SelectMultiple { field: c.name }, name);
    } else {
        match crate::directive::directive_lookup_spec(c.preceding) {
            crate::directive::DirectiveResultView::Malformed(detail) => {
                lemma_count_push(
                    st.diags,
                    DiagnosticView::InvalidCommentSpec { field: c.name, detail },
                    name,
                );
            },
            _ => {},
        }
    }
}

proof fn lemma_inputs_fold_count(
    st0: CollectStateView,
    cs: Seq<InputControlView>,
    n: int,
    name: Seq<char>,
)
    requires
        0 <= n <= cs.len(),
        group_count_ok(st0, name),
    ensures
        group_count_ok(inputs_fold(st0, cs, n), name),
        inputs_fold(st0, cs, n).reported.contains(name) <==> st0.reported.contains(name) || exists|
            i: int,
        | 0 <= i < n && (#[trigger] cs[i]).name == name && checkbox_violation(cs[i]),
    decreases n,
{
    if n > 0 {
        lemma_inputs_fold_count(st0, cs, n - 1, name);
        lemma_input_step_count(inputs_fold(st0, cs, n - 1), cs[n - 1], name);
    }
}

proof fn lemma_selects_fold_count(
    st0: CollectStateView,
    cs: Seq<SelectControlView>,
    n: int,
    name: Seq<char>,
)
    requires
        0 <= n <= cs.len(),
    ensures
        count_group_diags(selects_fold(st0, cs, n).diags, name) == count_group_diags(
            st0.diags,
            name,
        ),
        selects_fold(st0, cs, n).reported == st0.reported,
    decreases n,
{
    if n > 0 {
        lemma_selects_fold_count(st0, cs, n - 1, name);
        lemma_select_step_count(selects_fold(st0, cs, n - 1), cs[n - 1], name);
    }
}

proof fn lemma_collision_diags_count(
    field: Seq<char>,
    gs: Seq<crate::schema::GroupEntryView>,
    n: int,
    name: Seq<char>,
)
    ensures
        count_group_diags(collision_diags(field, gs, n), name) == 0,
    decreases n,
{
    if n > 0 {
        lemma_collision_diags_count(field, gs, n - 1, name);
        if gs[n - 1].members.len() > 1 {
            lemma_count_push(
                collision_diags(field, gs, n - 1),
                DiagnosticView::VariantCollision {
                    field: field,
                    variant: gs[n - 1].ident,
                    originals: gs[n - 1].members,
                },
                name,
            );
        }
    }
}

proof fn lemma_finalize_count(es: Seq<FieldEntryView>, n: int, name: Seq<char>)
    ensures
        count_group_diags(finalize_fold(es, n).1, name) == 0,
    decreases n,
{
    if n > 0 {
        lemma_finalize_count(es, n - 1, name);
        let (_, d1) = finalize_entry(es[n - 1]);
        match es[n - 1].info.kind {
            crate::fields::FieldKindView::Scalar(_) => {
                assert(count_group_diags(d1, name) == 0);
            },
            crate::fields::FieldKindView::Enumerated => {
                if es[n - 1].values.len() == 0 {
                    lemma_count_push(
                        Seq::<DiagnosticView>::empty(),
                        DiagnosticView::EnumNoValues { field: es[n - 1].name },
                        name,
                    );
                    assert(seq![DiagnosticView::EnumNoValues { field: es[n - 1].name }]
                        =~= Seq::<DiagnosticView>::empty().push(
                        DiagnosticView::EnumNoValues { field: es[n - 1].name },
                    ));
                } else {
                    let gs = group_fold(es[n - 1].values, es[n - 1].values.len() as int);
                    lemma_collision_diags_count(es[n - 1].name, gs, gs.len() as int, name);
                }
            },
        }
        lemma_count_concat(finalize_fold(es, n - 1).1, d1, name);
    }
}

/// Whether the entry list is strictly sorted by name — names are then unique.
pub open spec fn entries_sorted(fs: Seq<FieldEntryView>) -> bool {
    forall|k: int, l: int|
        0 <= k < l < fs.len() ==> crate::strs::lex_lt(
            (#[trigger] fs[k]).name,
            (#[trigger] fs[l]).name,
        )
}

/// The `required` flag of the first entry named `name`, or false without one.
pub open spec fn entry_required(fs: Seq<FieldEntryView>, name: Seq<char>) -> bool
    decreases fs.len(),
{
    if fs.len() == 0 {
        false
    } else if fs[0].name == name {
        fs[0].info.required
    } else {
        entry_required(fs.drop_first(), name)
    }
}

proof fn lemma_entry_required_absent(fs: Seq<FieldEntryView>, n: Seq<char>)
    requires
        forall|k: int| 0 <= k < fs.len() ==> (#[trigger] fs[k]).name != n,
    ensures
        !entry_required(fs, n),
    decreases fs.len(),
{
    if fs.len() > 0 {
        let d = fs.drop_first();
        assert(forall|k: int| 0 <= k < d.len() ==> d[k] == fs[k + 1]);
        lemma_entry_required_absent(d, n);
    }
}

proof fn lemma_entry_required_at(fs: Seq<FieldEntryView>, l: int)
    requires
        entries_sorted(fs),
        0 <= l < fs.len(),
    ensures
        entry_required(fs, fs[l].name) == fs[l].info.required,
    decreases l,
{
    if l == 0 {
    } else {
        crate::strs::lemma_lex_asym(fs[0].name, fs[l].name);
        let d = fs.drop_first();
        assert(forall|k: int| 0 <= k < d.len() ==> d[k] == fs[k + 1]);
        lemma_entry_required_at(d, l - 1);
    }
}

proof fn lemma_entry_required_congruent(a: Seq<FieldEntryView>, b: Seq<FieldEntryView>, n: Seq<char>)
    requires
        a.len() == b.len(),
        forall|k: int| 0 <= k < a.len() ==> (#[trigger] a[k]).name == b[k].name,
        forall|k: int| 0 <= k < a.len() ==> (#[trigger] a[k]).info == b[k].info,
    ensures
        entry_required(a, n) == entry_required(b, n),
    decreases a.len(),
{
    if a.len() > 0 && a[0].name != n {
        let da = a.drop_first();
        let db = b.drop_first();
        assert(forall|k: int| 0 <= k < da.len() ==> da[k] == a[k + 1] && db[k] == b[k + 1]);
        lemma_entry_required_congruent(da, db, n);
    }
}

proof fn lemma_upsert_sorted(
    fs: Seq<FieldEntryView>,
    name: Seq<char>,
    info: crate::fields::FieldInfoView,
)
    requires
        entries_sorted(fs),
    ensures
        entries_sorted(crate::fields::spec_upsert(fs, name, info)),
    decreases fs.len(),
{
    let r = crate::fields::spec_upsert(fs, name, info);
    if fs.len() == 0 {
    } else if name == fs[0].name {
        assert(forall|k: int| 1 <= k < r.len() ==> r[k] == fs[k]);
        assert forall|k: int, l: int|
            0 <= k < l < r.len() implies crate::strs::lex_lt(
            (#[trigger] r[k]).name,
            (#[trigger] r[l]).name,
        ) by {
            assert(r[k].name == fs[k].name);
            assert(r[l].name == fs[l].name);
        }
    } else if crate::strs::lex_lt(name, fs[0].name) {
        assert(forall|k: int| 1 <= k < r.len() ==> r[k] == fs[k - 1]);
        assert forall|k: int, l: int|
            0 <= k < l < r.len() implies crate::strs::lex_lt(
            (#[trigger] r[k]).name,
            (#[trigger] r[l]).name,
        ) by {
            if k == 0 {
                if l > 1 {
                    crate::strs::lemma_lex_trans(name, fs[0].name, fs[l - 1].name);
                }
            } else {
                assert(r[k].name == fs[k - 1].name);
                assert(r[l].name == fs[l - 1].name);
            }
        }
    } else {
        crate::strs::lemma_lex_trichotomy(name, fs[0].name);
        assert(crate::strs::lex_lt(fs[0].name, name));
        let d = fs.drop_first();
        assert(forall|k: int| 0 <= k < d.len() ==> d[k] == fs[k + 1]);
        lemma_upsert_sorted(d, name, info);
        let rd = crate::fields::spec_upsert(d, name, info);
        assert(forall|k: int| 1 <= k < r.len() ==> r[k] == rd[k - 1]);
        assert forall|l: int| 0 <= l < rd.len() implies crate::strs::lex_lt(
            fs[0].name,
            (#[trigger] rd[l]).name,
        ) by {
            let n2 = rd[l].name;
            assert(has_entry_name(rd, n2));
            lemma_upsert_names(d, name, info, n2);
            if n2 == name {
            } else {
                let k2 = choose|k2: int| 0 <= k2 < d.len() && d[k2].name == n2;
                assert(d[k2] == fs[k2 + 1]);
            }
        }
        assert forall|k: int, l: int|
            0 <= k < l < r.len() implies crate::strs::lex_lt(
            (#[trigger] r[k]).name,
            (#[trigger] r[l]).name,
        ) by {
            if k == 0 {
                assert(r[l] == rd[l - 1]);
            } else {
                assert(r[k] == rd[k - 1]);
                assert(r[l] == rd[l - 1]);
            }
        }
    }
}

proof fn lemma_upsert_required(
    fs: Seq<FieldEntryView>,
    name: Seq<char>,
    info: crate::fields::FieldInfoView,
    n: Seq<char>,
)
    requires
        entries_sorted(fs),
    ensures
        entry_required(crate::fields::spec_upsert(fs, name, info), n) == if n == name {
            entry_required(fs, n) || info.required
        } else {
            entry_required(fs, n)
        },
    decreases fs.len(),
{
    let r = crate::fields::spec_upsert(fs, name, info);
    if fs.len() == 0 {
        if n != name {
            assert(r.drop_first() =~= Seq::<FieldEntryView>::empty());
            assert(!entry_required(Seq::<FieldEntryView>::empty(), n));
        }
    } else if name == fs[0].name {
        assert(r.drop_first() =~= fs.drop_first());
    } else if crate::strs::lex_lt(name, fs[0].name) {
        assert(r.drop_first() =~= fs);
        if n == name {
            assert forall|k: int| 0 <= k < fs.len() implies (#[trigger] fs[k]).name != name by {
                if k == 0 {
                    crate::strs::lemma_lex_asym(name, fs[0].name);
                } else {
                    crate::strs::lemma_lex_trans(name, fs[0].name, fs[k].name);
                    crate::strs::lemma_lex_asym(name, fs[k].name);
                }
            }
            lemma_entry_required_absent(fs, name);
        }
    } else {
        crate::strs::lemma_lex_trichotomy(name, fs[0].name);
        let d = fs.drop_first();
        assert(forall|k: int| 0 <= k < d.len() ==> d[k] == fs[k + 1]);
        lemma_upsert_required(d, name, info, n);
        assert(r.drop_first() =~= crate::fields::spec_upsert(d, name, info));
        if n == fs[0].name {
            crate::strs::lemma_lex_asym(fs[0].name, name);
        }
    }
}

/// Whether some collected entry carries the name.
pub open spec fn has_entry_name(fs: Seq<FieldEntryView>, n: Seq<char>) -> bool {
    exists|k: int| 0 <= k < fs.len() && (#[trigger] fs[k]).name == n
}

/// Whether some schema field carries the name.
pub open spec fn has_field_name(fs: Seq<crate::schema::SchemaFieldView>, n: Seq<char>) -> bool {
    exists|k: int| 0 <= k < fs.len() && (#[trigger] fs[k]).name == n
}

proof fn lemma_same_names(a: Seq<FieldEntryView>, b: Seq<FieldEntryView>, n: Seq<char>)
    requires
        a.len() == b.len(),
        forall|k: int| 0 <= k < a.len() ==> (#[trigger] a[k]).name == b[k].name,
    ensures
        has_entry_name(a, n) <==> has_entry_name(b, n),
{
    if has_entry_name(a, n) {
        let k = choose|k: int| 0 <= k < a.len() && a[k].name == n;
        assert(b[k].name == n);
    }
    if has_entry_name(b, n) {
        let k = choose|k: int| 0 <= k < b.len() && b[k].name == n;
        assert(a[k].name == n);
    }
}

proof fn lemma_upsert_names(
    fs: Seq<FieldEntryView>,
    name: Seq<char>,
    info: crate::fields::FieldInfoView,
    n: Seq<char>,
)
    ensures
        has_entry_name(crate::fields::spec_upsert(fs, name, info), n) <==> (has_entry_name(fs, n)
            || n == name),
    decreases fs.len(),
{
    let r = crate::fields::spec_upsert(fs, name, info);
    if fs.len() == 0 {
        assert(r[0].name == name);
        if has_entry_name(r, n) {
            let k = choose|k: int| 0 <= k < r.len() && r[k].name == n;
            assert(k == 0);
        }
    } else if name == fs[0].name {
        assert(r[0].name == name);
        assert(forall|k: int| 1 <= k < r.len() ==> r[k] == fs[k]);
        if has_entry_name(fs, n) {
            let k = choose|k: int| 0 <= k < fs.len() && fs[k].name == n;
            assert(r[k].name == n);
        }
        if has_entry_name(r, n) {
            let k = choose|k: int| 0 <= k < r.len() && r[k].name == n;
            assert(fs[k].name == n);
        }
    } else if crate::strs::lex_lt(name, fs[0].name) {
        assert(r[0].name == name);
        assert(forall|k: int| 1 <= k < r.len() ==> r[k] == fs[k - 1]);
        if has_entry_name(fs, n) {
            let k = choose|k: int| 0 <= k < fs.len() && fs[k].name == n;
            assert(r[k + 1].name == n);
        }
        if has_entry_name(r, n) {
            let k = choose|k: int| 0 <= k < r.len() && r[k].name == n;
            if k > 0 {
                assert(fs[k - 1].name == n);
            }
        }
    } else {
        let d = fs.drop_first();
        lemma_upsert_names(d, name, info, n);
        let rd = crate::fields::spec_upsert(d, name, info);
        assert(r[0] == fs[0]);
        assert(forall|k: int| 1 <= k < r.len() ==> r[k] == rd[k - 1]);
        assert(forall|k: int| 0 <= k < d.len() ==> d[k] == fs[k + 1]);
        if has_entry_name(fs, n) {
            let k = choose|k: int| 0 <= k < fs.len() && fs[k].name == n;
            if k > 0 {
                assert(d[k - 1].name == n);
                let k2 = choose|k2: int| 0 <= k2 < rd.len() && rd[k2].name == n;
                assert(r[k2 + 1].name == n);
            }
        }
        if n == name {
            let k2 = choose|k2: int| 0 <= k2 < rd.len() && rd[k2].name == n;
            assert(r[k2 + 1].name == n);
        }
        if has_entry_name(r, n) {
            let k = choose|k: int| 0 <= k < r.len() && r[k].name == n;
            if k > 0 {
                assert(rd[k - 1].name == n);
                if !(n == name) {
                    let k2 = choose|k2: int| 0 <= k2 < d.len() && d[k2].name == n;
                    assert(fs[k2 + 1].name == n);
                }
            }
        }
    }
}

proof fn lemma_add_value_names(fs: Seq<FieldEntryView>, name: Seq<char>, v: Seq<char>)
    ensures
        crate::fields::spec_add_value(fs, name, v).len() == fs.len(),
        forall|k: int|
            0 <= k < fs.len() ==> (#[trigger] crate::fields::spec_add_value(fs, name, v)[k]).name
                == fs[k].name,
        forall|k: int|
            0 <= k < fs.len() ==> (#[trigger] crate::fields::spec_add_value(fs, name, v)[k]).info
                == fs[k].info,
    decreases fs.len(),
{
    let r = crate::fields::spec_add_value(fs, name, v);
    if fs.len() == 0 {
    } else if name == fs[0].name {
        assert(forall|k: int| 1 <= k < r.len() ==> r[k] == fs[k]);
    } else {
        let d = fs.drop_first();
        lemma_add_value_names(d, name, v);
        let rd = crate::fields::spec_add_value(d, name, v);
        assert(forall|k: int| 0 <= k < d.len() ==> d[k] == fs[k + 1]);
        assert(forall|k: int| 1 <= k < r.len() ==> r[k] == rd[k - 1]);
        assert forall|k: int| 0 <= k < fs.len() implies (#[trigger] r[k]).name == fs[k].name && (
        #[trigger] r[k]).info == fs[k].info by {
            if k > 0 {
                assert(rd[k - 1].name == d[k - 1].name);
                assert(rd[k - 1].info == d[k - 1].info);
            }
        }
    }
}

proof fn lemma_options_fold_names(
    fs: Seq<FieldEntryView>,
    name: Seq<char>,
    opts: Seq<crate::controls::OptionEntryView>,
    m: int,
    n: Seq<char>,
)
    ensures
        crate::collect::options_fold(fs, name, opts, m).len() == fs.len(),
        forall|k: int|
            0 <= k < fs.len() ==> (#[trigger] crate::collect::options_fold(
                fs,
                name,
                opts,
                m,
            )[k]).name == fs[k].name,
        forall|k: int|
            0 <= k < fs.len() ==> (#[trigger] crate::collect::options_fold(
                fs,
                name,
                opts,
                m,
            )[k]).info == fs[k].info,
    decreases m,
{
    if m > 0 {
        lemma_options_fold_names(fs, name, opts, m - 1, n);
        let prev = crate::collect::options_fold(fs, name, opts, m - 1);
        match crate::collect::option_raw(opts[m - 1]) {
            Some(v) => {
                lemma_add_value_names(prev, name, v);
            },
            None => {},
        }
    }
}

proof fn lemma_input_step_names(st: CollectStateView, c: InputControlView, n: Seq<char>)
    ensures
        has_entry_name(input_step(st, c).fields, n) <==> (has_entry_name(st.fields, n) || n
            == c.name),
{
    let info = crate::collect::input_info(c);
    lemma_upsert_names(st.fields, c.name, info, n);
    let up = crate::fields::spec_upsert(st.fields, c.name, info);
    if crate::collect::input_is_enum(c) {
        match c.value {
            Some(v) => {
                lemma_add_value_names(up, c.name, v);
                lemma_same_names(up, crate::fields::spec_add_value(up, c.name, v), n);
            },
            None => {},
        }
    }
}

proof fn lemma_select_step_names(st: CollectStateView, c: SelectControlView, n: Seq<char>)
    ensures
        select_step(st, c).diags.len() >= st.diags.len(),
        select_step(st, c).diags.len() == st.diags.len() ==> !c.multiple && (has_entry_name(
            select_step(st, c).fields,
            n,
        ) <==> (has_entry_name(st.fields, n) || n == c.name)),
{
    if !c.multiple {
        let info = crate::collect::select_info(c);
        lemma_upsert_names(st.fields, c.name, info, n);
        let up = crate::fields::spec_upsert(st.fields, c.name, info);
        lemma_options_fold_names(up, c.name, c.options, c.options.len() as int, n);
        lemma_same_names(
            up,
            crate::collect::options_fold(up, c.name, c.options, c.options.len() as int),
            n,
        );
    }
}

proof fn lemma_inputs_fold_names(
    st0: CollectStateView,
    cs: Seq<InputControlView>,
    m: int,
    n: Seq<char>,
)
    requires
        0 <= m <= cs.len(),
    ensures
        has_entry_name(inputs_fold(st0, cs, m).fields, n) <==> (has_entry_name(st0.fields, n)
            || exists|i: int| 0 <= i < m && (#[trigger] cs[i]).name == n),
        inputs_fold(st0, cs, m).diags.len() >= st0.diags.len(),
    decreases m,
{
    if m > 0 {
        lemma_inputs_fold_names(st0, cs, m - 1, n);
        let prev = inputs_fold(st0, cs, m - 1);
        lemma_input_step_names(prev, cs[m - 1], n);
        lemma_input_step_diags_grow(prev, cs[m - 1]);
        if has_entry_name(inputs_fold(st0, cs, m).fields, n) && !has_entry_name(st0.fields, n) {
            if has_entry_name(prev.fields, n) {
                let i = choose|i: int| 0 <= i < m - 1 && cs[i].name == n;
                assert(0 <= i < m && cs[i].name == n);
            } else {
                assert(cs[m - 1].name == n);
            }
        }
        if exists|i: int| 0 <= i < m && (#[trigger] cs[i]).name == n {
            let i = choose|i: int| 0 <= i < m && cs[i].name == n;
            if i < m - 1 {
                assert(exists|i2: int| 0 <= i2 < m - 1 && (#[trigger] cs[i2]).name == n);
            }
        }
    }
}

proof fn lemma_input_step_diags_grow(st: CollectStateView, c: InputControlView)
    ensures
        input_step(st, c).diags.len() >= st.diags.len(),
{
}

proof fn lemma_selects_fold_names(
    st0: CollectStateView,
    cs: Seq<SelectControlView>,
    m: int,
    n: Seq<char>,
)
    requires
        0 <= m <= cs.len(),
    ensures
        selects_fold(st0, cs, m).diags.len() >= st0.diags.len(),
        selects_fold(st0, cs, m).diags.len() == st0.diags.len() ==> (has_entry_name(
            selects_fold(st0, cs, m).fields,
            n,
        ) <==> (has_entry_name(st0.fields, n) || exists|i: int|
            0 <= i < m && (#[trigger] cs[i]).name == n)),
    decreases m,
{
    if m > 0 {
        lemma_selects_fold_names(st0, cs, m - 1, n);
        let prev = selects_fold(st0, cs, m - 1);
        lemma_select_step_names(prev, cs[m - 1], n);
        if selects_fold(st0, cs, m).diags.len() == st0.diags.len() {
            if has_entry_name(selects_fold(st0, cs, m).fields, n) && !has_entry_name(
                st0.fields,
                n,
            ) {
                if has_entry_name(prev.fields, n) {
                    let i = choose|i: int| 0 <= i < m - 1 && cs[i].name == n;
                    assert(0 <= i < m && cs[i].name == n);
                } else {
                    assert(cs[m - 1].name == n);
                }
            }
            if exists|i: int| 0 <= i < m && (#[trigger] cs[i]).name == n {
                let i = choose|i: int| 0 <= i < m && cs[i].name == n;
                if i < m - 1 {
                    assert(exists|i2: int| 0 <= i2 < m - 1 && (#[trigger] cs[i2]).name == n);
                }
            }
        }
    }
}

proof fn lemma_finalize_names(es: Seq<FieldEntryView>, m: int, n: Seq<char>)
    requires
        0 <= m <= es.len(),
    ensures
        finalize_fold(es, m).1.len() == 0 ==> (has_field_name(finalize_fold(es, m).0, n) <==> exists|
            k: int,
        | 0 <= k < m && (#[trigger] es[k]).name == n),
    decreases m,
{
    if m > 0 {
        lemma_finalize_names(es, m - 1, n);
        let (prev, pds) = finalize_fold(es, m - 1);
        let (fo, d1) = finalize_entry(es[m - 1]);
        let (cur, cds) = finalize_fold(es, m);
        if cds.len() == 0 {
            assert(pds.len() == 0);
            assert(d1.len() == 0);
            match es[m - 1].info.kind {
                crate::fields::FieldKindView::Scalar(_) => {},
                crate::fields::FieldKindView::Enumerated => {
                    assert(es[m - 1].values.len() > 0);
                },
            }
            let f = fo->Some_0;
            assert(cur == prev.push(f));
            assert(f.name == es[m - 1].name);
            if has_field_name(cur, n) {
                let k = choose|k: int| 0 <= k < cur.len() && cur[k].name == n;
                if k < prev.len() {
                    assert(prev[k].name == n);
                } else {
                    assert(es[m - 1].name == n);
                }
            }
            if has_field_name(prev, n) {
                let k = choose|k: int| 0 <= k < prev.len() && prev[k].name == n;
                assert(cur[k].name == n);
            }
            if exists|k: int| 0 <= k < m && (#[trigger] es[k]).name == n {
                let k = choose|k: int| 0 <= k < m && es[k].name == n;
                if k < m - 1 {
                    assert(exists|k2: int| 0 <= k2 < m - 1 && (#[trigger] es[k2]).name == n);
                } else {
                    assert(cur[prev.len() as int].name == n);
                }
            }
        }
    }
}

/// Law: name correspondence — the field names of a produced schema are
/// exactly the `name` attributes of the matched controls: a name stands in
/// the schema if and only if some input control or some select control
/// carries it, and recurring names were merged, not duplicated.
pub proof fn lemma_schema_names(
    inputs: Seq<InputControlView>,
    selects: Seq<SelectControlView>,
    target: Seq<char>,
    s: SchemaView,
    name: Seq<char>,
)
    requires
        spec_derive(inputs, selects, target) == Ok::<SchemaView, Seq<DiagnosticView>>(s),
    ensures
        has_field_name(s.fields, name) <==> ((exists|i: int|
            0 <= i < inputs.len() && (#[trigger] inputs[i]).name == name) || (exists|j: int|
            0 <= j < selects.len() && (#[trigger] selects[j]).name == name)),
{
    let st0 = empty_state();
    let mid = inputs_fold(st0, inputs, inputs.len() as int);
    let st = spec_collect(inputs, selects);
    let fds = finalize_fold(st.fields, st.fields.len() as int).1;
    assert((st.diags + fds).len() == 0);
    assert(st.diags.len() == 0);
    lemma_inputs_fold_names(st0, inputs, inputs.len() as int, name);
    lemma_selects_fold_names(mid, selects, selects.len() as int, name);
    assert(mid.diags.len() == 0);
    lemma_finalize_names(st.fields, st.fields.len() as int, name);
}

/// The `required` flag an input control actually contributes: its own
/// `required`, except that the checkbox-group violation forces it to false.
pub open spec fn effective_required(c: InputControlView) -> bool {
    !checkbox_violation(c) && c.required
}

proof fn lemma_sorted_congruent(a: Seq<FieldEntryView>, b: Seq<FieldEntryView>)
    requires
        a.len() == b.len(),
        forall|k: int| 0 <= k < a.len() ==> (#[trigger] a[k]).name == b[k].name,
        entries_sorted(a),
    ensures
        entries_sorted(b),
{
    assert forall|k: int, l: int|
        0 <= k < l < b.len() implies crate::strs::lex_lt(
        (#[trigger] b[k]).name,
        (#[trigger] b[l]).name,
    ) by {
        assert(a[k].name == b[k].name);
        assert(a[l].name == b[l].name);
    }
}

proof fn lemma_input_step_required(st: CollectStateView, c: InputControlView, n: Seq<char>)
    requires
        entries_sorted(st.fields),
    ensures
        entries_sorted(input_step(st, c).fields),
        entry_required(input_step(st, c).fields, n) == if n == c.name {
            entry_required(st.fields, n) || effective_required(c)
        } else {
            entry_required(st.fields, n)
        },
{
    let info = crate::collect::input_info(c);
    assert(info.required == effective_required(c));
    lemma_upsert_sorted(st.fields, c.name, info);
    lemma_upsert_required(st.fields, c.name, info, n);
    let up = crate::fields::spec_upsert(st.fields, c.name, info);
    if crate::collect::input_is_enum(c) {
        match c.value {
            Some(v) => {
                lemma_add_value_names(up, c.name, v);
                lemma_entry_required_congruent(
                    crate::fields::spec_add_value(up, c.name, v),
                    up,
                    n,
                );
                lemma_sorted_congruent(up, crate::fields::spec_add_value(up, c.name, v));
            },
            None => {},
        }
    }
}

proof fn lemma_select_step_required(st: CollectStateView, c: SelectControlView, n: Seq<char>)
    requires
        entries_sorted(st.fields),
    ensures
        entries_sorted(select_step(st, c).fields),
        entry_required(select_step(st, c).fields, n) == if !c.multiple && n == c.name {
            entry_required(st.fields, n) || c.required
        } else {
            entry_required(st.fields, n)
        },
{
    if !c.multiple {
        let info = crate::collect::select_info(c);
        assert(info.required == c.required);
        lemma_upsert_sorted(st.fields, c.name, info);
        lemma_upsert_required(st.fields, c.name, info, n);
        let up = crate::fields::spec_upsert(st.fields, c.name, info);
        let folded = crate::collect::options_fold(up, c.name, c.options, c.options.len() as int);
        lemma_options_fold_names(up, c.name, c.options, c.options.len() as int, n);
        lemma_entry_required_congruent(folded, up, n);
        lemma_sorted_congruent(up, folded);
    }
}

/// Whether an input control among the first `m` contributes `required` to
/// the field named `name`.
pub open spec fn input_req_upto(name: Seq<char>, cs: Seq<InputControlView>, m: int) -> bool {
    exists|i: int|
        0 <= i < m && (#[trigger] cs[i]).name == name && effective_required(cs[i])
}

/// Whether a select control among the first `m` contributes `required` to
/// the field named `name`.
pub open spec fn select_req_upto(name: Seq<char>, cs: Seq<SelectControlView>, m: int) -> bool {
    exists|j: int|
        0 <= j < m && (#[trigger] cs[j]).name == name && !cs[j].multiple && cs[j].required
}

proof fn lemma_inputs_fold_required(
    st0: CollectStateView,
    cs: Seq<InputControlView>,
    m: int,
    n: Seq<char>,
)
    requires
        0 <= m <= cs.len(),
        entries_sorted(st0.fields),
    ensures
        entries_sorted(inputs_fold(st0, cs, m).fields),
        entry_required(inputs_fold(st0, cs, m).fields, n) == (entry_required(st0.fields, n)
            || input_req_upto(n, cs, m)),
    decreases m,
{
    if m > 0 {
        lemma_inputs_fold_required(st0, cs, m - 1, n);
        lemma_input_step_required(inputs_fold(st0, cs, m - 1), cs[m - 1], n);
        if input_req_upto(n, cs, m - 1) {
            let i = choose|i: int|
                0 <= i < m - 1 && cs[i].name == n && effective_required(cs[i]);
            assert(0 <= i < m && cs[i].name == n && effective_required(cs[i]));
        }
        if input_req_upto(n, cs, m) && !(cs[m - 1].name == n && effective_required(cs[m - 1])) {
            let i = choose|i: int| 0 <= i < m && cs[i].name == n && effective_required(cs[i]);
            assert(0 <= i < m - 1 && cs[i].name == n && effective_required(cs[i]));
        }
    }
}

proof fn lemma_selects_fold_required(
    st0: CollectStateView,
    cs: Seq<SelectControlView>,
    m: int,
    n: Seq<char>,
)
    requires
        0 <= m <= cs.len(),
        entries_sorted(st0.fields),
    ensures
        entries_sorted(selects_fold(st0, cs, m).fields),
        entry_required(selects_fold(st0, cs, m).fields, n) == (entry_required(st0.fields, n)
            || select_req_upto(n, cs, m)),
    decreases m,
{
    if m > 0 {
        lemma_selects_fold_required(st0, cs, m - 1, n);
        lemma_select_step_required(selects_fold(st0, cs, m - 1), cs[m - 1], n);
        if select_req_upto(n, cs, m - 1) {
            let j = choose|j: int|
                0 <= j < m - 1 && cs[j].name == n && !cs[j].multiple && cs[j].required;
            assert(0 <= j < m && cs[j].name == n && !cs[j].multiple && cs[j].required);
        }
        if select_req_upto(n, cs, m) && !(!cs[m - 1].multiple && cs[m - 1].name == n
            && cs[m - 1].required) {
            let j = choose|j: int|
                0 <= j < m && cs[j].name == n && !cs[j].multiple && cs[j].required;
            assert(0 <= j < m - 1 && cs[j].name == n && !cs[j].multiple && cs[j].required);
        }
    }
}

proof fn lemma_finalize_required(es: Seq<FieldEntryView>, m: int)
    requires
        0 <= m <= es.len(),
    ensures
        forall|k: int|
            0 <= k < finalize_fold(es, m).0.len() ==> exists|l: int|
                0 <= l < m && es[l].name == (#[trigger] finalize_fold(es, m).0[k]).name && es[l]
                    .info.required == finalize_fold(es, m).0[k].required,
    decreases m,
{
    if m > 0 {
        lemma_finalize_required(es, m - 1);
        let prev = finalize_fold(es, m - 1).0;
        let cur = finalize_fold(es, m).0;
        let (fo, _) = finalize_entry(es[m - 1]);
        assert forall|k: int| 0 <= k < cur.len() implies exists|l: int|
            0 <= l < m && es[l].name == (#[trigger] cur[k]).name && es[l].info.required
                == cur[k].required by {
            if k < prev.len() {
                assert(cur[k] == prev[k]);
                let l = choose|l: int|
                    0 <= l < m - 1 && es[l].name == prev[k].name && es[l].info.required
                        == prev[k].required;
                assert(0 <= l < m && es[l].name == cur[k].name && es[l].info.required
                    == cur[k].required);
            } else {
                assert(cur[k] == fo->Some_0);
                assert(es[m - 1].name == cur[k].name && es[m - 1].info.required
                    == cur[k].required);
            }
        }
    }
}

/// Law: required OR-merge — in a produced schema, a field is required exactly
/// when at least one contributing control is, where a required checkbox inside
/// a `multiple` group counts as not required (the forced-false case) and a
/// select contributes only when it is not `multiple`.
pub proof fn lemma_required_or_merge(
    inputs: Seq<InputControlView>,
    selects: Seq<SelectControlView>,
    target: Seq<char>,
    s: SchemaView,
    k: int,
)
    requires
        spec_derive(inputs, selects, target) == Ok::<SchemaView, Seq<DiagnosticView>>(s),
        0 <= k < s.fields.len(),
    ensures
        s.fields[k].required == (input_req_upto(s.fields[k].name, inputs, inputs.len() as int)
            || select_req_upto(s.fields[k].name, selects, selects.len() as int)),
{
    let name = s.fields[k].name;
    let st0 = empty_state();
    let mid = inputs_fold(st0, inputs, inputs.len() as int);
    let st = spec_collect(inputs, selects);
    lemma_inputs_fold_required(st0, inputs, inputs.len() as int, name);
    lemma_selects_fold_required(mid, selects, selects.len() as int, name);
    lemma_finalize_required(st.fields, st.fields.len() as int);
    let l = choose|l: int|
        0 <= l < st.fields.len() && st.fields[l].name == s.fields[k].name && st.fields[l]
            .info.required == s.fields[k].required;
    lemma_entry_required_at(st.fields, l);
}

proof fn lemma_group_insert_idents(
    gs: Seq<crate::schema::GroupEntryView>,
    ident: Seq<char>,
    raw: Seq<char>,
)
    requires
        crate::idents::variant_ident_of(raw) == ident,
        forall|k: int, l: int|
            0 <= k < gs.len() && 0 <= l < gs[k].members.len()
                ==> crate::idents::variant_ident_of(#[trigger] gs[k].members[l]) == gs[k].ident,
    ensures
        forall|k: int, l: int|
            0 <= k < crate::schema::group_insert(gs, ident, raw).len() && 0 <= l
                < crate::schema::group_insert(gs, ident, raw)[k].members.len()
                ==> crate::idents::variant_ident_of(
                #[trigger] crate::schema::group_insert(gs, ident, raw)[k].members[l],
            ) == crate::schema::group_insert(gs, ident, raw)[k].ident,
    decreases gs.len(),
{
    let r = crate::schema::group_insert(gs, ident, raw);
    if gs.len() == 0 {
        assert(r[0].members[0] == raw);
    } else if ident == gs[0].ident {
        assert forall|k: int, l: int|
            0 <= k < r.len() && 0 <= l < r[k].members.len() implies crate::idents::variant_ident_of(
            #[trigger] r[k].members[l],
        ) == r[k].ident by {
            if k == 0 {
                if l < gs[0].members.len() {
                    assert(r[0].members[l] == gs[0].members[l]);
                } else {
                    assert(r[0].members[l] == raw);
                }
            } else {
                assert(r[k] == gs[k]);
            }
        }
    } else if crate::strs::lex_lt(ident, gs[0].ident) {
        assert forall|k: int, l: int|
            0 <= k < r.len() && 0 <= l < r[k].members.len() implies crate::idents::variant_ident_of(
            #[trigger] r[k].members[l],
        ) == r[k].ident by {
            if k == 0 {
                assert(r[0].members[l] == raw);
            } else {
                assert(r[k] == gs[k - 1]);
            }
        }
    } else {
        let d = gs.drop_first();
        assert(forall|k: int| 0 <= k < d.len() ==> d[k] == gs[k + 1]);
        lemma_group_insert_idents(d, ident, raw);
        let rd = crate::schema::group_insert(d, ident, raw);
        assert forall|k: int, l: int|
            0 <= k < r.len() && 0 <= l < r[k].members.len() implies crate::idents::variant_ident_of(
            #[trigger] r[k].members[l],
        ) == r[k].ident by {
            if k == 0 {
                assert(r[0] == gs[0]);
            } else {
                assert(r[k] == rd[k - 1]);
            }
        }
    }
}

/// Every member of every group carries the group's identifier as its own
/// canonical variant identifier.
pub proof fn lemma_group_fold_idents(vals: Seq<Seq<char>>, n: int)
    ensures
        forall|k: int, l: int|
            0 <= k < group_fold(vals, n).len() && 0 <= l < group_fold(vals, n)[k].members.len()
                ==> crate::idents::variant_ident_of(
                #[trigger] group_fold(vals, n)[k].members[l],
            ) == group_fold(vals, n)[k].ident,
    decreases n,
{
    if n > 0 {
        lemma_group_fold_idents(vals, n - 1);
        lemma_group_insert_idents(
            group_fold(vals, n - 1),
            crate::idents::variant_ident_of(vals[n - 1]),
            vals[n - 1],
        );
    }
}

/// Whether every variant of a field's enumeration round-trips: its canonical
/// identifier is exactly the canonical variant identifier of the raw value it
/// is tagged with.
pub open spec fn variant_round_trip(f: crate::schema::SchemaFieldView) -> bool {
    match f.ty {
        crate::schema::FieldTypeView::Enumeration(e) => forall|j: int|
            0 <= j < e.variants.len() ==> (#[trigger] e.variants[j]).ident
                == crate::idents::variant_ident_of(e.variants[j].raw),
        _ => true,
    }
}

proof fn lemma_finalize_round_trip(es: Seq<FieldEntryView>, n: int)
    ensures
        forall|i: int|
            0 <= i < finalize_fold(es, n).0.len() ==> variant_round_trip(
                #[trigger] finalize_fold(es, n).0[i],
            ),
    decreases n,
{
    if n > 0 {
        lemma_finalize_round_trip(es, n - 1);
        let prev = finalize_fold(es, n - 1).0;
        let (fo, _) = finalize_entry(es[n - 1]);
        match fo {
            Some(f) => {
                match es[n - 1].info.kind {
                    crate::fields::FieldKindView::Scalar(_) => {},
                    crate::fields::FieldKindView::Enumerated => {
                        if es[n - 1].values.len() > 0 {
                            let vals = es[n - 1].values;
                            let gs = group_fold(vals, vals.len() as int);
                            lemma_group_fold_idents(vals, vals.len() as int);
                            crate::schema::lemma_group_fold_nonempty(vals, vals.len() as int);
                            assert forall|j: int|
                                0 <= j < crate::schema::variants_of_groups(gs).len() implies (
                            #[trigger] crate::schema::variants_of_groups(gs)[j]).ident
                                == crate::idents::variant_ident_of(
                                crate::schema::variants_of_groups(gs)[j].raw,
                            ) by {
                                assert(gs[j].members.len() > 0);
                                assert(crate::idents::variant_ident_of(gs[j].members[0])
                                    == gs[j].ident);
                            }
                            assert(variant_round_trip(f));
                        }
                    },
                }
                assert forall|i: int|
                    0 <= i < finalize_fold(es, n).0.len() implies variant_round_trip(
                    #[trigger] finalize_fold(es, n).0[i],
                ) by {
                    if i < prev.len() {
                        assert(finalize_fold(es, n).0[i] == prev[i]);
                    } else {
                        assert(finalize_fold(es, n).0[i] == f);
                    }
                }
            },
            None => {},
        }
    }
}

/// Law: enum round-trip — in a produced schema, every variant of every
/// enumerated field is tagged with a raw markup value whose canonical variant
/// identifier is exactly the variant's identifier, so re-deriving from the
/// attached tag reproduces the variant and the tag reproduces the original
/// string unchanged.
pub proof fn lemma_enum_round_trip(
    inputs: Seq<InputControlView>,
    selects: Seq<SelectControlView>,
    target: Seq<char>,
    s: SchemaView,
)
    requires
        spec_derive(inputs, selects, target) == Ok::<SchemaView, Seq<DiagnosticView>>(s),
    ensures
        forall|i: int| 0 <= i < s.fields.len() ==> variant_round_trip(#[trigger] s.fields[i]),
{
    let st = spec_collect(inputs, selects);
    lemma_finalize_round_trip(st.fields, st.fields.len() as int);
}

proof fn lemma_finalize_sorted(es: Seq<FieldEntryView>, m: int)
    requires
        0 <= m <= es.len(),
        entries_sorted(es),
    ensures
        forall|k: int|
            0 <= k < finalize_fold(es, m).0.len() ==> exists|l: int|
                0 <= l < m && es[l].name == (#[trigger] finalize_fold(es, m).0[k]).name,
        forall|k: int, l: int|
            0 <= k < l < finalize_fold(es, m).0.len() ==> crate::strs::lex_lt(
                (#[trigger] finalize_fold(es, m).0[k]).name,
                (#[trigger] finalize_fold(es, m).0[l]).name,
            ),
    decreases m,
{
    if m > 0 {
        lemma_finalize_sorted(es, m - 1);
        let prev = finalize_fold(es, m - 1).0;
        let cur = finalize_fold(es, m).0;
        let (fo, _) = finalize_entry(es[m - 1]);
        assert forall|k: int| 0 <= k < cur.len() implies exists|l: int|
            0 <= l < m && es[l].name == (#[trigger] cur[k]).name by {
            if k < prev.len() {
                assert(cur[k] == prev[k]);
                let l = choose|l: int| 0 <= l < m - 1 && es[l].name == prev[k].name;
                assert(0 <= l < m && es[l].name == cur[k].name);
            } else {
                assert(cur[k] == fo->Some_0);
                assert(es[m - 1].name == cur[k].name);
            }
        }
        assert forall|k: int, l: int|
            0 <= k < l < cur.len() implies crate::strs::lex_lt(
            (#[trigger] cur[k]).name,
            (#[trigger] cur[l]).name,
        ) by {
            if l < prev.len() {
                assert(cur[k] == prev[k] && cur[l] == prev[l]);
            } else if l == prev.len() && cur.len() > prev.len() {
                assert(cur[k] == prev[k]);
                let l2 = choose|l2: int| 0 <= l2 < m - 1 && es[l2].name == prev[k].name;
                assert(cur[l] == fo->Some_0);
                assert(crate::strs::lex_lt(es[l2].name, es[m - 1].name));
            }
        }
    }
}

/// Law: reproducible order — the fields of a produced schema stand in
/// strictly increasing lexicographic order of field name, so identical runs
/// render byte-identical output.
pub proof fn lemma_schema_ordered(
    inputs: Seq<InputControlView>,
    selects: Seq<SelectControlView>,
    target: Seq<char>,
    s: SchemaView,
)
    requires
        spec_derive(inputs, selects, target) == Ok::<SchemaView, Seq<DiagnosticView>>(s),
    ensures
        forall|k: int, l: int|
            0 <= k < l < s.fields.len() ==> crate::strs::lex_lt(
                (#[trigger] s.fields[k]).name,
                (#[trigger] s.fields[l]).name,
            ),
{
    let st0 = empty_state();
    let mid = inputs_fold(st0, inputs, inputs.len() as int);
    let st = spec_collect(inputs, selects);
    lemma_inputs_fold_required(st0, inputs, inputs.len() as int, Seq::<char>::empty());
    lemma_selects_fold_required(mid, selects, selects.len() as int, Seq::<char>::empty());
    lemma_finalize_sorted(st.fields, st.fields.len() as int);
}

/// Law: the checkbox-group violation is reported exactly once per field
/// name — a batch holds one such diagnostic for `name` when some member of a
/// `multiple` checkbox group named `name` is individually required, and none
/// otherwise, however many members declare `required`.
pub proof fn lemma_group_violation_reported_once(
    inputs: Seq<InputControlView>,
    selects: Seq<SelectControlView>,
    target: Seq<char>,
    ds: Seq<DiagnosticView>,
    name: Seq<char>,
)
    requires
        spec_derive(inputs, selects, target) == Err::<SchemaView, Seq<DiagnosticView>>(ds),
    ensures
        count_group_diags(ds, name) == if exists|i: int|
            0 <= i < inputs.len() && (#[trigger] inputs[i]).name == name && checkbox_violation(
                inputs[i],
            ) {
            1int
        } else {
            0int
        },
{
    let st0 = empty_state();
    assert(!st0.reported.contains(name));
    let mid = inputs_fold(st0, inputs, inputs.len() as int);
    lemma_inputs_fold_count(st0, inputs, inputs.len() as int, name);
    let st = spec_collect(inputs, selects);
    lemma_selects_fold_count(mid, selects, selects.len() as int, name);
    lemma_finalize_count(st.fields, st.fields.len() as int, name);
    lemma_count_concat(st.diags, finalize_fold(st.fields, st.fields.len() as int).1, name);
}

} // verus!
