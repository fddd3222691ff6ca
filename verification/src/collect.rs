//! The field collector: walks all input-like controls and then all
//! select-like controls in document order, classifies each one, resolves its
//! directive, and merges the descriptions that share a field name.

use vstd::prelude::*;
use vstd::string::*;

use crate::controls::{
    view_inputs, view_selects, InputControl, InputControlView, OptionEntryView, SelectControl,
    SelectControlView,
};
use crate::diag::{view_diags, Diagnostic, DiagnosticView};
use crate::directive::{
    directive_lookup, directive_lookup_spec, Directive, DirectiveResult, DirectiveResultView,
    DirectiveView,
};
use crate::fields::{
    add_enum_value, spec_add_value, spec_upsert, upsert_field, view_entries, FieldEntry,
    FieldEntryView, FieldInfo, FieldInfoView, FieldKind, FieldKindView, ScalarType, ScalarTypeView,
};
use crate::strs::{str_eq, trim_seq, trim_str, views_of};

verus! {

/// The collector's running state: the name-sorted field entries, the
/// diagnostics found so far, and the field names whose checkbox-group
/// violation was already reported.
pub struct CollectState {
    pub fields: Vec<FieldEntry>,
    pub diags: Vec<Diagnostic>,
    pub reported: Vec<String>,
}

/// The mathematical image of a `CollectState`.
#[verifier::ext_equal]
pub struct CollectStateView {
    pub fields: Seq<FieldEntryView>,
    pub diags: Seq<DiagnosticView>,
    pub reported: Seq<Seq<char>>,
}

impl View for CollectState {
    type V = CollectStateView;

    open spec fn view(&self) -> CollectStateView {
        CollectStateView {
            fields: view_entries(self.fields@),
            diags: view_diags(self.diags@),
            reported: views_of(self.reported@),
        }
    }
}

/// The state before any control was processed.
pub open spec fn empty_state() -> CollectStateView {
    CollectStateView {
        fields: Seq::<FieldEntryView>::empty(),
        diags: Seq::<DiagnosticView>::empty(),
        reported: Seq::<Seq<char>>::empty(),
    }
}

/// The declared input kind: the `type` attribute, or `text` when absent.
pub open spec fn input_type_of(c: InputControlView) -> Seq<char> {
    match c.type_attr {
        Some(t) => t,
        None => "text"@,
    }
}

/// Whether an input control is classified as enumerated: a radio, or a
/// checkbox inside a `multiple` group.
pub open spec fn input_is_enum(c: InputControlView) -> bool {
    input_type_of(c) == "radio"@ || (input_type_of(c) == "checkbox"@ && c.multiple)
}

/// Whether an input control is a required checkbox inside a `multiple`
/// group — required-ness is per checkbox there and cannot be represented as
/// one per-group flag.
pub open spec fn checkbox_violation(c: InputControlView) -> bool {
    input_type_of(c) == "checkbox"@ && c.multiple && c.required
}

/// The field kind inferred from the declared input kind alone.
pub open spec fn inferred_kind(c: InputControlView) -> FieldKindView {
    if input_is_enum(c) {
        FieldKindView::Enumerated
    } else if input_type_of(c) == "checkbox"@ {
        FieldKindView::Scalar(ScalarTypeView::Boolean)
    } else if input_type_of(c) == "number"@ {
        FieldKindView::Scalar(ScalarTypeView::Integer)
    } else {
        FieldKindView::Scalar(ScalarTypeView::Text)
    }
}

/// A directive applied to a field description: a present codec override
/// replaces the field's codec, and a present type override turns a scalar
/// kind into the overridden scalar type while an enumerated kind is left
/// unchanged.
pub open spec fn apply_directive(info: FieldInfoView, d: DirectiveView) -> FieldInfoView {
    let with_codec = FieldInfoView {
        kind: info.kind,
        required: info.required,
        codec_override: if d.codec_override is Some {
            d.codec_override
        } else {
            info.codec_override
        },
    };
    match (d.type_override, with_codec.kind) {
        (Some(t), FieldKindView::Scalar(_)) => FieldInfoView {
            kind: FieldKindView::Scalar(ScalarTypeView::Custom(t)),
            required: with_codec.required,
            codec_override: with_codec.codec_override,
        },
        _ => with_codec,
    }
}

/// Applies a directive to a field description.
pub fn apply_directive_exec(info: FieldInfo, d: Directive) -> (r: FieldInfo)
    ensures
        r@ == apply_directive(info@, d@),
{
    let codec_override = match d.codec_override {
        Some(w) => Some(w),
        None => info.codec_override,
    };
    let kind = match (d.type_override, info.kind) {
        (Some(t), FieldKind::Scalar(_)) => FieldKind::Scalar(ScalarType::Custom(t)),
        (_, k) => k,
    };
    FieldInfo { kind, required: info.required, codec_override }
}

/// The description an input control contributes: the inferred kind, the
/// (possibly forced-false) required flag, and its directive applied.
pub open spec fn input_info(c: InputControlView) -> FieldInfoView {
    let required = if checkbox_violation(c) {
        false
    } else {
        c.required
    };
    let base = FieldInfoView {
        kind: inferred_kind(c),
        required: required,
        codec_override: None,
    };
    match directive_lookup_spec(c.preceding) {
        DirectiveResultView::Found(d) => apply_directive(base, d),
        _ => base,
    }
}

/// The description a (non-`multiple`) select control contributes: always
/// enumerated, with its directive applied.
pub open spec fn select_info(c: SelectControlView) -> FieldInfoView {
    let base = FieldInfoView {
        kind: FieldKindView::Enumerated,
        required: c.required,
        codec_override: None,
    };
    match directive_lookup_spec(c.preceding) {
        DirectiveResultView::Found(d) => apply_directive(base, d),
        _ => base,
    }
}

/// One input control folded into the state: the checkbox-group violation is
/// reported once per field name and forces `required` to false, a malformed
/// directive adds the umbrella diagnostic, and the classified description is
/// merged under the control's name, with the control's `value` attribute
/// added to the value set of an enumerated field.
pub open spec fn input_step(st: CollectStateView, c: InputControlView) -> CollectStateView {
    let violation = checkbox_violation(c);
    let st1 = if violation && !st.reported.contains(c.name) {
        CollectStateView {
            fields: st.fields,
            diags: st.diags.push(DiagnosticView::CheckboxGroupRequired { field: c.name }),
            reported: st.reported.push(c.name),
        }
    } else {
        st
    };
    let st2 = match directive_lookup_spec(c.preceding) {
        DirectiveResultView::Malformed(detail) => CollectStateView {
            fields: st1.fields,
            diags: st1.diags.push(DiagnosticView::InvalidCommentSpec { field: c.name, detail }),
            reported: st1.reported,
        },
        _ => st1,
    };
    let fields1 = spec_upsert(st2.fields, c.name, input_info(c));
    let fields2 = if input_is_enum(c) {
        match c.value {
            Some(v) => spec_add_value(fields1, c.name, v),
            None => fields1,
        }
    } else {
        fields1
    };
    CollectStateView { fields: fields2, diags: st2.diags, reported: st2.reported }
}

/// The raw value an option contributes: its `value` attribute, or its first
/// trimmed text chunk when that is non-blank.
pub open spec fn option_raw(o: OptionEntryView) -> Option<Seq<char>> {
    match o.value {
        Some(v) => Some(v),
        None => match o.text {
            Some(t) => if trim_seq(t).len() > 0 {
                Some(trim_seq(t))
            } else {
                None
            },
            None => None,
        },
    }
}

/// The first `n` options of a select folded into the value set of `name`.
pub open spec fn options_fold(
    fs: Seq<FieldEntryView>,
    name: Seq<char>,
    opts: Seq<OptionEntryView>,
    n: int,
) -> Seq<FieldEntryView>
    decreases n,
{
    if n <= 0 {
        fs
    } else {
        let prev = options_fold(fs, name, opts, n - 1);
        match option_raw(opts[n - 1]) {
            Some(v) => spec_add_value(prev, name, v),
            None => prev,
        }
    }
}

/// One select control folded into the state: a `multiple` select is rejected
/// with a diagnostic and skipped; any other select is an enumerated field
/// whose value set collects each option's raw value.
pub open spec fn select_step(st: CollectStateView, c: SelectControlView) -> CollectStateView {
    if c.multiple {
        CollectStateView {
            fields: st.fields,
            diags: st.diags.push(DiagnosticView::SelectMultiple { field: c.name }),
            reported: st.reported,
        }
    } else {
        let st1 = match directive_lookup_spec(c.preceding) {
            DirectiveResultView::Malformed(detail) => CollectStateView {
                fields: st.fields,
                diags: st.diags.push(
                    DiagnosticView::InvalidCommentSpec { field: c.name, detail },
                ),
                reported: st.reported,
            },
            _ => st,
        };
        let fields1 = spec_upsert(st1.fields, c.name, select_info(c));
        let fields2 = options_fold(fields1, c.name, c.options, c.options.len() as int);
        CollectStateView { fields: fields2, diags: st1.diags, reported: st1.reported }
    }
}

/// The first `n` input controls folded over `st`.
pub open spec fn inputs_fold(st: CollectStateView, cs: Seq<InputControlView>, n: int) -> CollectStateView
    decreases n,
{
    if n <= 0 {
        st
    } else {
        input_step(inputs_fold(st, cs, n - 1), cs[n - 1])
    }
}

/// The first `n` select controls folded over `st`.
pub open spec fn selects_fold(st: CollectStateView, cs: Seq<SelectControlView>, n: int) -> CollectStateView
    decreases n,
{
    if n <= 0 {
        st
    } else {
        select_step(selects_fold(st, cs, n - 1), cs[n - 1])
    }
}

/// The collected state of a whole run: all input controls in document order,
/// then all select controls in document order.
pub open spec fn spec_collect(
    inputs: Seq<InputControlView>,
    selects: Seq<SelectControlView>,
) -> CollectStateView {
    selects_fold(
        inputs_fold(empty_state(), inputs, inputs.len() as int),
        selects,
        selects.len() as int,
    )
}

fn contains_name(reported: &Vec<String>, name: &str) -> (r: bool)
    ensures
        r == views_of(reported@).contains(name@),
{
    let mut i: usize = 0;
    loop
        invariant
            i <= reported.len(),
            forall|k: int| 0 <= k < i ==> views_of(reported@)[k] != name@,
        decreases reported.len() - i,
    {
        if i == reported.len() {
            proof {
                assert(!views_of(reported@).contains(name@));
            }
            return false;
        }
        if str_eq(reported[i].as_str(), name) {
            proof {
                assert(views_of(reported@)[i as int] == name@);
            }
            return true;
        }
        i = i + 1;
    }
}

/// Processes one input control, as `input_step` describes.
pub fn process_input(st: &mut CollectState, c: &InputControl)
    ensures
        final(st)@ == input_step(old(st)@, c@),
{
    let ghost st0 = old(st)@;
    let ty: &str = match &c.type_attr {
        Some(t) => t.as_str(),
        None => "text",
    };
    proof {
        assert(ty@ == input_type_of(c@));
    }
    let is_radio = str_eq(ty, "radio");
    let is_checkbox = str_eq(ty, "checkbox");
    let is_enum = is_radio || (is_checkbox && c.multiple);
    let violation = is_checkbox && c.multiple && c.required;
    if violation {
        if !contains_name(&st.reported, c.name.as_str()) {
            st.diags.push(Diagnostic::CheckboxGroupRequired { field: c.name.clone() });
            st.reported.push(c.name.clone());
            proof {
                assert(view_diags(st.diags@) =~= st0.diags.push(
                    DiagnosticView::CheckboxGroupRequired { field: c@.name },
                ));
                assert(views_of(st.reported@) =~= st0.reported.push(c@.name));
            }
        }
    }
    let ghost st1 = st@;
    let required = if violation {
        false
    } else {
        c.required
    };
    let dir_opt: Option<Directive> = match directive_lookup(&c.preceding) {
        DirectiveResult::NoDirective => None,
        DirectiveResult::Found(d) => Some(d),
        DirectiveResult::Malformed(detail) => {
            st.diags.push(Diagnostic::InvalidCommentSpec { field: c.name.clone(), detail });
            proof {
                assert(view_diags(st.diags@) =~= st1.diags.push(
                    DiagnosticView::InvalidCommentSpec {
                        field: c@.name,
                        detail: directive_lookup_spec(c@.preceding)->Malformed_0,
                    },
                ));
            }
            None
        },
    };
    let kind = if is_enum {
        FieldKind::Enumerated
    } else if is_checkbox {
        FieldKind::Scalar(ScalarType::Boolean)
    } else if str_eq(ty, "number") {
        FieldKind::Scalar(ScalarType::Integer)
    } else {
        FieldKind::Scalar(ScalarType::Text)
    };
    let info0 = FieldInfo { kind, required, codec_override: None };
    let info = match dir_opt {
        Some(d) => apply_directive_exec(info0, d),
        None => info0,
    };
    upsert_field(&mut st.fields, c.name.as_str(), info);
    if is_enum {
        if let Some(v) = &c.value {
            add_enum_value(&mut st.fields, c.name.as_str(), v.as_str());
        }
    }
    proof {
        assert(st@ =~~= input_step(st0, c@));
    }
}

/// Processes one select control, as `select_step` describes.
pub fn process_select(st: &mut CollectState, c: &SelectControl)
    ensures
        final(st)@ == select_step(old(st)@, c@),
{
    let ghost st0 = old(st)@;
    if c.multiple {
        st.diags.push(Diagnostic::SelectMultiple { field: c.name.clone() });
        proof {
            assert(view_diags(st.diags@) =~= st0.diags.push(
                DiagnosticView::SelectMultiple { field: c@.name },
            ));
            assert(st@ =~~= select_step(st0, c@));
        }
        return ;
    }
    let dir_opt: Option<Directive> = match directive_lookup(&c.preceding) {
        DirectiveResult::NoDirective => None,
        DirectiveResult::Found(d) => Some(d),
        DirectiveResult::Malformed(detail) => {
            st.diags.push(Diagnostic::InvalidCommentSpec { field: c.name.clone(), detail });
            proof {
                assert(view_diags(st.diags@) =~= st0.diags.push(
                    DiagnosticView::InvalidCommentSpec {
                        field: c@.name,
                        detail: directive_lookup_spec(c@.preceding)->Malformed_0,
                    },
                ));
            }
            None
        },
    };
    let info0 = FieldInfo {
        kind: FieldKind::Enumerated,
        required: c.required,
        codec_override: None,
    };
    let info = match dir_opt {
        Some(d) => apply_directive_exec(info0, d),
        None => info0,
    };
    upsert_field(&mut st.fields, c.name.as_str(), info);
    let ghost fields_base = view_entries(st.fields@);
    let ghost diags_now = view_diags(st.diags@);
    let ghost reported_now = views_of(st.reported@);
    let mut i: usize = 0;
    while i < c.options.len()
        invariant
            i <= c.options.len(),
            c@.options.len() == c.options.len(),
            view_entries(st.fields@) == options_fold(fields_base, c@.name, c@.options, i as int),
            view_diags(st.diags@) == diags_now,
            views_of(st.reported@) == reported_now,
        decreases c.options.len() - i,
    {
        let o = &c.options[i];
        proof {
            assert(c@.options[i as int] == o@);
        }
        let raw: Option<&str> = match &o.value {
            Some(v) => Some(v.as_str()),
            None => match &o.text {
                Some(t) => {
                    let tr = trim_str(t.as_str());
                    if !tr.is_empty() {
                        Some(tr)
                    } else {
                        None
                    }
                },
                None => None,
            },
        };
        match raw {
            Some(v) => {
                proof {
                    assert(option_raw(c@.options[i as int]) == Some(v@));
                }
                add_enum_value(&mut st.fields, c.name.as_str(), v);
            },
            None => {
                proof {
                    assert(option_raw(c@.options[i as int]) is None);
                }
            },
        }
        i = i + 1;
    }
    proof {
        assert(st@ =~~= select_step(st0, c@));
    }
}

/// Collects every control of a run: all input controls in document order,
/// then all select controls in document order.
pub fn collect_controls(inputs: &Vec<InputControl>, selects: &Vec<SelectControl>) -> (st:
    CollectState)
    ensures
        st@ == spec_collect(view_inputs(inputs@), view_selects(selects@)),
{
    let mut st = CollectState { fields: Vec::new(), diags: Vec::new(), reported: Vec::new() };
    proof {
        assert(st@ =~~= empty_state());
    }
    let mut i: usize = 0;
    while i < inputs.len()
        invariant
            i <= inputs.len(),
            st@ == inputs_fold(empty_state(), view_inputs(inputs@), i as int),
        decreases inputs.len() - i,
    {
        proof {
            assert(view_inputs(inputs@)[i as int] == inputs@[i as int]@);
        }
        process_input(&mut st, &inputs[i]);
        i = i + 1;
    }
    let ghost after_inputs = inputs_fold(empty_state(), view_inputs(inputs@), inputs@.len() as int);
    let mut j: usize = 0;
    while j < selects.len()
        invariant
            j <= selects.len(),
            st@ == selects_fold(after_inputs, view_selects(selects@), j as int),
        decreases selects.len() - j,
    {
        proof {
            assert(view_selects(selects@)[j as int] == selects@[j as int]@);
        }
        process_select(&mut st, &selects[j]);
        j = j + 1;
    }
    st
}

} // verus!
