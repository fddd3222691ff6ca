//! The markup query layer: a small set of trusted queries, each a pure
//! function of the markup text and the selectors it is given, the verified
//! assembly of the plain control descriptions from them, and the driver that
//! derives a schema from markup text.

use vstd::prelude::*;

use crate::controls::{view_inputs, view_nodes, view_opt, view_selects};
use crate::controls::{InputControl, OptionEntry, SelectControl, SiblingNode};
use crate::controls::{InputControlView, OptionEntryView, SelectControlView, SiblingNodeView};
use crate::diag::{view_diags, Diagnostic, DiagnosticView};
use crate::schema::{derive_schema, spec_derive, view_result, Schema};
use scraper::{Html, Node, Selector};

verus! {

/// Whether the selector parses and matches some element of the document.
pub uninterp spec fn form_found_of(html: Seq<char>, selector: Seq<char>) -> bool;

/// How many descendants of the first element matching `selector` match the
/// fixed sub-selector `sub`.
pub uninterp spec fn elems_of(html: Seq<char>, selector: Seq<char>, sub: Seq<char>) -> nat;

/// The value of attribute `attr` on the `i`th such descendant, if any.
pub uninterp spec fn elem_attr_of(
    html: Seq<char>,
    selector: Seq<char>,
    sub: Seq<char>,
    i: int,
    attr: Seq<char>,
) -> Option<Seq<char>>;

/// How many siblings stand before the `i`th such descendant.
pub uninterp spec fn sibling_count_of(
    html: Seq<char>,
    selector: Seq<char>,
    sub: Seq<char>,
    i: int,
) -> nat;

/// The `j`th sibling before the `i`th such descendant, nearest first.
pub uninterp spec fn sibling_of(
    html: Seq<char>,
    selector: Seq<char>,
    sub: Seq<char>,
    i: int,
    j: int,
) -> SiblingNodeView;

/// How many `option` descendants the `i`th named select control has.
pub uninterp spec fn option_count_of(html: Seq<char>, selector: Seq<char>, i: int) -> nat;

/// The value of attribute `attr` on the `j`th option of the `i`th named
/// select control, if any.
pub uninterp spec fn option_attr_of(
    html: Seq<char>,
    selector: Seq<char>,
    i: int,
    j: int,
    attr: Seq<char>,
) -> Option<Seq<char>>;

/// The first text chunk of the `j`th option of the `i`th named select
/// control, if any.
pub uninterp spec fn option_text_of(
    html: Seq<char>,
    selector: Seq<char>,
    i: int,
    j: int,
) -> Option<Seq<char>>;

/// Relies on scraper::Html::parse_document, scraper::Selector::parse and
/// scraper::Html::select: whether the selector parses and matches any element.
/// Parsing does not fail hard, and the outcome is a function of the two texts.
#[verifier::external_body]
fn find_form(html: &str, selector: &str) -> (r: bool)
    ensures
        r == form_found_of(html@, selector@),
{
    let doc = Html::parse_document(html);
    let Ok(sel) = Selector::parse(selector) else { return false };
    doc.select(&sel).next().is_some()
}

/// Relies on scraper::ElementRef::select: counts the descendants of the first
/// selector match that match `sub`; a function of the three texts alone.
#[verifier::external_body]
fn elem_count(html: &str, selector: &str, sub: &str) -> (r: usize)
    ensures
        r as nat == elems_of(html@, selector@, sub@),
{
    let doc = Html::parse_document(html);
    let Ok(sel) = Selector::parse(selector) else { return 0 };
    let Some(form) = doc.select(&sel).next() else { return 0 };
    let Ok(ss) = Selector::parse(sub) else { return 0 };
    form.select(&ss).count()
}

/// Relies on scraper::ElementRef::attr: the attribute's value on the `i`th
/// matching descendant; a function of the arguments alone.
#[verifier::external_body]
fn elem_attr(html: &str, selector: &str, sub: &str, i: usize, attr: &str) -> (r: Option<String>)
    ensures
        view_opt(r) == elem_attr_of(html@, selector@, sub@, i as int, attr@),
{
    let doc = Html::parse_document(html);
    let sel = Selector::parse(selector).ok()?;
    let form = doc.select(&sel).next()?;
    let ss = Selector::parse(sub).ok()?;
    let el = form.select(&ss).nth(i)?;
    el.attr(attr).map(|v| v.to_string())
}

/// Relies on ego_tree::NodeRef::prev_siblings: how many siblings stand before
/// the `i`th matching descendant; a function of the arguments alone.
#[verifier::external_body]
fn sibling_count(html: &str, selector: &str, sub: &str, i: usize) -> (r: usize)
    ensures
        r as nat == sibling_count_of(html@, selector@, sub@, i as int),
{
    let doc = Html::parse_document(html);
    let Ok(sel) = Selector::parse(selector) else { return 0 };
    let Some(form) = doc.select(&sel).next() else { return 0 };
    let Ok(ss) = Selector::parse(sub) else { return 0 };
    let Some(el) = form.select(&ss).nth(i) else { return 0 };
    el.prev_siblings().count()
}

/// Relies on ego_tree::NodeRef::prev_siblings and scraper::Node: the `j`th
/// sibling before the `i`th matching descendant, nearest first, told apart as
/// comment, text or other; a function of the arguments alone.
#[verifier::external_body]
fn sibling_at(html: &str, selector: &str, sub: &str, i: usize, j: usize) -> (r: SiblingNode)
    ensures
        r@ == sibling_of(html@, selector@, sub@, i as int, j as int),
{
    let doc = Html::parse_document(html);
    let Ok(sel) = Selector::parse(selector) else { return SiblingNode::Other };
    let Some(form) = doc.select(&sel).next() else { return SiblingNode::Other };
    let Ok(ss) = Selector::parse(sub) else { return SiblingNode::Other };
    let Some(el) = form.select(&ss).nth(i) else { return SiblingNode::Other };
    let Some(n) = el.prev_siblings().nth(j) else { return SiblingNode::Other };
    match n.value() {
        Node::Comment(c) => SiblingNode::Comment(c.to_string()),
        Node::Text(t) => SiblingNode::Text(t.to_string()),
        _ => SiblingNode::Other,
    }
}

/// Relies on scraper::ElementRef::select: how many `option` descendants the
/// `i`th named select control has; a function of the arguments alone.
#[verifier::external_body]
fn option_count(html: &str, selector: &str, i: usize) -> (r: usize)
    ensures
        r as nat == option_count_of(html@, selector@, i as int),
{
    let doc = Html::parse_document(html);
    let Ok(sel) = Selector::parse(selector) else { return 0 };
    let Some(form) = doc.select(&sel).next() else { return 0 };
    let Ok(ss) = Selector::parse("select[name]") else { return 0 };
    let Some(el) = form.select(&ss).nth(i) else { return 0 };
    let Ok(os) = Selector::parse("option") else { return 0 };
    el.select(&os).count()
}

/// Relies on scraper::ElementRef::attr: the attribute's value on the `j`th
/// option of the `i`th named select control; a function of the arguments.
#[verifier::external_body]
fn option_attr(html: &str, selector: &str, i: usize, j: usize, attr: &str) -> (r: Option<String>)
    ensures
        view_opt(r) == option_attr_of(html@, selector@, i as int, j as int, attr@),
{
    let doc = Html::parse_document(html);
    let sel = Selector::parse(selector).ok()?;
    let form = doc.select(&sel).next()?;
    let ss = Selector::parse("select[name]").ok()?;
    let el = form.select(&ss).nth(i)?;
    let os = Selector::parse("option").ok()?;
    el.select(&os).nth(j)?.attr(attr).map(|v| v.to_string())
}

/// Relies on scraper::ElementRef::text: the first text chunk of the `j`th
/// option of the `i`th named select control; a function of the arguments.
#[verifier::external_body]
fn option_text(html: &str, selector: &str, i: usize, j: usize) -> (r: Option<String>)
    ensures
        view_opt(r) == option_text_of(html@, selector@, i as int, j as int),
{
    let doc = Html::parse_document(html);
    let sel = Selector::parse(selector).ok()?;
    let form = doc.select(&sel).next()?;
    let ss = Selector::parse("select[name]").ok()?;
    let el = form.select(&ss).nth(i)?;
    let os = Selector::parse("option").ok()?;
    el.select(&os).nth(j)?.text().next().map(|t| t.to_string())
}

/// The description of the `i`th named input control, or nothing when there is
/// no such control or it carries no `name`.
pub open spec fn input_at(html: Seq<char>, selector: Seq<char>, i: int) -> Option<
    InputControlView,
> {
    match elem_attr_of(html, selector, "input[name]"@, i, "name"@) {
        None => None,
        Some(nm) => Some(
            InputControlView {
                name: nm,
                type_attr: elem_attr_of(html, selector, "input[name]"@, i, "type"@),
                multiple: elem_attr_of(html, selector, "input[name]"@, i, "multiple"@) is Some,
                required: elem_attr_of(html, selector, "input[name]"@, i, "required"@) is Some,
                value: elem_attr_of(html, selector, "input[name]"@, i, "value"@),
                preceding: Seq::new(
                    sibling_count_of(html, selector, "input[name]"@, i),
                    |j: int| sibling_of(html, selector, "input[name]"@, i, j),
                ),
            },
        ),
    }
}

/// The description of the `j`th option of the `i`th named select control.
pub open spec fn option_at(html: Seq<char>, selector: Seq<char>, i: int, j: int) -> OptionEntryView {
    OptionEntryView {
        value: option_attr_of(html, selector, i, j, "value"@),
        text: option_text_of(html, selector, i, j),
    }
}

/// The description of the `i`th named select control, or nothing when there
/// is no such control or it carries no `name`.
pub open spec fn select_at(html: Seq<char>, selector: Seq<char>, i: int) -> Option<
    SelectControlView,
> {
    match elem_attr_of(html, selector, "select[name]"@, i, "name"@) {
        None => None,
        Some(nm) => Some(
            SelectControlView {
                name: nm,
                multiple: elem_attr_of(html, selector, "select[name]"@, i, "multiple"@) is Some,
                required: elem_attr_of(html, selector, "select[name]"@, i, "required"@) is Some,
                options: Seq::new(
                    option_count_of(html, selector, i),
                    |j: int| option_at(html, selector, i, j),
                ),
                preceding: Seq::new(
                    sibling_count_of(html, selector, "select[name]"@, i),
                    |j: int| sibling_of(html, selector, "select[name]"@, i, j),
                ),
            },
        ),
    }
}

/// The first `n` named input controls, in document order, nameless ones
/// skipped.
pub open spec fn inputs_upto(html: Seq<char>, selector: Seq<char>, n: int) -> Seq<InputControlView>
    decreases n,
{
    if n <= 0 {
        Seq::empty()
    } else {
        inputs_upto(html, selector, n - 1) + match input_at(html, selector, n - 1) {
            Some(c) => seq![c],
            None => Seq::empty(),
        }
    }
}

/// The first `n` named select controls, in document order, nameless ones
/// skipped.
pub open spec fn selects_upto(html: Seq<char>, selector: Seq<char>, n: int) -> Seq<
    SelectControlView,
>
    decreases n,
{
    if n <= 0 {
        Seq::empty()
    } else {
        selects_upto(html, selector, n - 1) + match select_at(html, selector, n - 1) {
            Some(c) => seq![c],
            None => Seq::empty(),
        }
    }
}

/// What reading the markup yields: under the first element the selector
/// matches, the plain descriptions of every input-like and every select-like
/// control carrying a `name` attribute, each list in document order — or
/// nothing when the selector parses to no match or matches no element.
pub open spec fn extraction_of(html: Seq<char>, selector: Seq<char>) -> Option<
    (Seq<InputControlView>, Seq<SelectControlView>),
> {
    if form_found_of(html, selector) {
        Some(
            (
                inputs_upto(html, selector, elems_of(html, selector, "input[name]"@) as int),
                selects_upto(html, selector, elems_of(html, selector, "select[name]"@) as int),
            ),
        )
    } else {
        None
    }
}

/// The views of an extraction result.
pub open spec fn view_extraction(r: Option<(Vec<InputControl>, Vec<SelectControl>)>) -> Option<
    (Seq<InputControlView>, Seq<SelectControlView>),
> {
    match r {
        None => None,
        Some((ins, sels)) => Some((view_inputs(ins@), view_selects(sels@))),
    }
}

/// The view of an optional input control.
pub open spec fn view_opt_input(r: Option<InputControl>) -> Option<InputControlView> {
    match r {
        None => None,
        Some(c) => Some(c@),
    }
}

/// The view of an optional select control.
pub open spec fn view_opt_select(r: Option<SelectControl>) -> Option<SelectControlView> {
    match r {
        None => None,
        Some(c) => Some(c@),
    }
}

fn read_siblings(html: &str, selector: &str, sub: &str, i: usize) -> (r: Vec<SiblingNode>)
    ensures
        view_nodes(r@) == Seq::new(
            sibling_count_of(html@, selector@, sub@, i as int),
            |j: int| sibling_of(html@, selector@, sub@, i as int, j),
        ),
{
    let m = sibling_count(html, selector, sub, i);
    let mut out: Vec<SiblingNode> = Vec::new();
    let mut j: usize = 0;
    while j < m
        invariant
            j <= m,
            m as nat == sibling_count_of(html@, selector@, sub@, i as int),
            out@.len() == j,
            forall|k: int|
                0 <= k < j ==> (#[trigger] out@[k])@ == sibling_of(
                    html@,
                    selector@,
                    sub@,
                    i as int,
                    k,
                ),
        decreases m - j,
    {
        out.push(sibling_at(html, selector, sub, i, j));
        j = j + 1;
    }
    proof {
        assert(view_nodes(out@) =~= Seq::new(
            sibling_count_of(html@, selector@, sub@, i as int),
            |j: int| sibling_of(html@, selector@, sub@, i as int, j),
        ));
    }
    out
}

fn read_input_at(html: &str, selector: &str, i: usize) -> (r: Option<InputControl>)
    ensures
        view_opt_input(r) == input_at(html@, selector@, i as int),
{
    match elem_attr(html, selector, "input[name]", i, "name") {
        None => None,
        Some(nm) => {
            let c = InputControl {
                name: nm,
                type_attr: elem_attr(html, selector, "input[name]", i, "type"),
                multiple: elem_attr(html, selector, "input[name]", i, "multiple").is_some(),
                required: elem_attr(html, selector, "input[name]", i, "required").is_some(),
                value: elem_attr(html, selector, "input[name]", i, "value"),
                preceding: read_siblings(html, selector, "input[name]", i),
            };
            proof {
                assert(c@ =~~= input_at(html@, selector@, i as int)->Some_0);
            }
            Some(c)
        },
    }
}

fn read_select_at(html: &str, selector: &str, i: usize) -> (r: Option<SelectControl>)
    ensures
        view_opt_select(r) == select_at(html@, selector@, i as int),
{
    match elem_attr(html, selector, "select[name]", i, "name") {
        None => None,
        Some(nm) => {
            let m = option_count(html, selector, i);
            let mut options: Vec<OptionEntry> = Vec::new();
            let mut j: usize = 0;
            while j < m
                invariant
                    j <= m,
                    m as nat == option_count_of(html@, selector@, i as int),
                    options@.len() == j,
                    forall|k: int|
                        0 <= k < j ==> (#[trigger] options@[k])@ == option_at(
                            html@,
                            selector@,
                            i as int,
                            k,
                        ),
                decreases m - j,
            {
                let o = OptionEntry {
                    value: option_attr(html, selector, i, j, "value"),
                    text: option_text(html, selector, i, j),
                };
                proof {
                    assert(o@ =~~= option_at(html@, selector@, i as int, j as int));
                }
                options.push(o);
                j = j + 1;
            }
            let c = SelectControl {
                name: nm,
                multiple: elem_attr(html, selector, "select[name]", i, "multiple").is_some(),
                required: elem_attr(html, selector, "select[name]", i, "required").is_some(),
                options,
                preceding: read_siblings(html, selector, "select[name]", i),
            };
            proof {
                assert(c@.options =~= Seq::new(
                    option_count_of(html@, selector@, i as int),
                    |j: int| option_at(html@, selector@, i as int, j),
                ));
                assert(c@ =~~= select_at(html@, selector@, i as int)->Some_0);
            }
            Some(c)
        },
    }
}

/// Reads the plain descriptions of the named controls under the form the
/// selector picks: exactly `extraction_of` of the text and the selector.
pub fn extract_controls(html: &str, selector: &str) -> (r: Option<
    (Vec<InputControl>, Vec<SelectControl>),
>)
    ensures
        view_extraction(r) == extraction_of(html@, selector@),
{
    if !find_form(html, selector) {
        return None;
    }
    let n_in = elem_count(html, selector, "input[name]");
    let mut inputs: Vec<InputControl> = Vec::new();
    let mut i: usize = 0;
    proof {
        assert(view_inputs(inputs@) =~= inputs_upto(html@, selector@, 0));
    }
    while i < n_in
        invariant
            i <= n_in,
            n_in as nat == elems_of(html@, selector@, "input[name]"@),
            view_inputs(inputs@) == inputs_upto(html@, selector@, i as int),
        decreases n_in - i,
    {
        match read_input_at(html, selector, i) {
            Some(c) => {
                inputs.push(c);
                proof {
                    assert(view_inputs(inputs@) =~= inputs_upto(html@, selector@, i as int + 1));
                }
            },
            None => {
                proof {
                    assert(inputs_upto(html@, selector@, i as int + 1) =~= inputs_upto(
                        html@,
                        selector@,
                        i as int,
                    ));
                }
            },
        }
        i = i + 1;
    }
    let n_sel = elem_count(html, selector, "select[name]");
    let mut selects: Vec<SelectControl> = Vec::new();
    let mut j: usize = 0;
    proof {
        assert(view_selects(selects@) =~= selects_upto(html@, selector@, 0));
    }
    while j < n_sel
        invariant
            j <= n_sel,
            n_sel as nat == elems_of(html@, selector@, "select[name]"@),
            view_selects(selects@) == selects_upto(html@, selector@, j as int),
        decreases n_sel - j,
    {
        match read_select_at(html, selector, j) {
            Some(c) => {
                selects.push(c);
                proof {
                    assert(view_selects(selects@) =~= selects_upto(html@, selector@, j as int + 1));
                }
            },
            None => {
                proof {
                    assert(selects_upto(html@, selector@, j as int + 1) =~= selects_upto(
                        html@,
                        selector@,
                        j as int,
                    ));
                }
            },
        }
        j = j + 1;
    }
    Some((inputs, selects))
}

/// Derives the canonical schema from markup text. The result is pinned to
/// the reading of the markup: when the selector matches nothing the single
/// selector-no-match diagnostic comes back, and otherwise the result is
/// exactly the derivation of the controls that were read — so identical
/// markup, selector and target name always yield identical results.
pub fn derive_from_markup(html: &str, selector: &str, target: &str) -> (r: Result<
    Schema,
    Vec<Diagnostic>,
>)
    ensures
        match extraction_of(html@, selector@) {
            None => (r matches Err(ds) && view_diags(ds@) == seq![
                DiagnosticView::SelectorNoMatch { selector: selector@ },
            ]),
            Some(cs) => view_result(r) == spec_derive(cs.0, cs.1, target@),
        },
{
    match extract_controls(html, selector) {
        None => {
            let mut ds: Vec<Diagnostic> = Vec::new();
            ds.push(Diagnostic::SelectorNoMatch { selector: selector.to_owned() });
            proof {
                assert(view_diags(ds@) =~= seq![
                    DiagnosticView::SelectorNoMatch { selector: selector@ },
                ]);
            }
            Err(ds)
        },
        Some((inputs, selects)) => derive_schema(&inputs, &selects, target),
    }
}

} // verus!
