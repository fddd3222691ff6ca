//! The plain description of a form control as read from the markup: the
//! attributes the engine inspects, the preceding sibling nodes used for
//! directive lookup, and, for `select` controls, the child options.

use vstd::prelude::*;

verus! {

/// A sibling node preceding a control, as far as directive lookup cares:
/// a comment with its text, a text node with its text, or anything else.
pub enum SiblingNode {
    Comment(String),
    Text(String),
    Other,
}

/// The mathematical image of a `SiblingNode`.
#[verifier::ext_equal]
pub enum SiblingNodeView {
    Comment(Seq<char>),
    Text(Seq<char>),
    Other,
}

impl View for SiblingNode {
    type V = SiblingNodeView;

    open spec fn view(&self) -> SiblingNodeView {
        match self {
            SiblingNode::Comment(t) => SiblingNodeView::Comment(t@),
            SiblingNode::Text(t) => SiblingNodeView::Text(t@),
            SiblingNode::Other => SiblingNodeView::Other,
        }
    }
}

/// The views of a list of sibling nodes.
pub open spec fn view_nodes(ns: Seq<SiblingNode>) -> Seq<SiblingNodeView> {
    ns.map_values(|n: SiblingNode| n@)
}

/// One `option` child of a `select` control: its `value` attribute and its
/// first text chunk, where present.
pub struct OptionEntry {
    pub value: Option<String>,
    pub text: Option<String>,
}

/// The mathematical image of an `OptionEntry`.
#[verifier::ext_equal]
pub struct OptionEntryView {
    pub value: Option<Seq<char>>,
    pub text: Option<Seq<char>>,
}

/// The view of an optional string.
pub open spec fn view_opt(o: Option<String>) -> Option<Seq<char>> {
    match o {
        Some(s) => Some(s@),
        None => None,
    }
}

impl View for OptionEntry {
    type V = OptionEntryView;

    open spec fn view(&self) -> OptionEntryView {
        OptionEntryView { value: view_opt(self.value), text: view_opt(self.text) }
    }
}

/// An `input`-like control carrying a `name` attribute.
pub struct InputControl {
    pub name: String,
    pub type_attr: Option<String>,
    pub multiple: bool,
    pub required: bool,
    pub value: Option<String>,
    /// The siblings before the control, nearest first.
    pub preceding: Vec<SiblingNode>,
}

/// The mathematical image of an `InputControl`.
#[verifier::ext_equal]
pub struct InputControlView {
    pub name: Seq<char>,
    pub type_attr: Option<Seq<char>>,
    pub multiple: bool,
    pub required: bool,
    pub value: Option<Seq<char>>,
    pub preceding: Seq<SiblingNodeView>,
}

impl View for InputControl {
    type V = InputControlView;

    open spec fn view(&self) -> InputControlView {
        InputControlView {
            name: self.name@,
            type_attr: view_opt(self.type_attr),
            multiple: self.multiple,
            required: self.required,
            value: view_opt(self.value),
            preceding: view_nodes(self.preceding@),
        }
    }
}

/// A `select` control carrying a `name` attribute.
pub struct SelectControl {
    pub name: String,
    pub multiple: bool,
    pub required: bool,
    pub options: Vec<OptionEntry>,
    /// The siblings before the control, nearest first.
    pub preceding: Vec<SiblingNode>,
}

/// The mathematical image of a `SelectControl`.
#[verifier::ext_equal]
pub struct SelectControlView {
    pub name: Seq<char>,
    pub multiple: bool,
    pub required: bool,
    pub options: Seq<OptionEntryView>,
    pub preceding: Seq<SiblingNodeView>,
}

impl View for SelectControl {
    type V = SelectControlView;

    open spec fn view(&self) -> SelectControlView {
        SelectControlView {
            name: self.name@,
            multiple: self.multiple,
            required: self.required,
            options: self.options@.map_values(|o: OptionEntry| o@),
            preceding: view_nodes(self.preceding@),
        }
    }
}

/// The views of a list of input controls.
pub open spec fn view_inputs(cs: Seq<InputControl>) -> Seq<InputControlView> {
    cs.map_values(|c: InputControl| c@)
}

/// The views of a list of select controls.
pub open spec fn view_selects(cs: Seq<SelectControl>) -> Seq<SelectControlView> {
    cs.map_values(|c: SelectControl| c@)
}

} // verus!
