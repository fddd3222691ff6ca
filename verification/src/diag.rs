//! Diagnostics: every problem found during a derivation run is collected in a
//! batch, and the batch is returned in place of a schema when it is non-empty.

use vstd::prelude::*;

verus! {

/// One problem found while deriving a schema. Diagnostics never abort a run;
/// they accumulate so that a single run surfaces every error.
#[derive(Debug, Clone, PartialEq, Eq)]
pub enum Diagnostic {
    /// The form selector matched no element of the document.
    SelectorNoMatch { selector: String },
    /// A checkbox group marks individual members `required`, which one
    /// per-group flag cannot represent.
    CheckboxGroupRequired { field: String },
    /// The comment directive before a control could not be parsed; `detail`
    /// carries the underlying parse failure.
    InvalidCommentSpec { field: String, detail: String },
    /// A `select` control uses `multiple`, an unsupported cardinality.
    SelectMultiple { field: String },
    /// An enumerated field ended up with no derivable values.
    EnumNoValues { field: String },
    /// Several raw values of one enumerated field canonicalize to the same
    /// variant identifier; `originals` names every colliding raw value.
    VariantCollision { field: String, variant: String, originals: Vec<String> },
}

/// The mathematical image of a `Diagnostic`.
#[verifier::ext_equal]
pub enum DiagnosticView {
    SelectorNoMatch { selector: Seq<char> },
    CheckboxGroupRequired { field: Seq<char> },
    InvalidCommentSpec { field: Seq<char>, detail: Seq<char> },
    SelectMultiple { field: Seq<char> },
    EnumNoValues { field: Seq<char> },
    VariantCollision { field: Seq<char>, variant: Seq<char>, originals: Seq<Seq<char>> },
}

impl View for Diagnostic {
    type V = DiagnosticView;

    open spec fn view(&self) -> DiagnosticView {
        match self {
            Diagnostic::SelectorNoMatch { selector } => DiagnosticView::SelectorNoMatch {
                selector: selector@,
            },
            Diagnostic::CheckboxGroupRequired { field } => DiagnosticView::CheckboxGroupRequired {
                field: field@,
            },
            Diagnostic::InvalidCommentSpec { field, detail } => DiagnosticView::InvalidCommentSpec {
                field: field@,
                detail: detail@,
            },
            Diagnostic::SelectMultiple { field } => DiagnosticView::SelectMultiple {
                field: field@,
            },
            Diagnostic::EnumNoValues { field } => DiagnosticView::EnumNoValues { field: field@ },
            Diagnostic::VariantCollision { field, variant, originals } => {
                DiagnosticView::VariantCollision {
                    field: field@,
                    variant: variant@,
                    originals: originals@.map_values(|s: String| s@),
                }
            },
        }
    }
}

/// The views of a batch of diagnostics.
pub open spec fn view_diags(ds: Seq<Diagnostic>) -> Seq<DiagnosticView> {
    ds.map_values(|d: Diagnostic| d@)
}

} // verus!
