//! Derives a typed, serializable data schema from the form controls found in
//! an HTML document: it scans `input` and `select` elements under a form root,
//! classifies each into a scalar or enumerated field, honours per-field
//! override directives written as markup comments, resolves canonical
//! identifiers, and either emits a deterministic, lexicographically ordered
//! schema or a batch with every diagnostic found in the run.

pub mod collect;
pub mod controls;
pub mod diag;
pub mod directive;
pub mod fields;
pub mod idents;
pub mod laws;
pub mod markup;
pub mod schema;
pub mod strs;
