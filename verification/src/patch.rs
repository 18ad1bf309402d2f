//! JSON Patch operations.
//!
//! An admission response carries an ordered list of patch operations to be
//! applied atomically by the API server. The webhook only ever emits three
//! kinds: adding a value at a path, removing the value at a path, and
//! copying a value from one path to another. The only values the webhook
//! writes are strings and the empty object that seeds a missing
//! annotations map.

use vstd::prelude::*;

verus! {

/// A value carried by an add operation.
#[derive(Debug, PartialEq, Eq)]
pub enum PatchValue {
    /// The empty JSON object, used to create a missing annotations map.
    EmptyObject,
    /// A JSON string.
    Text(String),
}

/// Spec-level image of a patch value.
pub enum PatchValueView {
    EmptyObject,
    Text(Seq<char>),
}

impl View for PatchValue {
    type V = PatchValueView;

    open spec fn view(&self) -> PatchValueView {
        match self {
            PatchValue::EmptyObject => PatchValueView::EmptyObject,
            PatchValue::Text(s) => PatchValueView::Text(s@),
        }
    }
}

/// One JSON Patch operation, addressed by JSON Pointer paths.
#[derive(Debug, PartialEq, Eq)]
pub enum PatchOp {
    Add { path: String, value: PatchValue },
    Remove { path: String },
    Copy { from: String, path: String },
}

/// Spec-level image of a patch operation.
pub enum PatchOpView {
    Add { path: Seq<char>, value: PatchValueView },
    Remove { path: Seq<char> },
    Copy { from: Seq<char>, path: Seq<char> },
}

impl View for PatchOp {
    type V = PatchOpView;

    open spec fn view(&self) -> PatchOpView {
        match self {
            PatchOp::Add { path, value } => PatchOpView::Add { path: path@, value: value@ },
            PatchOp::Remove { path } => PatchOpView::Remove { path: path@ },
            PatchOp::Copy { from, path } => PatchOpView::Copy { from: from@, path: path@ },
        }
    }
}

/// A patch list as its sequence of operation views.
pub open spec fn ops_view(s: Seq<PatchOp>) -> Seq<PatchOpView> {
    s.map_values(|p: PatchOp| p@)
}

} // verus!
