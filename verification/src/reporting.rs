//! The notes that explain why one type is not assignable to another.
use vstd::prelude::*;
use crate::text::owned;

verus! {

/// Why a value of type `actual` is not assignable to `expected`: the rendered types, the path
/// to the first mismatch, and an optional detail.
#[derive(Debug)]
pub struct SemanticTypeAssignabilityFailure {
    pub expected: String,
    pub actual: String,
    pub mismatch_path: Vec<String>,
    pub detail: Option<String>,
}

impl SemanticTypeAssignabilityFailure {
    /// The first note of a type mismatch: which type is not assignable to which.
    pub fn primary_reason_note(&self) -> (res: String)
        ensures
            res@ == "reason: `"@ + self.actual@ + "` is not assignable to `"@ + self.expected@
                + "` under semantic type checking"@,
    {
        let mut note = owned("reason: `");
        note.append(&self.actual);
        note.append("` is not assignable to `");
        note.append(&self.expected);
        note.append("` under semantic type checking");
        note
    }
}

} // verus!
