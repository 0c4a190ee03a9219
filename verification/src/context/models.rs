//! Records of the context optimiser shared by several stages.

use vstd::prelude::*;

verus! {

/// Why a candidate file was excluded from the final bundle.
#[derive(Debug, Clone, Copy, PartialEq, Eq, Structural)]
pub enum DroppedReason {
    /// Collapsed as a near-duplicate of a kept file.
    Duplicate,
    /// The file exceeded the requested token or file budget.
    BudgetExceeded,
    /// A binary or media asset, never eligible as context.
    NonText,
    /// A generated lockfile or bundle, never eligible as context.
    Generated,
    /// The normalized relevance fell below the requested minimum.
    LowRelevance,
}

impl DroppedReason {
    /// The snake-case name of the reason.
    pub fn as_str(&self) -> (r: &'static str)
        ensures
            r@ == dropped_reason_name(*self),
    {
        match self {
            DroppedReason::Duplicate => "duplicate",
            DroppedReason::BudgetExceeded => "budget_exceeded",
            DroppedReason::NonText => "non_text",
            DroppedReason::Generated => "generated",
            DroppedReason::LowRelevance => "low_relevance",
        }
    }
}

/// The snake-case name of a dropped reason.
pub open spec fn dropped_reason_name(r: DroppedReason) -> Seq<char> {
    match r {
        DroppedReason::Duplicate => "duplicate"@,
        DroppedReason::BudgetExceeded => "budget_exceeded"@,
        DroppedReason::NonText => "non_text"@,
        DroppedReason::Generated => "generated"@,
        DroppedReason::LowRelevance => "low_relevance"@,
    }
}

/// A candidate file that was not selected.
#[derive(Debug, Clone, PartialEq, Eq)]
pub struct DroppedFile {
    /// Repository-relative path.
    pub path: String,
    /// Why the file was dropped.
    pub reason: DroppedReason,
    /// Human-readable detail (budget numbers, duplicate representative).
    pub detail: String,
}

} // verus!
