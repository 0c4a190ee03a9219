//! Token and file budget enforcement. The [`Pruner`] is a stateful gate:
//! candidates are offered in relevance order and each is kept, or dropped
//! with a reason once a `max_files` or `max_tokens` cap is reached.

use vstd::prelude::*;
use crate::context::models::DroppedReason;
use crate::text::{decimal, decimal_string, push_str_chars, string_from_chars};

verus! {

/// A candidate offered to the budget gate.
#[derive(Debug, Clone, PartialEq, Eq)]
pub struct PruneCandidate {
    /// Repository-relative path.
    pub path: String,
    /// Approximate token count of the file's content.
    pub tokens: usize,
}

/// What the budget does with a candidate.
#[derive(Debug, Clone, PartialEq, Eq)]
pub enum PruneOutcome {
    /// The candidate fits within the budget and is kept.
    Keep,
    /// The candidate exceeds the budget.
    Drop {
        /// Why the candidate was dropped.
        reason: DroppedReason,
        /// Human-readable detail.
        detail: String,
    },
}

/// A stateful token/file budget gate.
#[derive(Debug)]
pub struct Pruner {
    max_files: Option<usize>,
    max_tokens: Option<usize>,
    files_used: usize,
    tokens_used: usize,
}

/// The state of a pruner: its caps and what it has kept so far.
pub struct PrunerView {
    pub max_files: Option<usize>,
    pub max_tokens: Option<usize>,
    pub files_used: nat,
    pub tokens_used: nat,
}

/// Whether what was kept fits both caps.
pub open spec fn within_budget(v: PrunerView) -> bool {
    &&& (v.max_files matches Some(l) ==> v.files_used <= l)
    &&& (v.max_tokens matches Some(l) ==> v.tokens_used <= l)
}

/// Whether the file cap is reached.
pub open spec fn files_full(v: PrunerView) -> bool {
    v.max_files matches Some(l) && v.files_used >= l
}

/// Whether keeping `tokens` more would pass the token cap.
pub open spec fn tokens_exceeded(v: PrunerView, tokens: nat) -> bool {
    v.max_tokens matches Some(l) && v.tokens_used + tokens > l
}

/// Detail of a drop at the file cap.
pub open spec fn files_budget_detail(limit: nat) -> Seq<char> {
    "max files budget reached ("@ + decimal(limit) + ")"@
}

/// Detail of a drop at the token cap.
pub open spec fn tokens_budget_detail(needed: nat, used: nat, limit: nat) -> Seq<char> {
    "token budget would be exceeded ("@ + decimal(needed) + " needed, "@ + decimal(used) + " of "@
        + decimal(limit) + " used)"@
}

/// A drop for the budget with the given detail.
pub open spec fn budget_drop(r: PruneOutcome, d: Seq<char>) -> bool {
    match r {
        PruneOutcome::Drop { reason, detail } => reason == DroppedReason::BudgetExceeded && detail@ == d,
        PruneOutcome::Keep => false,
    }
}

impl View for Pruner {
    type V = PrunerView;

    closed spec fn view(&self) -> PrunerView {
        PrunerView {
            max_files: self.max_files,
            max_tokens: self.max_tokens,
            files_used: self.files_used as nat,
            tokens_used: self.tokens_used as nat,
        }
    }
}

impl Clone for Pruner {
    fn clone(&self) -> (r: Self)
        ensures
            r@ == self@,
    {
        proof {
            use_type_invariant(self);
        }
        Pruner {
            max_files: self.max_files,
            max_tokens: self.max_tokens,
            files_used: self.files_used,
            tokens_used: self.tokens_used,
        }
    }
}

impl Pruner {
    #[verifier::type_invariant]
    spec fn fits(&self) -> bool {
        within_budget(self@)
    }

    /// Creates a gate with the given caps; `None` disables a cap.
    pub fn new(max_files: Option<usize>, max_tokens: Option<usize>) -> (r: Self)
        ensures
            r@ == (PrunerView { max_files, max_tokens, files_used: 0, tokens_used: 0 }),
    {
        Pruner { max_files, max_tokens, files_used: 0, tokens_used: 0 }
    }

    /// Offers the next candidate (in descending relevance order). It is
    /// dropped when the file cap is reached or when its tokens would pass the
    /// token cap; otherwise it is kept and counted.
    pub fn offer(&mut self, candidate: &PruneCandidate) -> (r: PruneOutcome)
        requires
            old(self)@.max_files is None ==> old(self)@.files_used < usize::MAX,
            old(self)@.max_tokens is None ==> old(self)@.tokens_used + candidate.tokens <= usize::MAX,
        ensures
            within_budget(final(self)@),
            files_full(old(self)@) ==> final(self)@ == old(self)@ && budget_drop(
                r,
                files_budget_detail(old(self)@.max_files->0 as nat),
            ),
            !files_full(old(self)@) && tokens_exceeded(old(self)@, candidate.tokens as nat) ==> final(self)@
                == old(self)@ && budget_drop(
                r,
                tokens_budget_detail(
                    candidate.tokens as nat,
                    old(self)@.tokens_used,
                    old(self)@.max_tokens->0 as nat,
                ),
            ),
            !files_full(old(self)@) && !tokens_exceeded(old(self)@, candidate.tokens as nat) ==> r
                == PruneOutcome::Keep && final(self)@ == (PrunerView {
                files_used: old(self)@.files_used + 1,
                tokens_used: old(self)@.tokens_used + candidate.tokens as nat,
                ..old(self)@
            }),
    {
        proof {
            use_type_invariant(&*self);
        }
        if let Some(limit) = self.max_files {
            if self.files_used >= limit {
                let mut d: Vec<char> = Vec::new();
                push_str_chars(&mut d, "max files budget reached (");
                push_str_chars(&mut d, decimal_string(limit as u64).as_str());
                push_str_chars(&mut d, ")");
                proof {
                    reveal_strlit("max files budget reached (");
                    reveal_strlit(")");
                }
                assert(d@ =~= files_budget_detail(limit as nat));
                return PruneOutcome::Drop {
                    reason: DroppedReason::BudgetExceeded,
                    detail: string_from_chars(d.as_slice()),
                };
            }
        }
        if let Some(limit) = self.max_tokens {
            if candidate.tokens > limit - self.tokens_used {
                let mut d: Vec<char> = Vec::new();
                push_str_chars(&mut d, "token budget would be exceeded (");
                push_str_chars(&mut d, decimal_string(candidate.tokens as u64).as_str());
                push_str_chars(&mut d, " needed, ");
                push_str_chars(&mut d, decimal_string(self.tokens_used as u64).as_str());
                push_str_chars(&mut d, " of ");
                push_str_chars(&mut d, decimal_string(limit as u64).as_str());
                push_str_chars(&mut d, " used)");
                assert(d@ =~= tokens_budget_detail(candidate.tokens as nat, self.tokens_used as nat, limit as nat));
                return PruneOutcome::Drop {
                    reason: DroppedReason::BudgetExceeded,
                    detail: string_from_chars(d.as_slice()),
                };
            }
        }
        self.files_used = self.files_used + 1;
        self.tokens_used = self.tokens_used + candidate.tokens;
        PruneOutcome::Keep
    }

    /// Number of tokens kept so far.
    pub fn tokens_used(&self) -> (r: usize)
        ensures
            r == self@.tokens_used,
    {
        self.tokens_used
    }

    /// Number of files kept so far.
    pub fn files_used(&self) -> (r: usize)
        ensures
            r == self@.files_used,
    {
        self.files_used
    }
}

} // verus!
