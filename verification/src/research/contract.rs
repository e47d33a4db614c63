//! The research tool's input and output shapes.
use vstd::prelude::*;
use crate::error::{invalid_input_is, AppError};
use crate::research::Depth;

verus! {

/// Tool input.
#[derive(Debug, Clone)]
pub struct ResearchParams {
    /// The question to research.
    pub question: String,
    /// How deep to go; standard when omitted.
    pub depth: Option<Depth>,
    /// Aspects to focus on, at most 8.
    pub focus: Option<Vec<String>>,
    /// Limits on the run.
    pub constraints: Option<Constraints>,
}

/// Limits a caller may set on a run.
#[derive(Debug, Clone, Default)]
pub struct Constraints {
    /// Sources fetched at most, 1 to 60.
    pub max_sources: Option<u32>,
    /// Only these domains (and their subdomains) are fetched.
    pub domains_allow: Option<Vec<String>>,
    /// These domains (and their subdomains) are never fetched.
    pub domains_deny: Option<Vec<String>>,
    /// Token budget, at least 1000.
    pub budget_tokens: Option<u64>,
    /// Deadline, at least 5000 ms.
    pub deadline_ms: Option<u64>,
}

/// A claim the sources disagree on.
#[derive(Debug, Clone)]
pub struct Disagreement {
    /// The contested claim.
    pub claim: String,
    /// The positions taken.
    pub positions: Vec<Position>,
}

/// One position on a contested claim.
#[derive(Debug, Clone)]
pub struct Position {
    /// The stance.
    pub stance: String,
    /// The sources taking it.
    pub sources: Vec<String>,
}

/// Why a run stopped early.
#[derive(Debug, Clone, Copy, PartialEq, Eq, Structural)]
pub enum StopReason {
    /// The token budget ran out.
    Budget,
    /// The deadline passed.
    Deadline,
    /// The answer could not be grounded.
    Grounding,
}

/// What a run did.
#[derive(Debug, Clone, Default)]
pub struct Stats {
    /// Search angles used.
    pub angles: u32,
    /// Searches made.
    pub searches: u32,
    /// Sources found.
    pub sources_found: u32,
    /// Sources fetched.
    pub sources_fetched: u32,
    /// Claims extracted.
    pub claims_extracted: u32,
    /// Claims left after deduplication.
    pub claims_after_dedup: u32,
    /// Claims verified.
    pub claims_verified: u32,
    /// Claims dropped.
    pub claims_dropped: u32,
    /// Tokens spent.
    pub tokens: u64,
    /// Wall time.
    pub elapsed_ms: u64,
    /// The run stopped before finishing.
    pub stopped_early: bool,
    /// Why it stopped early.
    pub stop_reason: Option<StopReason>,
}

/// The concurrency a run uses: the configured ceiling when omitted; a
/// request may lower it, and one above the ceiling is reduced to it; zero
/// is rejected.
pub open spec fn spec_concurrency(requested: Option<u32>, ceiling: usize) -> Option<usize> {
    match requested {
        None => Some(ceiling),
        Some(n) => if n == 0 {
            None
        } else if n <= ceiling {
            Some(n as usize)
        } else {
            Some(ceiling)
        },
    }
}

/// Resolve the per-run concurrency against the configured ceiling.
pub fn effective_concurrency(requested: Option<u32>, ceiling: usize) -> (r: Result<usize, AppError>)
    ensures
        spec_concurrency(requested, ceiling) matches Some(c) ==> r == Ok::<usize, AppError>(c),
        spec_concurrency(requested, ceiling) is None ==> (r matches Err(e) && invalid_input_is(
            e,
            "concurrency must be at least 1"@,
        )),
{
    match requested {
        None => Ok(ceiling),
        Some(n) => {
            if n == 0 {
                Err(AppError::InvalidInput("concurrency must be at least 1".to_string()))
            } else if (n as u64) <= ceiling as u64 {
                Ok(n as usize)
            } else {
                Ok(ceiling)
            }
        },
    }
}


/// A caller may lower the concurrency but never raise it: an accepted
/// value is at least one (for a ceiling of at least one), at most the
/// ceiling, and at most what was asked.
pub proof fn lemma_concurrency_bounded(requested: Option<u32>, ceiling: usize)
    ensures
        spec_concurrency(requested, ceiling) matches Some(c) ==> c <= ceiling && (ceiling >= 1
            ==> c >= 1) && (requested matches Some(n) ==> c <= n),
        spec_concurrency(requested, ceiling) is None <==> requested == Some(0u32),
{
}

} // verus!
