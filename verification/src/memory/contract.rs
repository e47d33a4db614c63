//! The memory tools' wire types.
use vstd::prelude::*;
use crate::memory::{Kind, Trust};

verus! {

/// `save` input.
#[derive(Debug, Clone)]
pub struct SaveParams {
    /// The memory itself.
    pub content: String,
    /// skill, lesson or fact.
    pub kind: Kind,
    /// Where it came from.
    pub origin: String,
    /// Whether it came from outside the calling session.
    pub external: bool,
    /// Optional tags.
    pub tags: Option<Vec<String>>,
    /// Run independent verification before storing external content.
    pub verify: Option<bool>,
}

/// `save` output.
#[derive(Debug, Clone)]
pub struct SaveResult {
    /// The stored memory's id.
    pub id: String,
    /// The derived trust standing.
    pub trust: Trust,
    /// Verification findings, when verification ran.
    pub findings: Vec<String>,
}

/// `recall` input.
#[derive(Debug, Clone)]
pub struct RecallParams {
    /// What to recall memories for.
    pub query: String,
    /// Restrict to one kind.
    pub kind: Option<Kind>,
    /// How many memories to return.
    pub limit: Option<u32>,
}

/// `forget` input.
#[derive(Debug, Clone)]
pub struct ForgetParams {
    /// The memory to delete.
    pub id: String,
}

/// `forget` output.
#[derive(Debug, Clone)]
pub struct ForgetResult {
    /// Whether a memory was deleted.
    pub forgotten: bool,
}

} // verus!
