//! Parallax: the deterministic core of a server of corrective reasoning
//! tools — routing of call sites to models, memory records, the corrective
//! modes' input checks, prompts and aggregation, and the research layer's
//! grounding, evidence selection and run settings.
use vstd::prelude::*;

pub mod catalog;
pub mod error;
pub mod memory;
pub mod modes;
pub mod observability;
pub mod research;
pub mod routing;
pub mod schema;
pub mod text;

verus! {
} // verus!
