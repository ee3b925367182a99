//! The per-input and per-step entries of evidence records,
//! `rustev.evidence/1`: what one decision used and computed.
use vstd::prelude::*;

use crate::definition::ProvenanceClass;
use crate::judgment::{Derivation, Unresolved};
use crate::time::Timestamp;

verus! {

/// What became of one declared input.
#[derive(Debug, Clone, PartialEq, Eq)]
pub struct InputEvidence {
    pub field: String,
    pub status: InputStatus,
}

/// Whether an input resolved, and from where.
#[derive(Debug, Clone, PartialEq, Eq)]
pub enum InputStatus {
    Resolved { provenance: ProvenanceClass, as_of_ms: Timestamp, source: String },
    Unresolved(Unresolved),
}

/// What became of one step instance.
#[derive(Debug, Clone, PartialEq, Eq)]
pub struct StepEvidence {
    pub step: String,
    pub instance: Vec<String>,
    pub status: StepStatus,
}

/// Whether a step instance resolved, and how it was derived.
#[derive(Debug, Clone, PartialEq, Eq)]
pub enum StepStatus {
    Resolved { kind: String, derivation: Derivation },
    Unresolved(Unresolved),
}

} // verus!
