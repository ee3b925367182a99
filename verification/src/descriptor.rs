//! Backend capability descriptors, `rustev.backend/1`. A backend states what
//! it returns; the compiler never assumes more.
use vstd::prelude::*;

use crate::definition::{Determinism, Operation};
use crate::ids::ArtifactId;

verus! {

/// What one backend offers.
#[derive(Debug, Clone, PartialEq, Eq)]
pub struct BackendDescriptor {
    pub schema: String,
    pub backend_id: String,
    pub artifact: ArtifactId,
    pub operations: Vec<OperationSupport>,
    pub input_limit: InputLimit,
    pub determinism: Determinism,
}

/// One operation a backend supports and what it returns for it.
#[derive(Debug, Clone, PartialEq, Eq)]
pub struct OperationSupport {
    pub operation: Operation,
    pub output: OutputKind,
    /// The most options, levels or candidates one request may carry.
    pub max_options: u64,
}

/// What a backend returns for an operation.
#[derive(Debug, Clone, Copy, PartialEq, Eq, PartialOrd, Ord, Hash)]
pub enum OutputKind {
    Label,
    Scores,
    Distribution,
    Logits,
}

/// The largest projected input a backend takes, and what happens beyond it.
#[derive(Debug, Clone, PartialEq, Eq)]
pub struct InputLimit {
    /// Largest projected input, in canonical JSON bytes.
    pub max_bytes: u64,
    pub on_excess: InputExcess,
}

/// What a backend does with an input beyond its limit.
#[derive(Debug, Clone, Copy, PartialEq, Eq)]
pub enum InputExcess {
    Refuse,
    TruncateStart,
    TruncateEnd,
}

} // verus!
