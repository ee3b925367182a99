//! Request identity documents, `rustev.request/1`: what determines a
//! backend computation. Decision id, step id, plan id, timing, retries and
//! core-applied calibration are deliberately absent.
use vstd::prelude::*;

use crate::definition::RequiredKind;
use crate::descriptor::OutputKind;
use crate::ids::{ArtifactId, DescriptorId};
use crate::plan::Normalization;
use crate::scope::Scope;

verus! {

/// The full identity of one backend request.
#[derive(Debug, Clone, PartialEq, Eq)]
pub struct RequestDoc {
    pub schema: String,
    pub scope: Scope,
    /// The actual target's backend: the primary or an explicit fallback.
    pub backend_id: String,
    pub artifact: ArtifactId,
    /// Commits to `input_limit.max_bytes` and `input_limit.on_excess`.
    pub descriptor: DescriptorId,
    /// The exact canonical projection bytes, which are UTF-8 JSON.
    pub projection: String,
    pub output: OutputKind,
    pub requires: RequiredKind,
    pub normalization: Normalization,
}

} // verus!
