//! The steps of compiled plans, `rustev.plan/1`. A plan embeds every
//! binding that affects behavior, so its identity changes whenever behavior
//! can.
use vstd::prelude::*;

use crate::calibration::CalibrationBinding;
use crate::definition::{Definition, RequiredKind};
use crate::descriptor::OutputKind;
use crate::ids::{ArtifactId, CalibrationId, DefinitionId, DescriptorId, ExecutionPolicyId};
use crate::judgment::{Derivation, Notice};

verus! {

/// A compiled plan: its canonical definition and every binding that affects
/// behavior, so that its identity changes whenever behavior can.
#[derive(Debug, PartialEq, Eq)]
pub struct Plan {
    pub schema: String,
    /// `rustev-core/<crate version>`.
    pub compiler: String,
    /// `rustev.exact/1`.
    pub registry: String,
    pub definition_id: DefinitionId,
    pub definition: Definition,
    /// Step ids in topological order, ties by declaration order.
    pub order: Vec<String>,
    /// One entry per step, in declaration order.
    pub steps: Vec<PlanStep>,
    pub notices: Vec<Notice>,
    /// The execution policy the plan was compiled with, if any.
    pub execution: PlanExecution,
}

/// Whether a plan was compiled with an execution policy.
#[derive(Debug, Clone, PartialEq, Eq)]
pub enum PlanExecution {
    NoPolicy,
    Declared(DeclaredExecution),
}

/// The execution policy embedded in a plan and the runtime fallback targets
/// it resolves to.
#[derive(Debug, Clone, PartialEq, Eq)]
pub struct DeclaredExecution {
    pub id: ExecutionPolicyId,
    pub fallbacks: Vec<FallbackTarget>,
}

/// A backend a semantic step falls back to at run time, with the
/// descriptor and artifact the plan binds it to.
#[derive(Debug, Clone, PartialEq, Eq)]
pub struct FallbackTarget {
    pub step: String,
    pub backend_id: String,
    pub artifact: ArtifactId,
    pub descriptor: DescriptorId,
    pub output: OutputKind,
}

/// One compiled step.
#[derive(Debug, Clone, PartialEq, Eq)]
pub struct PlanStep {
    pub id: String,
    /// Static worst case from declared provenance.
    pub derivation: Derivation,
    pub detail: PlanStepDetail,
}

/// How a step is computed.
#[derive(Debug, Clone, PartialEq, Eq)]
pub enum PlanStepDetail {
    Exact { op: String, version: u32 },
    Semantic(Box<SemanticBinding>),
    /// Fallback `unsupported` was taken: always `unsupported{capability}`.
    Unsupported { capability: String },
}

/// The backend a semantic step is bound to, and how its output is read.
#[derive(Debug, Clone, PartialEq, Eq)]
pub struct SemanticBinding {
    pub backend_id: String,
    pub artifact: ArtifactId,
    pub descriptor: DescriptorId,
    pub output: OutputKind,
    /// The kind the step produces after normalization and calibration.
    pub requires: RequiredKind,
    pub normalization: Normalization,
    pub calibration: BoundCalibration,
    pub fallback_taken: bool,
    /// Worst-case requests this step can issue.
    pub max_requests: u64,
    /// Worst-case canonical projection bytes of one request.
    pub max_projection_bytes: u64,
}

/// How raw backend values become a distribution.
#[derive(Debug, Clone, Copy, PartialEq, Eq)]
pub enum Normalization {
    NoNormalization,
    /// Softmax with max subtraction in declared option order.
    Softmax1,
}

/// The calibration bound to a step.
#[derive(Debug, Clone, PartialEq, Eq)]
pub enum BoundCalibration {
    NoCalibration,
    Bound { id: CalibrationId, binding: CalibrationBinding },
}

} // verus!
