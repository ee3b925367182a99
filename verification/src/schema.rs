//! Schema strings of every document at contract version 1.
use vstd::prelude::*;

verus! {

pub const DEFINITION: &'static str = "rustev.definition/1";
pub const PLAN: &'static str = "rustev.plan/1";
pub const BACKEND: &'static str = "rustev.backend/1";
pub const CALIBRATION: &'static str = "rustev.calibration/1";
pub const SNAPSHOT: &'static str = "rustev.snapshot/1";
pub const BACKEND_OUTPUT: &'static str = "rustev.backend-output/1";
pub const JUDGMENT: &'static str = "rustev.judgment/1";
pub const EVIDENCE: &'static str = "rustev.evidence/1";
pub const EVAL_REPORT: &'static str = "rustev.eval-report/1";
/// The exact-operator registry version a plan was compiled against.
pub const EXACT_REGISTRY: &'static str = "rustev.exact/1";
pub const EXECUTION: &'static str = "rustev.execution/1";
pub const RUN: &'static str = "rustev.run/1";
pub const REQUEST: &'static str = "rustev.request/1";
pub const RUNTIME_REASON: &'static str = "rustev.runtime-reason/1";
pub const REPLAY: &'static str = "rustev.replay/1";
pub const REMOTE_DESCRIBE: &'static str = "rustev.remote-describe/1";
pub const REMOTE_INFER: &'static str = "rustev.remote-infer/1";
pub const REMOTE_CANCEL: &'static str = "rustev.remote-cancel/1";
pub const REMOTE_EXCHANGE: &'static str = "rustev.remote-exchange/1";

} // verus!
