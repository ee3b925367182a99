//! The vocabulary of run records, `rustev.run/1`: what the runtime observed
//! for one admitted decision, and the cost and cancellation vocabulary the
//! backend seam reports in. Everything here is a runtime observation,
//! recorded and never promised to repeat.
use vstd::prelude::*;

use crate::execution::FailureClass;
use crate::ids::{ArtifactId, ExecutionPolicyId};
use crate::judgment::Unresolved;

verus! {

/// The execution policy a run followed.
#[derive(Debug, Clone, PartialEq, Eq)]
pub enum RecordedExecution {
    NoPolicy,
    Declared(ExecutionPolicyId),
}

/// How a run ended.
#[derive(Debug, Clone, Copy, PartialEq, Eq)]
pub enum Termination {
    /// Every request resolved and the core finished a judgment.
    Judged,
    /// The caller cancelled; no judgment was finished.
    Cancelled,
}

/// Monotonic milliseconds from submission; never wall-clock time.
#[derive(Debug, Clone, Copy, PartialEq, Eq)]
pub struct Timing {
    pub queued_ms: u64,
    pub elapsed_ms: u64,
    pub deadline_ms: u64,
    pub deadline_expired: bool,
}

/// Everything the runtime did for one request of the core.
#[derive(Debug, Clone, PartialEq, Eq)]
pub struct RequestRecord {
    pub step: String,
    pub instance: Vec<String>,
    pub result: RequestResult,
    pub attempts: Vec<AttemptRecord>,
    pub transitions: Vec<Transition>,
}

/// What was supplied to the core for a request.
#[derive(Debug, Clone, PartialEq, Eq)]
pub enum RequestResult {
    /// An output was supplied, from this target (0 is the bound backend).
    Output { target: u32 },
    /// This runtime reason was supplied.
    Failed(Unresolved),
    /// Nothing was supplied: the decision was cancelled first.
    NotSupplied,
}

/// One dispatched attempt.
#[derive(Debug, Clone, PartialEq, Eq)]
pub struct AttemptRecord {
    /// `<decision id>/<step>/<instance joined by ','>/<n>`.
    pub attempt_id: String,
    pub target: u32,
    pub backend_id: String,
    pub artifact: ArtifactId,
    pub dispatched_ms: u64,
    pub ended_ms: u64,
    pub end: AttemptEnd,
    pub cancellation: Cancellation,
    pub remote: RemoteState,
    pub cost: AttemptCost,
}

/// How an attempt ended.
#[derive(Debug, Clone, PartialEq, Eq)]
pub enum AttemptEnd {
    /// A valid output.
    Output,
    Failed { class: FailureClass, detail: String },
    /// The decision deadline passed while it was in flight.
    Deadline,
    /// The caller cancelled while it was in flight.
    Cancelled,
}

/// What is known about cancelling an attempt.
#[derive(Debug, Clone, Copy, PartialEq, Eq)]
pub enum Cancellation {
    NotRequested,
    Requested { answer: CancelAnswer },
}

/// The backend's answer to a cancellation.
#[derive(Debug, Clone, Copy, PartialEq, Eq)]
pub enum CancelAnswer {
    /// The backend confirmed that its work and charges stopped.
    Stopped,
    /// The backend answered without confirming a remote stop.
    Unconfirmed,
    /// The runtime stopped waiting before any answer.
    NotObserved,
}

/// What is known of the remote work of an attempt.
#[derive(Debug, Clone, Copy, PartialEq, Eq)]
pub enum RemoteState {
    /// The backend returned a result of its own accord.
    Finished,
    /// The backend acknowledged a cancellation as stopped.
    Stopped,
    /// Nothing establishes that remote work or charges stopped.
    PossiblyContinuing,
}

/// The cost of one attempt.
#[derive(Debug, Clone, Copy, PartialEq, Eq)]
pub struct AttemptCost {
    pub bound: CostBound,
    pub reserved: u64,
    pub charge: Charge,
}

/// A backend's static cost disclosure.
#[derive(Debug, Clone, Copy, PartialEq, Eq)]
pub enum CostModel {
    /// Every call has an enforceable upper bound.
    Bounded,
    /// Calls have estimates, not bounds.
    Estimated,
    Unknown,
}

/// A backend's per-call cost disclosure, before dispatch.
#[derive(Debug, Clone, Copy, PartialEq, Eq)]
pub enum CostBound {
    /// The call cannot cost more than this.
    Bounded { max_units: u64 },
    Estimated { units: u64 },
    Unknown,
}

/// What an attempt cost, as far as is known when it ends.
#[derive(Debug, Clone, Copy, PartialEq, Eq)]
pub enum Charge {
    Observed { units: u64 },
    Estimated { units: u64 },
    Unknown,
}

/// A step between attempts.
#[derive(Debug, Clone, PartialEq, Eq)]
pub enum Transition {
    /// Retry the same target after attempt `after`.
    Retry { after: u32, class: FailureClass, delay_ms: u64 },
    /// Move to fallback target `to` after attempt `after`.
    Fallback { after: u32, class: FailureClass, to: u32 },
    /// Stop after attempt `after` (0 when nothing was dispatched).
    Stop { after: u32, reason: String },
}

/// The cost mode of a decision.
#[derive(Debug, Clone, Copy, PartialEq, Eq)]
pub enum CostMode {
    Unlimited,
    Hard,
    Estimated,
}

/// A decision's cost at the moment its record was built.
#[derive(Debug, Clone, Copy, PartialEq, Eq)]
pub struct CostSummary {
    pub mode: CostMode,
    /// 0 under `unlimited`.
    pub limit: u64,
    pub observed: u64,
    pub estimated: u64,
    /// Reservations kept because the final cost is unknown.
    pub liability: u64,
    /// Observed charges above a `bounded` reservation.
    pub bound_violations: u64,
    pub final_cost: FinalCost,
    /// True only under `hard` with no liability and no bound violation.
    pub within_guaranteed_cap: bool,
}

/// How much of a decision's cost is known.
#[derive(Debug, Clone, Copy, PartialEq, Eq)]
pub enum FinalCost {
    Known,
    IncludesEstimates,
    Unknown,
}

/// Where a supplied value came from: the target, and the attempt that
/// produced it when one did.
#[derive(Debug, Clone, PartialEq, Eq)]
pub struct SuppliedFrom<'a> {
    pub target: u32,
    pub attempt: Option<&'a AttemptRecord>,
}

/// A transition that moves on after attempt `n`: a retry or a fallback.
pub open spec fn moves_on_after(t: Transition, n: int) -> bool {
    match t {
        Transition::Retry { after, .. } => after == n,
        Transition::Fallback { after, .. } => after == n,
        Transition::Stop { .. } => false,
    }
}

/// The target a failure is reported from: the `to` of the last fallback
/// among `ts`, else 0.
pub open spec fn failure_target(ts: Seq<Transition>) -> u32
    decreases ts.len(),
{
    if ts.len() == 0 {
        0
    } else {
        match ts.last() {
            Transition::Fallback { to, .. } => to,
            _ => failure_target(ts.drop_last()),
        }
    }
}

/// Whether a failure names its last attempt: there is one, and no retry or
/// fallback follows it.
pub open spec fn failure_has_attempt(r: RequestRecord) -> bool {
    &&& r.attempts@.len() > 0
    &&& forall|k: int|
        0 <= k < r.transitions@.len() ==> !moves_on_after(
            #[trigger] r.transitions@[k],
            r.attempts@.len() as int,
        )
}

impl RequestRecord {
    /// Where the supplied value came from. An output comes from its target
    /// and the last attempt; a failure from the target of the last fallback,
    /// else 0, and from the last attempt unless nothing was dispatched or a
    /// retry or fallback followed it. Nothing supplied has no origin.
    pub fn supplied_from(&self) -> (r: Option<SuppliedFrom<'_>>)
        ensures
            match self.result {
                RequestResult::NotSupplied => r is None,
                RequestResult::Output { target } => r matches Some(f) && f.target == target && (
                if self.attempts@.len() == 0 {
                    f.attempt is None
                } else {
                    f.attempt == Some(&self.attempts@.last())
                }),
                RequestResult::Failed(_) => r matches Some(f) && f.target == failure_target(
                    self.transitions@,
                ) && (if failure_has_attempt(*self) {
                    f.attempt == Some(&self.attempts@.last())
                } else {
                    f.attempt is None
                }),
            },
    {
        let n = self.attempts.len();
        match &self.result {
            RequestResult::NotSupplied => None,
            RequestResult::Output { target } => {
                let attempt = if n == 0 {
                    None
                } else {
                    Some(&self.attempts[n - 1])
                };
                Some(SuppliedFrom { target: *target, attempt })
            },
            RequestResult::Failed(_) => {
                let mut target: u32 = 0;
                let mut moved_on = false;
                let mut k: usize = 0;
                while k < self.transitions.len()
                    invariant
                        k <= self.transitions@.len(),
                        n == self.attempts@.len(),
                        target == failure_target(self.transitions@.take(k as int)),
                        moved_on <==> exists|j: int|
                            0 <= j < k && moves_on_after(
                                #[trigger] self.transitions@[j],
                                n as int,
                            ),
                    decreases self.transitions@.len() - k,
                {
                    proof {
                        assert(self.transitions@.take(k + 1).drop_last() =~= self.transitions@.take(
                            k as int,
                        ));
                    }
                    match &self.transitions[k] {
                        Transition::Retry { after, .. } => {
                            if *after as usize == n {
                                moved_on = true;
                            }
                        },
                        Transition::Fallback { after, to, .. } => {
                            target = *to;
                            if *after as usize == n {
                                moved_on = true;
                            }
                        },
                        Transition::Stop { .. } => {},
                    }
                    k = k + 1;
                }
                proof {
                    assert(self.transitions@.take(k as int) =~= self.transitions@);
                }
                let attempt = if n == 0 || moved_on {
                    None
                } else {
                    Some(&self.attempts[n - 1])
                };
                Some(SuppliedFrom { target, attempt })
            },
        }
    }
}

} // verus!
