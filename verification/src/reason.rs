//! Retained runtime reasons, `rustev.runtime-reason/1`: a historical runtime
//! observation supplied to the core in place of an output. Only the four
//! runtime reasons are accepted; a reason is never a backend output and
//! never predicts a candidate's failure.
use vstd::prelude::*;

use crate::definition::ReasonKind;
use crate::judgment::{kind_of, reason_name, Unresolved};
use crate::text::join;
use crate::schema;

verus! {

/// A retained runtime reason.
#[derive(Debug, Clone, PartialEq, Eq)]
pub struct RuntimeReasonDoc {
    pub schema: String,
    pub reason: Unresolved,
}

/// A reason only a runtime reports: backend unavailable, invalid backend
/// output, budget exhausted, deadline exceeded.
pub open spec fn runtime_kind(k: ReasonKind) -> bool {
    k is BackendUnavailable || k is InvalidBackendOutput || k is BudgetExhausted
        || k is DeadlineExceeded
}

/// Whether only a runtime reports this kind of reason.
pub fn is_runtime_reason(kind: ReasonKind) -> (r: bool)
    ensures
        r == runtime_kind(kind),
{
    match kind {
        ReasonKind::BackendUnavailable
        | ReasonKind::InvalidBackendOutput
        | ReasonKind::BudgetExhausted
        | ReasonKind::DeadlineExceeded => true,
        _ => false,
    }
}

/// The reason is not one of the four runtime reasons.
#[derive(Debug, Clone, Copy, PartialEq, Eq)]
pub struct NotARuntimeReason(pub ReasonKind);

impl RuntimeReasonDoc {
    /// The document for a runtime reason; any other reason is refused.
    pub fn new(reason: Unresolved) -> (r: Result<RuntimeReasonDoc, NotARuntimeReason>)
        ensures
            r is Ok <==> runtime_kind(kind_of(reason)),
            r matches Ok(d) ==> d.reason == reason && d.schema@ == schema::RUNTIME_REASON@,
            r matches Err(e) ==> e.0 == kind_of(reason),
    {
        let doc = RuntimeReasonDoc { schema: schema::RUNTIME_REASON.to_owned(), reason };
        match doc.check() {
            Ok(()) => Ok(doc),
            Err(e) => Err(e),
        }
    }

    /// Refuse anything but the four runtime reasons.
    pub fn check(&self) -> (r: Result<(), NotARuntimeReason>)
        ensures
            r is Ok <==> runtime_kind(kind_of(self.reason)),
            r matches Err(e) ==> e.0 == kind_of(self.reason),
    {
        let k = self.reason.kind();
        if is_runtime_reason(k) {
            Ok(())
        } else {
            Err(NotARuntimeReason(k))
        }
    }
}


impl NotARuntimeReason {
    /// The refusal as text.
    pub fn message(&self) -> (r: String)
        ensures
            r@ == reason_name(self.0) + " is not a runtime reason"@,
    {
        join(self.0.name(), " is not a runtime reason")
    }
}

} // verus!
