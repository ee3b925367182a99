//! How the evaluator's answers end a command: `gate`, `calibrate qualify`
//! and `replay` each print one status with the exit code it maps to. The
//! evaluation itself is the evaluator's; what it answered is handed in as
//! plain values.
use vstd::prelude::*;

use vstd::string::StringExecFns;
use vstd::utf8::valid_utf8;

use crate::canonical::{tagged_digest, tagged_text, CanonicalError, Json};
use crate::cli::code;
use crate::cli::out::{is_text, Done, Out, OutValue};
use crate::order::{str_eq, texts};
use crate::text::{debug_quoted, debug_text, join};
use vstd::utf8::encode_utf8;

verus! {

/// How a gate came out.
#[derive(Debug, Clone, PartialEq, Eq)]
pub enum GateVerdict {
    Pass,
    Fail { reason: String },
    Unknown { reason: String },
}

/// The position of the first `name` among `declared`, from the `i`th on.
pub open spec fn first_named(declared: Seq<Seq<char>>, name: Seq<char>, i: int) -> Option<int>
    decreases declared.len() - i,
{
    if i < 0 || i >= declared.len() {
        None
    } else if declared[i] == name {
        Some(i)
    } else {
        first_named(declared, name, i + 1)
    }
}

/// What is decided before any metric is compared: unknown when the two
/// sides were evaluated with different task adapters, or when the
/// candidate's configuration declares no gate named `name`; otherwise the
/// first gate of that name is compared.
pub open spec fn gate_precheck_model(baseline: Seq<u8>, candidate: Seq<u8>, declared: Seq<Seq<char>>, name: Seq<char>) -> Result<
    int,
    Seq<char>,
> {
    if baseline != candidate {
        Err("the two sides were evaluated with different task adapters"@)
    } else {
        match first_named(declared, name, 0) {
            Some(i) => Ok(i),
            None => Err("the configuration declares no gate "@ + debug_text(name)),
        }
    }
}

/// Whether two byte strings are equal.
fn same_bytes(a: &[u8], b: &[u8]) -> (r: bool)
    ensures
        r == (a@ == b@),
{
    if a.len() != b.len() {
        return false;
    }
    let mut i: usize = 0;
    while i < a.len()
        invariant
            a@.len() == b@.len(),
            i <= a@.len(),
            forall|k: int| 0 <= k < i ==> a@[k] == b@[k],
        decreases a@.len() - i,
    {
        if a[i] != b[i] {
            return false;
        }
        i = i + 1;
    }
    proof {
        assert(a@ =~= b@);
    }
    true
}

/// What a gate decides before comparing: the position of the first gate
/// named `name` among the candidate's declared gates, or an unknown
/// verdict with its reason. `baseline_adapter` and `candidate_adapter` are
/// the task adapter documents each side was evaluated with.
pub fn gate_precheck(baseline_adapter: &[u8], candidate_adapter: &[u8], declared: &Vec<String>, name: &str) -> (r:
    Result<usize, GateVerdict>)
    ensures
        match gate_precheck_model(baseline_adapter@, candidate_adapter@, texts(declared@), name@) {
            Ok(i) => r == Ok::<usize, GateVerdict>(i as usize) && i < declared@.len(),
            Err(m) => r matches Err(GateVerdict::Unknown { reason }) && reason@ == m,
        },
{
    if !same_bytes(baseline_adapter, candidate_adapter) {
        return Err(
            GateVerdict::Unknown {
                reason: String::from_str("the two sides were evaluated with different task adapters"),
            },
        );
    }
    let ghost t = texts(declared@);
    let mut i: usize = 0;
    while i < declared.len()
        invariant
            baseline_adapter@ == candidate_adapter@,
            t == texts(declared@),
            i <= declared@.len(),
            first_named(t, name@, 0) == first_named(t, name@, i as int),
        decreases declared@.len() - i,
    {
        if str_eq(declared[i].as_str(), name) {
            proof {
                assert(t[i as int] == name@);
            }
            return Ok(i);
        }
        i = i + 1;
    }
    Err(GateVerdict::Unknown { reason: join("the configuration declares no gate ", debug_quoted(name).as_str()) })
}

/// How the `gate` command ends, naming the compared gate: status `pass`
/// with exit code 0, or status `fail` or `unknown`, each with its reason
/// and its own exit code.
pub fn gate_done(command: &str, name: &str, v: GateVerdict) -> (r: Done)
    ensures
        is_text(r.out.lookup("command"@), command@),
        is_text(r.out.lookup("gate"@), name@),
        match v {
            GateVerdict::Pass => r.code == code::OK && is_text(r.out.lookup("status"@), "pass"@)
                && r.out.lookup("reason"@) is None,
            GateVerdict::Fail { reason } => r.code == code::FAIL && is_text(r.out.lookup("status"@), "fail"@)
                && is_text(r.out.lookup("reason"@), reason@),
            GateVerdict::Unknown { reason } => r.code == code::UNKNOWN && is_text(
                r.out.lookup("status"@),
                "unknown"@,
            ) && is_text(r.out.lookup("reason"@), reason@),
        },
{
    proof {
        reveal_strlit("command");
        reveal_strlit("status");
        reveal_strlit("gate");
        reveal_strlit("reason");
        assert("command"@[0] != "gate"@[0]);
        assert("status"@[0] != "gate"@[0]);
        assert("command"@[0] != "reason"@[0]);
        assert("status"@[0] != "reason"@[0]);
        assert("gate"@[0] != "reason"@[0]);
    }
    let out = Out::new(command, "").set_text("gate", name);
    match v {
        GateVerdict::Pass => Done::ok(out.set_text("status", "pass")),
        GateVerdict::Fail { reason } => Done::new(
            code::FAIL,
            out.set_text("status", "fail").set_text("reason", reason.as_str()),
        ),
        GateVerdict::Unknown { reason } => Done::new(
            code::UNKNOWN,
            out.set_text("status", "unknown").set_text("reason", reason.as_str()),
        ),
    }
}

/// Whether a calibration artifact qualifies for use on a split.
#[derive(Debug, Clone, PartialEq, Eq)]
pub enum Qualification {
    Qualified,
    Refused { reason: String },
    Unknown { reason: String },
}

/// How `calibrate qualify` ends: `qualified` (exit 0),
/// `refused_qualification` (exit 11) or `unknown` (exit 12), under the
/// calibration's identity.
pub fn qualify_done(command: &str, calibration: &str, q: Qualification) -> (r: Done)
    ensures
        is_text(r.out.lookup("command"@), command@),
        is_text(r.out.lookup("calibration"@), calibration@),
        match q {
            Qualification::Qualified => r.code == code::OK && is_text(r.out.lookup("status"@), "qualified"@)
                && r.out.lookup("reason"@) is None,
            Qualification::Refused { reason } => r.code == code::FAIL && is_text(
                r.out.lookup("status"@),
                "refused_qualification"@,
            ) && is_text(r.out.lookup("reason"@), reason@),
            Qualification::Unknown { reason } => r.code == code::UNKNOWN && is_text(
                r.out.lookup("status"@),
                "unknown"@,
            ) && is_text(r.out.lookup("reason"@), reason@),
        },
{
    proof {
        reveal_strlit("command");
        reveal_strlit("status");
        reveal_strlit("calibration");
        reveal_strlit("reason");
        assert("command"@[2] != "calibration"@[2]);
        assert("status"@[0] != "calibration"@[0]);
        assert("command"@[0] != "reason"@[0]);
        assert("status"@[0] != "reason"@[0]);
        assert("calibration"@[0] != "reason"@[0]);
    }
    let out = Out::new(command, "").set_text("calibration", calibration);
    match q {
        Qualification::Qualified => Done::ok(out.set_text("status", "qualified")),
        Qualification::Refused { reason } => Done::new(
            code::FAIL,
            out.set_text("status", "refused_qualification").set_text("reason", reason.as_str()),
        ),
        Qualification::Unknown { reason } => Done::new(
            code::UNKNOWN,
            out.set_text("status", "unknown").set_text("reason", reason.as_str()),
        ),
    }
}

/// A document's identity for output: the tagged digest of its canonical
/// bytes under its schema string, or empty text where it has no canonical
/// form.
pub fn id_of(schema: &str, canonical: &Result<Vec<u8>, CanonicalError>) -> (r: String)
    ensures
        match canonical {
            Ok(b) => encode_utf8(r@) == tagged_text(schema@, b@),
            Err(_) => r@ == Seq::<char>::empty(),
        },
{
    match canonical {
        Ok(b) => tagged_digest(schema, b.as_slice()),
        Err(_) => String::new(),
    }
}

/// How a replay came out: the judgment reproduced, a different judgment,
/// or no comparison possible. Judgments are their record canonical bytes.
#[derive(Debug, Clone, PartialEq, Eq)]
pub enum ReplayVerdict {
    Reproduced { supplies: usize, judgment: Vec<u8> },
    Diverged { expected: Vec<u8>, actual: Vec<u8> },
    Incomparable { reason: String, detail: String },
}

/// How `replay` ends, under the bundle's decision id: `reproduced` (exit 0)
/// with the plan, the number of supplies and the judgment; `diverged`
/// (exit 9) with the plan and both judgments; `incomparable` (exit 10)
/// with the reason's code and detail.
pub fn replay_done(command: &str, decision_id: &str, plan_id: &str, v: ReplayVerdict) -> (r: Done)
    requires
        v matches ReplayVerdict::Reproduced { judgment, .. } ==> valid_utf8(judgment@),
        v matches ReplayVerdict::Diverged { expected, actual } ==> valid_utf8(expected@) && valid_utf8(actual@),
    ensures
        is_text(r.out.lookup("command"@), command@),
        is_text(r.out.lookup("decision_id"@), decision_id@),
        match v {
            ReplayVerdict::Reproduced { supplies, judgment } => {
                &&& r.code == code::OK
                &&& is_text(r.out.lookup("status"@), "reproduced"@)
                &&& is_text(r.out.lookup("plan_id"@), plan_id@)
                &&& r.out.lookup("supplies"@) == Some(OutValue::Value(Json::UInt(supplies as u64)))
                &&& r.out.lookup("judgment"@) == Some(OutValue::Raw(judgment))
            },
            ReplayVerdict::Diverged { expected, actual } => {
                &&& r.code == code::DIVERGED
                &&& is_text(r.out.lookup("status"@), "diverged"@)
                &&& is_text(r.out.lookup("plan_id"@), plan_id@)
                &&& r.out.lookup("expected"@) == Some(OutValue::Raw(expected))
                &&& r.out.lookup("actual"@) == Some(OutValue::Raw(actual))
            },
            ReplayVerdict::Incomparable { reason, detail } => {
                &&& r.code == code::INCOMPARABLE
                &&& is_text(r.out.lookup("status"@), "incomparable"@)
                &&& is_text(r.out.lookup("reason"@), reason@)
                &&& is_text(r.out.lookup("detail"@), detail@)
            },
        },
{
    proof {
        reveal_strlit("command");
        reveal_strlit("status");
        reveal_strlit("decision_id");
        reveal_strlit("plan_id");
        reveal_strlit("supplies");
        reveal_strlit("judgment");
        reveal_strlit("expected");
        reveal_strlit("actual");
        reveal_strlit("reason");
        reveal_strlit("detail");
        assert("command"@[0] != "status"@[0]);
        assert("command"@[0] != "decision_id"@[0]);
        assert("command"@[0] != "plan_id"@[0]);
        assert("command"@[0] != "supplies"@[0]);
        assert("command"@[0] != "judgment"@[0]);
        assert("command"@[0] != "expected"@[0]);
        assert("command"@[0] != "actual"@[0]);
        assert("command"@[0] != "reason"@[0]);
        assert("command"@[0] != "detail"@[0]);
        assert("status"@[0] != "decision_id"@[0]);
        assert("status"@[0] != "plan_id"@[0]);
        assert("status"@[1] != "supplies"@[1]);
        assert("status"@[0] != "judgment"@[0]);
        assert("status"@[0] != "expected"@[0]);
        assert("status"@[0] != "actual"@[0]);
        assert("status"@[0] != "reason"@[0]);
        assert("status"@[0] != "detail"@[0]);
        assert("decision_id"@[0] != "plan_id"@[0]);
        assert("decision_id"@[0] != "supplies"@[0]);
        assert("decision_id"@[0] != "judgment"@[0]);
        assert("decision_id"@[0] != "expected"@[0]);
        assert("decision_id"@[0] != "actual"@[0]);
        assert("decision_id"@[0] != "reason"@[0]);
        assert("decision_id"@[2] != "detail"@[2]);
        assert("plan_id"@[0] != "supplies"@[0]);
        assert("plan_id"@[0] != "judgment"@[0]);
        assert("plan_id"@[0] != "expected"@[0]);
        assert("plan_id"@[0] != "actual"@[0]);
        assert("plan_id"@[0] != "reason"@[0]);
        assert("plan_id"@[0] != "detail"@[0]);
        assert("supplies"@[0] != "judgment"@[0]);
        assert("supplies"@[0] != "expected"@[0]);
        assert("supplies"@[0] != "actual"@[0]);
        assert("supplies"@[0] != "reason"@[0]);
        assert("supplies"@[0] != "detail"@[0]);
        assert("judgment"@[0] != "expected"@[0]);
        assert("judgment"@[0] != "actual"@[0]);
        assert("judgment"@[0] != "reason"@[0]);
        assert("judgment"@[0] != "detail"@[0]);
        assert("expected"@[0] != "actual"@[0]);
        assert("expected"@[0] != "reason"@[0]);
        assert("expected"@[0] != "detail"@[0]);
        assert("actual"@[0] != "reason"@[0]);
        assert("actual"@[0] != "detail"@[0]);
        assert("reason"@[0] != "detail"@[0]);
    }
    let out = Out::new(command, "").set_text("decision_id", decision_id);
    match v {
        ReplayVerdict::Reproduced { supplies, judgment } => Done::ok(
            out.set_text("status", "reproduced").set_text("plan_id", plan_id).set(
                "supplies",
                Json::UInt(supplies as u64),
            ).raw("judgment", judgment),
        ),
        ReplayVerdict::Diverged { expected, actual } => Done::new(
            code::DIVERGED,
            out.set_text("status", "diverged").set_text("plan_id", plan_id).raw("expected", expected).raw(
                "actual",
                actual,
            ),
        ),
        ReplayVerdict::Incomparable { reason, detail } => Done::new(
            code::INCOMPARABLE,
            out.set_text("status", "incomparable").set_text("reason", reason.as_str()).set_text(
                "detail",
                detail.as_str(),
            ),
        ),
    }
}

} // verus!
