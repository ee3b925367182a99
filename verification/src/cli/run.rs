//! What `run` decides around the runtime: that each rules program answers
//! for its own backend id, that every program matches the plan before any
//! request, how a plan mismatch and a capture are reported, and how a
//! failed bundle changes the command's status.
use vstd::prelude::*;

use vstd::string::StringExecFns;
use vstd::utf8::valid_utf8;

use crate::canonical::{member_keys, Json};
use crate::cli::code;
use crate::cli::out::{is_text, Done, Out, OutValue};
use crate::replay::CaptureStatus;
use crate::rules::backend::{PlanMismatch, PlanMismatchKind, RulesBackend};
use crate::order::str_eq;
use crate::plan::Plan;
use crate::rules::check::{descriptor_identity, identity_of, kind_model, mismatch_model, mismatches_view, plan_mismatches, KindModel};
use crate::text::{debug_quoted, debug_text, join};

verus! {

/// Whether `j` is the JSON string `t`.
pub open spec fn is_str(j: Json, t: Seq<char>) -> bool {
    j matches Json::Str(s) && s@ == t
}

/// Whether `j` is an object with exactly these keys, in this order.
pub open spec fn has_members(j: Json, keys: Seq<Seq<char>>) -> bool {
    j matches Json::Object(es) && member_keys(es@) == keys
}

/// The value of the `i`th member of an object.
pub open spec fn member_value(j: Json, i: int) -> Json {
    match j {
        Json::Object(es) => es@[i].1,
        _ => Json::Null,
    }
}

/// The name of a mismatch kind in output.
pub open spec fn kind_name(k: KindModel) -> Seq<char> {
    match k {
        KindModel::Descriptor => "descriptor"@,
        KindModel::NoTask(_) => "no_task"@,
        KindModel::TaskDiffers(_) => "task_differs"@,
        KindModel::NotProjected(..) => "not_projected"@,
        KindModel::Incompatible(..) => "incompatible"@,
    }
}

/// The detail of a mismatch kind in output: `null`, `{"task"}`,
/// `{"what"}`, or `{"field", "reference"}`.
pub open spec fn kind_detail(j: Json, k: KindModel) -> bool {
    match k {
        KindModel::Descriptor => j is Null,
        KindModel::NoTask(t) => has_members(j, seq!["task"@]) && is_str(member_value(j, 0), t),
        KindModel::TaskDiffers(w) => has_members(j, seq!["what"@]) && is_str(member_value(j, 0), w),
        KindModel::NotProjected(field, reference) => has_members(j, seq!["field"@, "reference"@])
            && is_str(member_value(j, 0), field) && is_str(member_value(j, 1), reference),
        KindModel::Incompatible(field, reference) => has_members(j, seq!["field"@, "reference"@])
            && is_str(member_value(j, 0), field) && is_str(member_value(j, 1), reference),
    }
}

/// `j` is the output of a mismatch of backend `m.0` at step `m.1`:
/// `{"backend_id", "step", "kind", "detail"}`.
pub open spec fn mismatch_output(j: Json, m: (Seq<char>, Seq<char>, KindModel)) -> bool {
    &&& has_members(j, seq!["backend_id"@, "step"@, "kind"@, "detail"@])
    &&& is_str(member_value(j, 0), m.0)
    &&& is_str(member_value(j, 1), m.1)
    &&& is_str(member_value(j, 2), kind_name(m.2))
    &&& kind_detail(member_value(j, 3), m.2)
}

/// A JSON string value.
fn text(s: &str) -> (r: Json)
    ensures
        is_str(r, s@),
{
    Json::Str(String::from_str(s))
}

/// An object of one member.
fn object1(k: &str, v: Json) -> (r: Json)
    ensures
        has_members(r, seq![k@]),
        member_value(r, 0) == v,
{
    let es = vec![(String::from_str(k), v)];
    proof {
        assert(member_keys(es@) =~= seq![k@]);
    }
    Json::Object(es)
}

/// An object of two members.
fn object2(k0: &str, v0: Json, k1: &str, v1: Json) -> (r: Json)
    ensures
        has_members(r, seq![k0@, k1@]),
        member_value(r, 0) == v0,
        member_value(r, 1) == v1,
{
    let es = vec![(String::from_str(k0), v0), (String::from_str(k1), v1)];
    proof {
        assert(member_keys(es@) =~= seq![k0@, k1@]);
    }
    Json::Object(es)
}

/// One mismatch of a backend's program with the plan, as output:
/// `{"backend_id", "step", "kind", "detail"}`.
pub fn mismatch_json(backend_id: &str, m: &PlanMismatch) -> (r: Json)
    ensures
        mismatch_output(r, (backend_id@, m.step@, kind_model(m.kind))),
{
    let (kind, extra) = match &m.kind {
        PlanMismatchKind::Descriptor => (text("descriptor"), Json::Null),
        PlanMismatchKind::NoTask(t) => (text("no_task"), object1("task", text(t.as_str()))),
        PlanMismatchKind::TaskDiffers(what) => (text("task_differs"), object1("what", text(what))),
        PlanMismatchKind::NotProjected { field, reference } => (
            text("not_projected"),
            object2("field", text(field.as_str()), "reference", text(reference.as_str())),
        ),
        PlanMismatchKind::Incompatible { field, reference } => (
            text("incompatible"),
            object2("field", text(field.as_str()), "reference", text(reference.as_str())),
        ),
    };
    let es = vec![
        (String::from_str("backend_id"), text(backend_id)),
        (String::from_str("step"), text(m.step.as_str())),
        (String::from_str("kind"), kind),
        (String::from_str("detail"), extra),
    ];
    proof {
        assert(member_keys(es@) =~= seq!["backend_id"@, "step"@, "kind"@, "detail"@]);
    }
    Json::Object(es)
}

/// The name of a capture status in output.
pub open spec fn capture_status_name(s: CaptureStatus) -> Seq<char> {
    match s {
        CaptureStatus::Complete => "complete"@,
        CaptureStatus::Disabled => "disabled"@,
        CaptureStatus::LimitExceeded => "limit_exceeded"@,
        CaptureStatus::Cancelled => "cancelled"@,
        CaptureStatus::Abandoned => "abandoned"@,
    }
}

/// The name of a capture status in output.
pub fn capture_status(s: CaptureStatus) -> (r: &'static str)
    ensures
        r@ == capture_status_name(s),
{
    match s {
        CaptureStatus::Complete => "complete",
        CaptureStatus::Disabled => "disabled",
        CaptureStatus::LimitExceeded => "limit_exceeded",
        CaptureStatus::Cancelled => "cancelled",
        CaptureStatus::Abandoned => "abandoned",
    }
}

/// The backend id of each program.
pub open spec fn backend_ids(backends: Seq<RulesBackend>) -> Seq<Seq<char>> {
    backends.map_values(|b: RulesBackend| b.descriptor_view().backend_id@)
}

/// The first position from the `i`th on whose id an earlier position
/// already has.
pub open spec fn first_repeat(ids: Seq<Seq<char>>, i: int) -> Option<int>
    decreases ids.len() - i,
{
    if i < 0 || i >= ids.len() {
        None
    } else if exists|j: int| 0 <= j < i && ids[j] == ids[i] {
        Some(i)
    } else {
        first_repeat(ids, i + 1)
    }
}

/// Each rules program answers for its own backend id: the first program,
/// read from `paths[i]`, whose backend id an earlier program already has is
/// refused as invalid input. Programs past the last path are not checked.
pub fn check_backend_ids(command: &str, backends: &Vec<RulesBackend>, paths: &Vec<String>) -> (r: Result<(), Done>)
    ensures
        ({
            let n = if backends@.len() <= paths@.len() {
                backends@.len()
            } else {
                paths@.len()
            };
            let ids = backend_ids(backends@).take(n as int);
            match first_repeat(ids, 0) {
                None => r is Ok,
                Some(i) => r matches Err(d) && d.code == code::INVALID_INPUT && is_text(
                    d.out.lookup("input"@),
                    paths@[i]@,
                ) && is_text(
                    d.out.lookup("detail"@),
                    "a second program for backend id "@ + debug_text(ids[i]),
                ) && is_text(d.out.lookup("status"@), "invalid_input"@) && is_text(
                    d.out.lookup("command"@),
                    command@,
                ),
            }
        }),
{
    let n = if backends.len() <= paths.len() {
        backends.len()
    } else {
        paths.len()
    };
    let ghost ids = backend_ids(backends@).take(n as int);
    let mut i: usize = 0;
    while i < n
        invariant
            n <= backends@.len(),
            n <= paths@.len(),
            n == backends@.len() || n == paths@.len(),
            ids == backend_ids(backends@).take(n as int),
            i <= n,
            first_repeat(ids, 0) == first_repeat(ids, i as int),
        decreases n - i,
    {
        let id = backends[i].descriptor().backend_id.as_str();
        proof {
            assert(ids[i as int] == id@);
        }
        let mut j: usize = 0;
        while j < i
            invariant
                i < n,
                n <= backends@.len(),
                n <= paths@.len(),
                n == backends@.len() || n == paths@.len(),
                first_repeat(ids, 0) == first_repeat(ids, i as int),
                ids == backend_ids(backends@).take(n as int),
                ids[i as int] == id@,
                j <= i,
                forall|k: int| 0 <= k < j ==> ids[k] != ids[i as int],
            decreases i - j,
        {
            if str_eq(backends[j].descriptor().backend_id.as_str(), id) {
                proof {
                    assert(ids[j as int] == ids[i as int]);
                    assert(first_repeat(ids, i as int) == Some(i as int));
                }
                let detail = join("a second program for backend id ", debug_quoted(id).as_str());
                let d = Done::invalid(command, paths[i].as_str(), detail.as_str());
                proof {
                    assert(n as nat == if backends@.len() <= paths@.len() {
                        backends@.len()
                    } else {
                        paths@.len()
                    });
                    assert(first_repeat(ids, 0) == Some(i as int));
                    assert(detail@ == "a second program for backend id "@ + debug_text(ids[i as int]));
                    assert(is_text(d.out.lookup("input"@), paths@[i as int]@));
                }
                return Err(d);
            }
            j = j + 1;
        }
        i = i + 1;
    }
    Ok(())
}

/// Each program's mismatches with `plan`, backend id first, for the first
/// `n` programs in order.
pub open spec fn program_mismatches(
    backends: Seq<RulesBackend>,
    descriptors: Seq<Option<Vec<u8>>>,
    plan: Plan,
    n: int,
) -> Seq<(Seq<char>, Seq<char>, KindModel)>
    decreases n,
{
    if n <= 0 {
        seq![]
    } else {
        let b = backends[n - 1];
        let id = b.descriptor_view().backend_id@;
        let canonical = match descriptors[n - 1] {
            Some(v) => Some(v@),
            None => None,
        };
        program_mismatches(backends, descriptors, plan, n - 1) + plan_mismatches(
            b.tasks_view(),
            id,
            identity_of(canonical),
            plan,
        ).map_values(|m: (Seq<char>, KindModel)| (id, m.0, m.1))
    }
}

/// Every rules program must match the plan before any request: each one's
/// mismatches, in program order, refuse the command with status `refused`
/// (exit 5), as a `check_plan` list of outputs. `descriptors[i]` holds the
/// canonical bytes of program `i`'s descriptor, or `None` where they could
/// not be written.
pub fn check_programs(
    command: &str,
    backends: &Vec<RulesBackend>,
    descriptors: &Vec<Option<Vec<u8>>>,
    plan: &Plan,
) -> (r: Result<(), Done>)
    requires
        descriptors@.len() == backends@.len(),
    ensures
        ({
            let all = program_mismatches(backends@, descriptors@, *plan, backends@.len() as int);
            &&& r is Ok <==> all.len() == 0
            &&& r matches Err(d) ==> {
                &&& d.code == code::REFUSED
                &&& is_text(d.out.lookup("command"@), command@)
                &&& is_text(d.out.lookup("status"@), "refused"@)
                &&& is_text(d.out.lookup("detail"@), "a rules program does not match the plan"@)
                &&& d.out.lookup("check_plan"@) matches Some(OutValue::Value(Json::Array(items)))
                    && items@.len() == all.len() && forall|k: int|
                    0 <= k < all.len() ==> mismatch_output(#[trigger] items@[k], all[k])
            }
        }),
{
    let ghost total = program_mismatches(backends@, descriptors@, *plan, backends@.len() as int);
    let mut items: Vec<Json> = Vec::new();
    let mut i: usize = 0;
    while i < backends.len()
        invariant
            descriptors@.len() == backends@.len(),
            total == program_mismatches(backends@, descriptors@, *plan, backends@.len() as int),
            i <= backends@.len(),
            items@.len() == program_mismatches(backends@, descriptors@, *plan, i as int).len(),
            forall|k: int|
                0 <= k < items@.len() ==> mismatch_output(
                    #[trigger] items@[k],
                    program_mismatches(backends@, descriptors@, *plan, i as int)[k],
                ),
        decreases backends@.len() - i,
    {
        let b = &backends[i];
        let canonical = match &descriptors[i] {
            Some(v) => Some(v.as_slice()),
            None => None,
        };
        let ghost prev = program_mismatches(backends@, descriptors@, *plan, i as int);
        let ghost id = b.descriptor_view().backend_id@;
        let ghost here = plan_mismatches(b.tasks_view(), id, descriptor_identity(canonical), *plan);
        proof {
            assert(descriptor_identity(canonical) == identity_of(
                match descriptors@[i as int] {
                    Some(v) => Some(v@),
                    None => None,
                },
            ));
            assert(program_mismatches(backends@, descriptors@, *plan, i + 1) == prev + here.map_values(
                |m: (Seq<char>, KindModel)| (id, m.0, m.1),
            ));
        }
        match b.check_plan(plan, canonical) {
            Ok(()) => {
                proof {
                    assert(here.map_values(|m: (Seq<char>, KindModel)| (id, m.0, m.1)) =~= seq![]);
                    assert(prev + seq![] =~= prev);
                }
            },
            Err(ms) => {
                let backend_id = b.descriptor().backend_id.as_str();
                let ghost base = items@;
                let mut k: usize = 0;
                while k < ms.len()
                    invariant
                        mismatches_view(ms@) == here,
                        backend_id@ == id,
                        base.len() == prev.len(),
                        forall|q: int| 0 <= q < base.len() ==> mismatch_output(#[trigger] base[q], prev[q]),
                        k <= ms@.len(),
                        items@.len() == base.len() + k,
                        forall|q: int| 0 <= q < base.len() ==> items@[q] == base[q],
                        forall|q: int|
                            0 <= q < k ==> mismatch_output(
                                #[trigger] items@[base.len() + q],
                                (id, here[q].0, here[q].1),
                            ),
                    decreases ms@.len() - k,
                {
                    let j = mismatch_json(backend_id, &ms[k]);
                    proof {
                        assert(mismatches_view(ms@)[k as int] == mismatch_model(ms@[k as int]));
                    }
                    items.push(j);
                    k = k + 1;
                }
                proof {
                    let now = prev + here.map_values(|m: (Seq<char>, KindModel)| (id, m.0, m.1));
                    assert(here.len() == ms@.len());
                    assert forall|q: int| 0 <= q < items@.len() implies mismatch_output(
                        #[trigger] items@[q],
                        now[q],
                    ) by {
                        if q >= base.len() {
                            let w = q - base.len();
                            assert(items@[base.len() + w] == items@[q]);
                            assert(now[q] == (id, here[w].0, here[w].1));
                        } else {
                            assert(now[q] == prev[q]);
                            assert(items@[q] == base[q]);
                        }
                    }
                }
            },
        }
        i = i + 1;
    }
    if items.len() == 0 {
        return Ok(());
    }
    let out = Out::new(command, "refused").set("check_plan", Json::Array(items)).set_text(
        "detail",
        "a rules program does not match the plan",
    );
    proof {
        reveal_strlit("command");
        reveal_strlit("status");
        reveal_strlit("check_plan");
        reveal_strlit("detail");
        assert("command"@[1] != "check_plan"@[1]);
        assert("status"@[0] != "check_plan"@[0]);
        assert("command"@[0] != "detail"@[0]);
        assert("status"@[0] != "detail"@[0]);
        assert("check_plan"@[0] != "detail"@[0]);
    }
    Err(Done::new(code::REFUSED, out))
}

/// What a captured run reports of its capture: `{"status", "entries"}`.
pub fn capture_json(status: CaptureStatus, entries: usize) -> (r: Json)
    ensures
        has_members(r, seq!["status"@, "entries"@]),
        is_str(member_value(r, 0), capture_status_name(status)),
        member_value(r, 1) == Json::UInt(entries as u64),
{
    object2("status", text(capture_status(status)), "entries", Json::UInt(entries as u64))
}

/// Why the replay bundle of a run could not be written.
#[derive(Debug, Clone, PartialEq, Eq)]
pub struct BundleFail {
    /// `invalid_input` or `io_error`.
    pub status: &'static str,
    pub code: u8,
    pub detail: String,
    pub path: String,
}

/// The output and exit code of a run once its bundle is settled. A written
/// bundle is named under `bundle`. A failed one is reported under
/// `bundle_error` as `{"status", "path", "detail"}`, and its status and
/// exit code replace the decision's unless the evidence was not delivered,
/// which stays the command's status.
pub fn settle_bundle(out: Out, exit: u8, written: Result<(), BundleFail>, bundle_out: &str) -> (r: (Out, u8))
    ensures
        match written {
            Ok(()) => {
                &&& is_text(r.0.lookup("bundle"@), bundle_out@)
                &&& forall|t: Seq<char>| t != "bundle"@ ==> #[trigger] r.0.lookup(t) == out.lookup(t)
                &&& r.1 == exit
            },
            Err(f) => {
                &&& r.0.lookup("bundle_error"@) matches Some(OutValue::Value(j)) && has_members(
                    j,
                    seq!["status"@, "path"@, "detail"@],
                ) && is_str(member_value(j, 0), f.status@) && is_str(member_value(j, 1), f.path@)
                    && is_str(member_value(j, 2), f.detail@)
                &&& if exit != code::EVIDENCE_NOT_DELIVERED {
                    &&& is_text(r.0.lookup("status"@), f.status@)
                    &&& r.1 == f.code
                    &&& forall|t: Seq<char>|
                        t != "bundle_error"@ && t != "status"@ ==> #[trigger] r.0.lookup(t) == out.lookup(t)
                } else {
                    &&& r.1 == exit
                    &&& forall|t: Seq<char>| t != "bundle_error"@ ==> #[trigger] r.0.lookup(t) == out.lookup(t)
                }
            },
        },
{
    match written {
        Ok(()) => (out.set_text("bundle", bundle_out), exit),
        Err(f) => {
            let es = vec![
                (String::from_str("status"), text(f.status)),
                (String::from_str("path"), text(f.path.as_str())),
                (String::from_str("detail"), text(f.detail.as_str())),
            ];
            proof {
                assert(member_keys(es@) =~= seq!["status"@, "path"@, "detail"@]);
            }
            let out = out.set("bundle_error", Json::Object(es));
            if exit != code::EVIDENCE_NOT_DELIVERED {
                proof {
                    reveal_strlit("status");
                    reveal_strlit("bundle_error");
                    assert("status"@[0] != "bundle_error"@[0]);
                }
                (out.set_text("status", f.status), f.code)
            } else {
                (out, exit)
            }
        },
    }
}

/// Why the runtime did not admit a decision.
#[derive(Debug, Clone, PartialEq, Eq)]
pub enum Rejection {
    Overloaded,
    QueueDeadline,
    Cancelled,
    InvalidRequest(String),
}

/// The name and detail of a rejection in output.
pub open spec fn rejection_model(r: Rejection) -> (Seq<char>, Seq<char>) {
    match r {
        Rejection::Overloaded => ("overloaded"@, Seq::empty()),
        Rejection::QueueDeadline => ("queue_deadline"@, Seq::empty()),
        Rejection::Cancelled => ("cancelled"@, Seq::empty()),
        Rejection::InvalidRequest(d) => ("invalid_request"@, d@),
    }
}

/// The name and detail of a rejection in output.
pub fn rejection_kind(r: &Rejection) -> (k: (&'static str, String))
    ensures
        k.0@ == rejection_model(*r).0,
        k.1@ == rejection_model(*r).1,
{
    match r {
        Rejection::Overloaded => ("overloaded", String::new()),
        Rejection::QueueDeadline => ("queue_deadline", String::new()),
        Rejection::Cancelled => ("cancelled", String::new()),
        Rejection::InvalidRequest(d) => ("invalid_request", String::from_str(d.as_str())),
    }
}

/// How one decision ended. Judgments and run records are their record
/// canonical bytes.
#[derive(Debug, Clone, PartialEq, Eq)]
pub enum DecisionEnd {
    Rejected(Rejection),
    /// Judged, and the run record delivered with this receipt.
    Judged { judgment: Vec<u8>, receipt: String },
    /// Cancelled, and the run record delivered with this receipt.
    Cancelled { receipt: String },
    /// Judged or cancelled, but the run record was not delivered.
    EvidenceNotDelivered { judged: bool, detail: String, uncertain: bool, record: Vec<u8> },
}

/// The output of a finished decision under its decision id and plan. A
/// rejection ends the command at once with status `rejected` (exit 6); any
/// other end is returned with its exit code for the capture to be
/// reported: `judged` (exit 0) with the judgment, `cancelled` (exit 7), both
/// naming the record file and the receipt, or `evidence_not_delivered`
/// (exit 8) with the completion, the failure and the run record.
pub fn decision_output(command: &str, decision_id: &str, plan_id: &str, record_out: &str, end: DecisionEnd) -> (r:
    Result<(Out, u8), Done>)
    requires
        end matches DecisionEnd::Judged { judgment, .. } ==> valid_utf8(judgment@),
        end matches DecisionEnd::EvidenceNotDelivered { record, .. } ==> valid_utf8(record@),
    ensures
        match end {
            DecisionEnd::Rejected(x) => r matches Err(d) && d.code == code::REJECTED && is_text(
                d.out.lookup("command"@),
                command@,
            ) && is_text(d.out.lookup("decision_id"@), decision_id@) && is_text(
                d.out.lookup("plan_id"@),
                plan_id@,
            ) && is_text(d.out.lookup("status"@), "rejected"@) && is_text(
                d.out.lookup("rejection"@),
                rejection_model(x).0,
            ) && is_text(d.out.lookup("detail"@), rejection_model(x).1),
            DecisionEnd::Judged { judgment, receipt } => r matches Ok((o, c)) && c == code::OK && is_text(
                o.lookup("command"@),
                command@,
            ) && is_text(o.lookup("decision_id"@), decision_id@) && is_text(o.lookup("plan_id"@), plan_id@)
                && is_text(o.lookup("record"@), record_out@) && is_text(o.lookup("receipt"@), receipt@)
                && is_text(o.lookup("status"@), "judged"@) && is_text(o.lookup("completion"@), "judged"@)
                && o.lookup("judgment"@) == Some(OutValue::Raw(judgment)),
            DecisionEnd::Cancelled { receipt } => r matches Ok((o, c)) && c == code::CANCELLED && is_text(
                o.lookup("command"@),
                command@,
            ) && is_text(o.lookup("decision_id"@), decision_id@) && is_text(o.lookup("plan_id"@), plan_id@)
                && is_text(o.lookup("record"@), record_out@) && is_text(o.lookup("receipt"@), receipt@)
                && is_text(o.lookup("status"@), "cancelled"@) && is_text(o.lookup("completion"@), "cancelled"@),
            DecisionEnd::EvidenceNotDelivered { judged, detail, uncertain, record } => r matches Ok((o, c)) && c
                == code::EVIDENCE_NOT_DELIVERED && is_text(o.lookup("command"@), command@) && is_text(
                o.lookup("decision_id"@),
                decision_id@,
            ) && is_text(o.lookup("plan_id"@), plan_id@) && is_text(
                o.lookup("status"@),
                "evidence_not_delivered"@,
            ) && is_text(
                o.lookup("completion"@),
                if judged {
                    "judged"@
                } else {
                    "cancelled"@
                },
            ) && is_text(o.lookup("detail"@), detail@) && o.lookup("uncertain"@) == Some(
                OutValue::Value(Json::Bool(uncertain)),
            ) && o.lookup("run_record"@) == Some(OutValue::Raw(record)),
        },
{
    proof {
        reveal_strlit("command");
        reveal_strlit("status");
        reveal_strlit("decision_id");
        reveal_strlit("plan_id");
        reveal_strlit("rejection");
        reveal_strlit("detail");
        reveal_strlit("record");
        reveal_strlit("receipt");
        reveal_strlit("completion");
        reveal_strlit("judgment");
        reveal_strlit("uncertain");
        reveal_strlit("run_record");
        assert("command"@[0] != "status"@[0]);
        assert("command"@[0] != "decision_id"@[0]);
        assert("command"@[0] != "plan_id"@[0]);
        assert("command"@[0] != "rejection"@[0]);
        assert("command"@[0] != "detail"@[0]);
        assert("command"@[0] != "record"@[0]);
        assert("command"@[0] != "receipt"@[0]);
        assert("command"@[3] != "completion"@[3]);
        assert("command"@[0] != "judgment"@[0]);
        assert("command"@[0] != "uncertain"@[0]);
        assert("command"@[0] != "run_record"@[0]);
        assert("status"@[0] != "decision_id"@[0]);
        assert("status"@[0] != "plan_id"@[0]);
        assert("status"@[0] != "rejection"@[0]);
        assert("status"@[0] != "detail"@[0]);
        assert("status"@[0] != "record"@[0]);
        assert("status"@[0] != "receipt"@[0]);
        assert("status"@[0] != "completion"@[0]);
        assert("status"@[0] != "judgment"@[0]);
        assert("status"@[0] != "uncertain"@[0]);
        assert("status"@[0] != "run_record"@[0]);
        assert("decision_id"@[0] != "plan_id"@[0]);
        assert("decision_id"@[0] != "rejection"@[0]);
        assert("decision_id"@[2] != "detail"@[2]);
        assert("decision_id"@[0] != "record"@[0]);
        assert("decision_id"@[0] != "receipt"@[0]);
        assert("decision_id"@[0] != "completion"@[0]);
        assert("decision_id"@[0] != "judgment"@[0]);
        assert("decision_id"@[0] != "uncertain"@[0]);
        assert("decision_id"@[0] != "run_record"@[0]);
        assert("plan_id"@[0] != "rejection"@[0]);
        assert("plan_id"@[0] != "detail"@[0]);
        assert("plan_id"@[0] != "record"@[0]);
        assert("plan_id"@[0] != "receipt"@[0]);
        assert("plan_id"@[0] != "completion"@[0]);
        assert("plan_id"@[0] != "judgment"@[0]);
        assert("plan_id"@[0] != "uncertain"@[0]);
        assert("plan_id"@[0] != "run_record"@[0]);
        assert("rejection"@[0] != "detail"@[0]);
        assert("rejection"@[2] != "record"@[2]);
        assert("rejection"@[2] != "receipt"@[2]);
        assert("rejection"@[0] != "completion"@[0]);
        assert("rejection"@[0] != "judgment"@[0]);
        assert("rejection"@[0] != "uncertain"@[0]);
        assert("rejection"@[1] != "run_record"@[1]);
        assert("detail"@[0] != "record"@[0]);
        assert("detail"@[0] != "receipt"@[0]);
        assert("detail"@[0] != "completion"@[0]);
        assert("detail"@[0] != "judgment"@[0]);
        assert("detail"@[0] != "uncertain"@[0]);
        assert("detail"@[0] != "run_record"@[0]);
        assert("record"@[3] != "receipt"@[3]);
        assert("record"@[0] != "completion"@[0]);
        assert("record"@[0] != "judgment"@[0]);
        assert("record"@[0] != "uncertain"@[0]);
        assert("record"@[1] != "run_record"@[1]);
        assert("receipt"@[0] != "completion"@[0]);
        assert("receipt"@[0] != "judgment"@[0]);
        assert("receipt"@[0] != "uncertain"@[0]);
        assert("receipt"@[1] != "run_record"@[1]);
        assert("completion"@[0] != "judgment"@[0]);
        assert("completion"@[0] != "uncertain"@[0]);
        assert("completion"@[0] != "run_record"@[0]);
        assert("judgment"@[0] != "uncertain"@[0]);
        assert("judgment"@[0] != "run_record"@[0]);
        assert("uncertain"@[0] != "run_record"@[0]);
    }
    let base = Out::new(command, "").set_text("decision_id", decision_id).set_text("plan_id", plan_id);
    match end {
        DecisionEnd::Rejected(x) => {
            let (kind, detail) = rejection_kind(&x);
            Err(
                Done::new(
                    code::REJECTED,
                    base.set_text("status", "rejected").set_text("rejection", kind).set_text(
                        "detail",
                        detail.as_str(),
                    ),
                ),
            )
        },
        DecisionEnd::Judged { judgment, receipt } => {
            let out = base.set_text("record", record_out).set_text("receipt", receipt.as_str());
            Ok(
                (
                    out.set_text("status", "judged").set_text("completion", "judged").raw(
                        "judgment",
                        judgment,
                    ),
                    code::OK,
                ),
            )
        },
        DecisionEnd::Cancelled { receipt } => {
            let out = base.set_text("record", record_out).set_text("receipt", receipt.as_str());
            Ok((out.set_text("status", "cancelled").set_text("completion", "cancelled"), code::CANCELLED))
        },
        DecisionEnd::EvidenceNotDelivered { judged, detail, uncertain, record } => {
            let completion = if judged {
                "judged"
            } else {
                "cancelled"
            };
            Ok(
                (
                    base.set_text("status", "evidence_not_delivered").set_text("completion", completion).set_text(
                        "detail",
                        detail.as_str(),
                    ).set("uncertain", Json::Bool(uncertain)).raw("run_record", record),
                    code::EVIDENCE_NOT_DELIVERED,
                ),
            )
        },
    }
}

} // verus!
