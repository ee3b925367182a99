use rustev::canonical::{canonical_value_bytes, Json};
use rustev::cli::io::IoFail;
use rustev::cli::out::{Done, Out};
use rustev::canonical::CanonicalError;
use rustev::cli::run::{capture_json, decision_output, mismatch_json, rejection_kind, settle_bundle, BundleFail, DecisionEnd, Rejection};
use rustev::cli::verdict::{gate_done, gate_precheck, id_of, qualify_done, replay_done, GateVerdict, Qualification, ReplayVerdict};
use rustev::replay::CaptureStatus;
use rustev::rules::backend::{PlanMismatch, PlanMismatchKind};

fn text(j: &Json) -> String {
    String::from_utf8(canonical_value_bytes(j).unwrap()).unwrap()
}

fn line(out: &Out) -> String {
    String::from_utf8(out.bytes()).unwrap()
}

#[test]
fn output_is_one_sorted_compact_line() {
    let out = Out::new("plan check", "ok")
        .set_text("plan_id", "sha256:x")
        .set("count", Json::UInt(3))
        .set_text("status", "refused");
    assert_eq!(
        line(&out),
        "{\"command\":\"plan check\",\"count\":3,\"plan_id\":\"sha256:x\",\"status\":\"refused\"}\n"
    );
    assert_eq!(out.status(), "refused");
    let out = out.raw("judgment", b"{\"b\":1,\"a\":2}".to_vec());
    assert_eq!(
        line(&out),
        "{\"command\":\"plan check\",\"count\":3,\"judgment\":{\"b\":1,\"a\":2},\
\"plan_id\":\"sha256:x\",\"status\":\"refused\"}\n"
    );
}

#[test]
fn io_and_invalid_input_finish_with_their_codes() {
    let d = Done::io("run", IoFail { path: "p\"q".into(), detail: "no such file".into() });
    let e = d.finish();
    assert_eq!(e.code, 3);
    assert_eq!(
        String::from_utf8(e.stdout).unwrap(),
        "{\"command\":\"run\",\"detail\":\"no such file\",\"path\":\"p\\\"q\",\"status\":\"io_error\"}\n"
    );
    assert_eq!(e.stderr, "");
    let d = Done::invalid("eval", "cases.json", "bad");
    assert_eq!(d.code, 4);
    assert_eq!(d.out.status(), "invalid_input");
    assert_eq!(
        line(&d.out),
        "{\"command\":\"eval\",\"detail\":\"bad\",\"input\":\"cases.json\",\"status\":\"invalid_input\"}\n"
    );
}

#[test]
fn plan_mismatches_are_printed_by_kind() {
    let m = |kind| PlanMismatch { step: "s".into(), kind };
    assert_eq!(
        text(&mismatch_json("rules-a", &m(PlanMismatchKind::Descriptor))),
        "{\"backend_id\":\"rules-a\",\"detail\":null,\"kind\":\"descriptor\",\"step\":\"s\"}"
    );
    assert_eq!(
        text(&mismatch_json("rules-a", &m(PlanMismatchKind::NoTask("t".into())))),
        "{\"backend_id\":\"rules-a\",\"detail\":{\"task\":\"t\"},\"kind\":\"no_task\",\"step\":\"s\"}"
    );
    assert_eq!(
        text(&mismatch_json("rules-a", &m(PlanMismatchKind::TaskDiffers("options")))),
        "{\"backend_id\":\"rules-a\",\"detail\":{\"what\":\"options\"},\"kind\":\"task_differs\",\"step\":\"s\"}"
    );
    assert_eq!(
        text(&mismatch_json(
            "rules-a",
            &m(PlanMismatchKind::Incompatible { field: "f".into(), reference: "input:f".into() })
        )),
        "{\"backend_id\":\"rules-a\",\"detail\":{\"field\":\"f\",\"reference\":\"input:f\"},\
\"kind\":\"incompatible\",\"step\":\"s\"}"
    );
}

#[test]
fn a_failed_bundle_takes_over_the_status_unless_evidence_failed() {
    let fail = || BundleFail {
        status: "io_error",
        code: 3,
        detail: "disk full".into(),
        path: "b.json".into(),
    };
    let judged = || Out::new("run", "judged");
    let (out, code) = settle_bundle(judged(), 0, Err(fail()), "b.json");
    assert_eq!(code, 3);
    assert_eq!(
        line(&out),
        "{\"bundle_error\":{\"detail\":\"disk full\",\"path\":\"b.json\",\"status\":\"io_error\"},\
\"command\":\"run\",\"status\":\"io_error\"}\n"
    );
    let (out, code) = settle_bundle(Out::new("run", "evidence_not_delivered"), 8, Err(fail()), "b.json");
    assert_eq!(code, 8);
    assert_eq!(out.status(), "evidence_not_delivered");
    let (out, code) = settle_bundle(judged(), 0, Ok(()), "b.json");
    assert_eq!(code, 0);
    assert_eq!(line(&out), "{\"bundle\":\"b.json\",\"command\":\"run\",\"status\":\"judged\"}\n");
}

#[test]
fn a_capture_reports_its_status_and_entries() {
    assert_eq!(
        text(&capture_json(CaptureStatus::LimitExceeded, 2)),
        "{\"entries\":2,\"status\":\"limit_exceeded\"}"
    );
}

#[test]
fn a_gate_is_unknown_across_adapters_or_when_undeclared() {
    let gates = vec!["accuracy".to_string(), "latency".to_string(), "latency".to_string()];
    assert_eq!(gate_precheck(b"a", b"a", &gates, "latency"), Ok(1));
    assert_eq!(
        gate_precheck(b"a", b"b", &gates, "latency"),
        Err(GateVerdict::Unknown {
            reason: "the two sides were evaluated with different task adapters".into()
        })
    );
    assert_eq!(
        gate_precheck(b"a", b"a", &gates, "cost"),
        Err(GateVerdict::Unknown { reason: "the configuration declares no gate \"cost\"".into() })
    );
    let d = gate_done("gate", "latency", GateVerdict::Fail { reason: "slower".into() });
    assert_eq!(d.code, 11);
    assert_eq!(
        line(&d.out),
        "{\"command\":\"gate\",\"gate\":\"latency\",\"reason\":\"slower\",\"status\":\"fail\"}\n"
    );
    let d = gate_done("gate", "latency", GateVerdict::Pass);
    assert_eq!(d.code, 0);
    assert_eq!(line(&d.out), "{\"command\":\"gate\",\"gate\":\"latency\",\"status\":\"pass\"}\n");
    assert_eq!(gate_done("gate", "g", GateVerdict::Unknown { reason: "r".into() }).code, 12);
}

#[test]
fn qualification_maps_to_its_exit_codes() {
    let d = qualify_done("calibrate qualify", "sha256:c", Qualification::Qualified);
    assert_eq!(d.code, 0);
    assert_eq!(
        line(&d.out),
        "{\"calibration\":\"sha256:c\",\"command\":\"calibrate qualify\",\"status\":\"qualified\"}\n"
    );
    let d = qualify_done("calibrate qualify", "", Qualification::Refused { reason: "too few".into() });
    assert_eq!(d.code, 11);
    assert_eq!(d.out.status(), "refused_qualification");
    assert_eq!(qualify_done("q", "", Qualification::Unknown { reason: "r".into() }).code, 12);
}

#[test]
fn identities_are_tagged_digests_of_canonical_bytes() {
    let id = id_of("rustev.definition/1", &Ok(b"{}".to_vec()));
    assert_eq!(id, rustev::canonical::tagged_digest("rustev.definition/1", b"{}"));
    assert!(id.starts_with("sha256:") && id.len() == 71);
    assert_eq!(id_of("rustev.definition/1", &Err(CanonicalError::NotRoundTrip)), "");
}

#[test]
fn replay_outcomes_map_to_their_exit_codes() {
    let d = replay_done(
        "replay",
        "d-1",
        "sha256:p",
        ReplayVerdict::Reproduced { supplies: 2, judgment: b"{\"x\":1}".to_vec() },
    );
    assert_eq!(d.code, 0);
    assert_eq!(
        line(&d.out),
        "{\"command\":\"replay\",\"decision_id\":\"d-1\",\"judgment\":{\"x\":1},\
\"plan_id\":\"sha256:p\",\"status\":\"reproduced\",\"supplies\":2}\n"
    );
    let d = replay_done(
        "replay",
        "d-1",
        "sha256:p",
        ReplayVerdict::Diverged { expected: b"1".to_vec(), actual: b"2".to_vec() },
    );
    assert_eq!(d.code, 9);
    assert_eq!(
        line(&d.out),
        "{\"actual\":2,\"command\":\"replay\",\"decision_id\":\"d-1\",\"expected\":1,\
\"plan_id\":\"sha256:p\",\"status\":\"diverged\"}\n"
    );
    let d = replay_done(
        "replay",
        "d-1",
        "sha256:p",
        ReplayVerdict::Incomparable { reason: "bundle-expired".into(), detail: "late".into() },
    );
    assert_eq!(d.code, 10);
    assert_eq!(d.out.status(), "incomparable");
}

#[test]
fn a_decision_ends_as_its_runtime_answered() {
    assert_eq!(rejection_kind(&Rejection::QueueDeadline), ("queue_deadline", String::new()));
    let d = decision_output("run", "d-1", "sha256:p", "r.json", DecisionEnd::Rejected(Rejection::InvalidRequest("bad".into())))
        .unwrap_err();
    assert_eq!(d.code, 6);
    assert_eq!(
        line(&d.out),
        "{\"command\":\"run\",\"decision_id\":\"d-1\",\"detail\":\"bad\",\"plan_id\":\"sha256:p\",\
\"rejection\":\"invalid_request\",\"status\":\"rejected\"}\n"
    );
    let (out, code) = decision_output(
        "run",
        "d-1",
        "sha256:p",
        "r.json",
        DecisionEnd::Judged { judgment: b"{}".to_vec(), receipt: "file:x".into() },
    )
    .unwrap();
    assert_eq!(code, 0);
    assert_eq!(
        line(&out),
        "{\"command\":\"run\",\"completion\":\"judged\",\"decision_id\":\"d-1\",\"judgment\":{},\
\"plan_id\":\"sha256:p\",\"receipt\":\"file:x\",\"record\":\"r.json\",\"status\":\"judged\"}\n"
    );
    let (out, code) = decision_output(
        "run",
        "d-1",
        "sha256:p",
        "r.json",
        DecisionEnd::EvidenceNotDelivered {
            judged: false,
            detail: "timeout".into(),
            uncertain: true,
            record: b"{}".to_vec(),
        },
    )
    .unwrap();
    assert_eq!(code, 8);
    assert_eq!(
        line(&out),
        "{\"command\":\"run\",\"completion\":\"cancelled\",\"decision_id\":\"d-1\",\"detail\":\"timeout\",\
\"plan_id\":\"sha256:p\",\"run_record\":{},\"status\":\"evidence_not_delivered\",\"uncertain\":true}\n"
    );
    let (_, code) =
        decision_output("run", "d-1", "p", "r.json", DecisionEnd::Cancelled { receipt: "file:x".into() }).unwrap();
    assert_eq!(code, 7);
}
