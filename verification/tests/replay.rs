use rustev::execution::FailureClass;
use rustev::ids::{ArtifactId, ContentDigest, PlanId, RequestId, SnapshotId};
use rustev::judgment::Unresolved;
use rustev::reason::RuntimeReasonDoc;
use rustev::replay::{
    BundleError, CaptureStatus, ItemLocation, LifetimeProblem, ReplayBundle, SupplyEntry,
    MAX_BUNDLE_ITEMS,
};
use rustev::retention::{Retention, RetentionItem, MAX_BUNDLE_LIFETIME_MS};
use rustev::run::{
    AttemptCost, AttemptEnd, AttemptRecord, Cancellation, Charge, CostBound, RemoteState,
    RequestRecord, RequestResult, Transition,
};
use rustev::schema;
use rustev::scope::{Handle, Scope};
use rustev::time::{Timestamp, MAX_TIMESTAMP_MS};

fn digest(c: char) -> String {
    format!("sha256:{}", c.to_string().repeat(64))
}

fn h(s: &str) -> Handle {
    Handle::new(s.to_string()).unwrap()
}

fn ts(ms: i64) -> Timestamp {
    Timestamp::from_ms(ms).unwrap()
}

const CREATED: i64 = 1_790_000_000_000;
const DAY: i64 = 86_400_000;

fn item(document_schema: &str, expires: i64) -> RetentionItem {
    RetentionItem {
        document_schema: document_schema.into(),
        identity: None,
        retention: Retention::DigestOnly {
            digest: ContentDigest::parse(&digest('e')).unwrap(),
            expires_at_ms: ts(expires),
        },
    }
}

fn supply(sequence: u64, step: &str) -> SupplyEntry {
    SupplyEntry {
        step: step.into(),
        instance: vec![],
        request: RequestId::parse(&digest('f')).unwrap(),
        sequence,
        attempt_id: Some(format!("d/{step}//1")),
        target: 0,
        value: item(schema::BACKEND_OUTPUT, CREATED + DAY),
    }
}

fn bundle() -> ReplayBundle {
    let exp = CREATED + 7 * DAY;
    ReplayBundle {
        schema: schema::REPLAY.into(),
        decision_id: "d".into(),
        scope: Scope::principal(h("t"), h("r"), h("p")),
        created_at_ms: ts(CREATED),
        expires_at_ms: ts(exp),
        evaluation_time_ms: ts(CREATED - DAY),
        plan_id: PlanId::parse(&digest('1')).unwrap(),
        plan: item(schema::PLAN, exp),
        descriptors: vec![item(schema::BACKEND, exp)],
        calibrations: vec![],
        snapshot_id: SnapshotId::parse(&digest('2')).unwrap(),
        snapshot: item(schema::SNAPSHOT, exp),
        run: item(schema::RUN, exp),
        capture: CaptureStatus::Complete,
        supplies: vec![supply(0, "a"), supply(1, "b")],
    }
}

fn lifetime(b: &ReplayBundle, cap: Option<u64>) -> (ItemLocation, LifetimeProblem) {
    match b.check(cap) {
        Err(BundleError::Lifetime { location, problem }) => (location, problem),
        other => panic!("expected a lifetime refusal, got {other:?}"),
    }
}

#[test]
fn bundle_lifetime_boundaries_are_exact() {
    let max = MAX_BUNDLE_LIFETIME_MS as i64;
    // Exactly the hard cap passes; one millisecond more is refused.
    let mut b = bundle();
    b.expires_at_ms = ts(CREATED + max);
    b.check(None).unwrap();
    b.expires_at_ms = ts(CREATED + max + 1);
    assert_eq!(
        lifetime(&b, None),
        (
            ItemLocation::Bundle,
            LifetimeProblem::ExceedsCap {
                cap_ms: MAX_BUNDLE_LIFETIME_MS
            }
        )
    );
    // A host cap can only tighten.
    let mut b = bundle();
    b.check(Some(7 * DAY as u64)).unwrap();
    assert!(matches!(
        lifetime(&b, Some(7 * DAY as u64 - 1)).1,
        LifetimeProblem::ExceedsCap { .. }
    ));
    b.expires_at_ms = ts(CREATED + max + 1);
    assert!(matches!(
        lifetime(&b, Some(u64::MAX)).1,
        LifetimeProblem::ExceedsCap { cap_ms } if cap_ms == MAX_BUNDLE_LIFETIME_MS
    ));
    // Expiry must be strictly after creation.
    let mut b = bundle();
    b.expires_at_ms = ts(CREATED);
    assert_eq!(
        lifetime(&b, None),
        (ItemLocation::Bundle, LifetimeProblem::NotAfterCreation)
    );
    // Items: after creation, never after the bundle.
    let mut b = bundle();
    b.run = item(schema::RUN, CREATED);
    assert_eq!(
        lifetime(&b, None),
        (ItemLocation::Run, LifetimeProblem::NotAfterCreation)
    );
    let mut b = bundle();
    b.supplies[1].value = item(schema::BACKEND_OUTPUT, CREATED + 7 * DAY + 1);
    assert_eq!(
        lifetime(&b, None),
        (ItemLocation::Supply(1), LifetimeProblem::OutlivesBundle)
    );
    let mut b = bundle();
    b.supplies[1].value = item(schema::BACKEND_OUTPUT, CREATED + 7 * DAY);
    b.check(None).unwrap();
    // A creation near the end of time cannot overflow the cap.
    let end = MAX_TIMESTAMP_MS;
    let mut b = bundle();
    b.created_at_ms = ts(end - 10);
    b.expires_at_ms = ts(end);
    for it in [&mut b.plan, &mut b.snapshot, &mut b.run] {
        *it = RetentionItem {
            retention: Retention::DigestOnly {
                digest: ContentDigest::parse(&digest('e')).unwrap(),
                expires_at_ms: ts(end),
            },
            ..it.clone()
        };
    }
    b.descriptors.clear();
    b.supplies.clear();
    b.check(None).unwrap();
}

#[test]
fn bundle_structure_is_checked() {
    let mut b = bundle();
    b.schema = "rustev.replay/2".into();
    assert!(matches!(b.check(None), Err(BundleError::Schema(_))));
    let mut b = bundle();
    b.decision_id = String::new();
    assert_eq!(b.check(None), Err(BundleError::DecisionId));
    b.decision_id = "x".repeat(257);
    assert_eq!(b.check(None), Err(BundleError::DecisionId));
    // Sequence contiguous from 0, in entry order.
    let mut b = bundle();
    b.supplies[1].sequence = 2;
    assert_eq!(b.check(None), Err(BundleError::Sequence { index: 1 }));
    let mut b = bundle();
    b.supplies.swap(0, 1);
    assert_eq!(b.check(None), Err(BundleError::Sequence { index: 0 }));
    // Unique by step and instance.
    let mut b = bundle();
    b.supplies[1].step = "a".into();
    assert_eq!(
        b.check(None),
        Err(BundleError::DuplicateSupply { index: 1 })
    );
    // Roles.
    let mut b = bundle();
    b.supplies[0].value.document_schema = schema::JUDGMENT.into();
    assert_eq!(
        b.check(None),
        Err(BundleError::Role {
            location: ItemLocation::Supply(0)
        })
    );
    let mut b = bundle();
    b.supplies[0].value.document_schema = schema::RUNTIME_REASON.into();
    b.check(None).unwrap();
    let mut b = bundle();
    b.descriptors[0].document_schema = schema::CALIBRATION.into();
    assert_eq!(
        b.check(None),
        Err(BundleError::Role {
            location: ItemLocation::Descriptor(0)
        })
    );
    // Counts: 4096 pass, 4097 refused.
    let mut b = bundle();
    b.descriptors = vec![item(schema::BACKEND, CREATED + DAY); MAX_BUNDLE_ITEMS];
    b.check(None).unwrap();
    b.descriptors.push(item(schema::BACKEND, CREATED + DAY));
    assert!(matches!(
        b.check(None),
        Err(BundleError::TooMany {
            what: "descriptors",
            ..
        })
    ));
}

#[test]
fn bundle_entries_are_unique_by_step_and_instance_together() {
    let mut b = bundle();
    b.supplies[1].step = "a".into();
    b.supplies[1].instance = vec!["i".into()];
    b.check(None).unwrap();
    b.supplies[0].instance = vec!["i".into()];
    assert_eq!(
        b.check(None),
        Err(BundleError::DuplicateSupply { index: 1 })
    );
}

#[test]
fn every_item_count_is_capped_at_4096() {
    let mut b = bundle();
    b.calibrations = vec![item(schema::CALIBRATION, CREATED + DAY); MAX_BUNDLE_ITEMS + 1];
    assert!(matches!(
        b.check(None),
        Err(BundleError::TooMany {
            what: "calibrations",
            ..
        })
    ));
    let mut b = bundle();
    b.supplies = (0..MAX_BUNDLE_ITEMS as u64 + 1)
        .map(|i| supply(i, &format!("s{i}")))
        .collect();
    assert!(matches!(
        b.check(None),
        Err(BundleError::TooMany {
            what: "supplies",
            ..
        })
    ));
    b.supplies.pop();
    b.check(None).unwrap();
}

#[test]
fn every_role_accepts_only_its_own_schema() {
    for (location, wrong) in [
        (ItemLocation::Plan, schema::DEFINITION),
        (ItemLocation::Snapshot, schema::RUN),
        (ItemLocation::Run, schema::JUDGMENT),
        (ItemLocation::Run, schema::EVIDENCE),
        (ItemLocation::Calibration(0), schema::BACKEND),
    ] {
        let mut b = bundle();
        b.calibrations = vec![item(schema::CALIBRATION, CREATED + DAY)];
        let slot = match location {
            ItemLocation::Plan => &mut b.plan,
            ItemLocation::Snapshot => &mut b.snapshot,
            ItemLocation::Run => &mut b.run,
            ItemLocation::Calibration(_) => &mut b.calibrations[0],
            _ => unreachable!(),
        };
        slot.document_schema = wrong.into();
        assert_eq!(
            b.check(None),
            Err(BundleError::Role { location }),
            "{wrong}"
        );
    }
}

#[test]
fn declared_plan_and_snapshot_identities_must_be_the_bundle_s() {
    let mut b = bundle();
    b.plan.identity = Some(ContentDigest::parse(b.plan_id.as_str()).unwrap());
    b.snapshot.identity = Some(ContentDigest::parse(b.snapshot_id.as_str()).unwrap());
    b.check(None).unwrap();
    b.plan.identity = Some(ContentDigest::parse(&digest('9')).unwrap());
    assert_eq!(
        b.check(None),
        Err(BundleError::Identity {
            location: ItemLocation::Plan
        })
    );
    let mut b = bundle();
    b.snapshot.identity = Some(ContentDigest::parse(&digest('9')).unwrap());
    assert_eq!(
        b.check(None),
        Err(BundleError::Identity {
            location: ItemLocation::Snapshot
        })
    );
}

#[test]
fn only_complete_or_cancelled_captures_carry_supplies() {
    for (status, ok) in [
        (CaptureStatus::Complete, true),
        (CaptureStatus::Cancelled, true),
        (CaptureStatus::Abandoned, true),
        (CaptureStatus::Disabled, false),
        (CaptureStatus::LimitExceeded, false),
    ] {
        let mut b = bundle();
        b.capture = status;
        assert_eq!(b.check(None).is_ok(), ok, "{status:?}");
        b.supplies.clear();
        b.check(None).unwrap();
    }
}

#[test]
fn bundle_items_are_listed_in_document_order() {
    let b = bundle();
    let locations: Vec<ItemLocation> = b.items().into_iter().map(|(l, _)| l).collect();
    assert_eq!(
        locations,
        vec![
            ItemLocation::Plan,
            ItemLocation::Descriptor(0),
            ItemLocation::Snapshot,
            ItemLocation::Run,
            ItemLocation::Supply(0),
            ItemLocation::Supply(1),
        ]
    );
}

#[test]
fn runtime_reasons_are_the_four_runtime_kinds() {
    for ok in [
        Unresolved::BackendUnavailable { detail: "x".into() },
        Unresolved::InvalidBackendOutput { detail: "x".into() },
        Unresolved::BudgetExhausted {
            resource: "cost".into(),
        },
        Unresolved::DeadlineExceeded,
    ] {
        let doc = RuntimeReasonDoc::new(ok).unwrap();
        assert_eq!(doc.schema, schema::RUNTIME_REASON);
        assert!(doc.check().is_ok());
    }
    for bad in [
        Unresolved::missing(vec!["f".to_string()]),
        Unresolved::Abstained { rule: "r".into() },
        Unresolved::Unsupported {
            capability: "c".into(),
        },
    ] {
        assert!(RuntimeReasonDoc::new(bad).is_err());
    }
    let forged = RuntimeReasonDoc {
        schema: schema::RUNTIME_REASON.into(),
        reason: Unresolved::Abstained { rule: "r".into() },
    };
    assert!(forged.check().is_err());
}

fn attempt(n: u32, target: u32) -> AttemptRecord {
    AttemptRecord {
        attempt_id: format!("d/s//{n}"),
        target,
        backend_id: "b".into(),
        artifact: ArtifactId::parse(&digest('a')).unwrap(),
        dispatched_ms: 0,
        ended_ms: 0,
        end: AttemptEnd::Failed {
            class: FailureClass::Transient,
            detail: String::new(),
        },
        cancellation: Cancellation::NotRequested,
        remote: RemoteState::Finished,
        cost: AttemptCost {
            bound: CostBound::Unknown,
            reserved: 0,
            charge: Charge::Unknown,
        },
    }
}

fn rec(
    result: RequestResult,
    attempts: Vec<AttemptRecord>,
    transitions: Vec<Transition>,
) -> RequestRecord {
    RequestRecord {
        step: "s".into(),
        instance: vec![],
        result,
        attempts,
        transitions,
    }
}

fn of(r: &RequestRecord) -> (u32, Option<String>) {
    let f = r.supplied_from().unwrap();
    (f.target, f.attempt.map(|a| a.attempt_id.clone()))
}

const FAILED: RequestResult = RequestResult::Failed(Unresolved::DeadlineExceeded);

fn stop(after: u32) -> Transition {
    Transition::Stop {
        after,
        reason: "x".into(),
    }
}

fn fallback(after: u32, to: u32) -> Transition {
    Transition::Fallback {
        after,
        class: FailureClass::Permanent,
        to,
    }
}

#[test]
fn outputs_come_from_their_target_and_last_attempt() {
    let r = rec(
        RequestResult::Output { target: 1 },
        vec![attempt(1, 0), attempt(2, 1)],
        vec![fallback(1, 1)],
    );
    assert_eq!(of(&r), (1, Some("d/s//2".into())));
}

#[test]
fn a_failure_after_its_last_attempt_names_it() {
    let r = rec(FAILED, vec![attempt(1, 0)], vec![stop(1)]);
    assert_eq!(of(&r), (0, Some("d/s//1".into())));
    let r = rec(
        FAILED,
        vec![attempt(1, 0), attempt(2, 0)],
        vec![
            Transition::Retry {
                after: 1,
                class: FailureClass::Transient,
                delay_ms: 0,
            },
            stop(2),
        ],
    );
    assert_eq!(of(&r), (0, Some("d/s//2".into())));
}

#[test]
fn a_failure_without_a_producing_attempt_keeps_its_current_target() {
    // Nothing dispatched.
    assert_eq!(of(&rec(FAILED, vec![], vec![stop(0)])), (0, None));
    // Fell back, then stopped before dispatching on target 1.
    let r = rec(FAILED, vec![attempt(1, 0)], vec![fallback(1, 1), stop(1)]);
    assert_eq!(of(&r), (1, None));
    // Retry declared, then stopped before the retry dispatched.
    let r = rec(
        FAILED,
        vec![attempt(1, 0)],
        vec![
            Transition::Retry {
                after: 1,
                class: FailureClass::Transient,
                delay_ms: 5,
            },
            stop(1),
        ],
    );
    assert_eq!(of(&r), (0, None));
    // A panicking disclosure falls back with no attempt at all.
    let r = rec(FAILED, vec![], vec![fallback(0, 1), stop(0)]);
    assert_eq!(of(&r), (1, None));
}

#[test]
fn nothing_supplied_has_no_origin() {
    let r = rec(
        RequestResult::NotSupplied,
        vec![attempt(1, 0)],
        vec![stop(1)],
    );
    assert!(r.supplied_from().is_none());
}
