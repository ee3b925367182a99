use rustev::canonical::{tagged_digest, Json};
use rustev::canonical::canonical_value_bytes;
use rustev::cli::calibrate::target_parts;
use rustev::cli::plan::step_json;
use rustev::cli::run::{check_backend_ids, check_programs};
use rustev::decimal::Decimal;
use rustev::definition::{
    ArtifactPin, BackendReq, BindingChoice, CalibrationRef, Candidates, Definition, Determinism,
    ExactDecl, ExcessPolicy, Fallback, FieldDecl, ForEach, Freshness, InputDecl, ItemSource,
    LimitsDecl, Operation, PolicyDecl, ProvenanceClass, RequiredKind, SemanticDecl, StepBody,
    StepDecl, TypeDecl,
};
use rustev::descriptor::OutputKind;
use rustev::ids::{ArtifactId, DefinitionId, DescriptorId, ExecutionPolicyId};
use rustev::judgment::Derivation;
use rustev::plan::{
    BoundCalibration, DeclaredExecution, FallbackTarget, Normalization, Plan, PlanExecution,
    PlanStep, PlanStepDetail, SemanticBinding,
};
use rustev::rules::backend::{PlanMismatch, PlanMismatchKind, RulesBackend};
use rustev::rules::program::{
    Field, FieldType, NoMatch, ProgramCost, ProgramLimits, RulesProgram, Task,
};
use rustev::text_map::TextMap;

const DESCRIPTOR_BYTES: &[u8] = b"{\"schema\":\"rustev.backend/1\"}";

fn digest(tag: &str, bytes: &[u8]) -> String {
    tagged_digest(tag, bytes)
}

fn my_descriptor() -> DescriptorId {
    DescriptorId::parse(&digest("rustev.backend/1", DESCRIPTOR_BYTES)).unwrap()
}

fn other_descriptor() -> DescriptorId {
    DescriptorId::parse(&digest("rustev.backend/1", b"other")).unwrap()
}

fn backend(fields: Vec<Field>) -> RulesBackend {
    let mut base = TextMap::new();
    base.insert_new("a".to_string(), Decimal::parse("0").unwrap());
    let program = RulesProgram {
        schema: "rustev.rules/1".into(),
        backend_id: "rules-unit".into(),
        limits: ProgramLimits { max_projection_bytes: 4096 },
        cost: ProgramCost { units_per_call: 0 },
        tasks: vec![Task {
            operation: Operation::Classify,
            task: "triage".into(),
            question: "SYNTHETIC which queue?".into(),
            options: vec!["a".into(), "b".into()],
            interpretation: "SYNTHETIC test program.".into(),
            fields,
            base,
            rules: vec![],
            on_no_match: NoMatch::Base,
        }],
    };
    RulesBackend::new(program, b"{}").unwrap()
}

fn field(name: &str, reference: &str, ty: FieldType) -> Field {
    Field { name: name.into(), reference: reference.into(), ty }
}

fn semantic(task: &str, question: &str, project: &[&str], for_each: Vec<ForEach>) -> SemanticDecl {
    SemanticDecl {
        operation: Operation::Classify,
        task: task.into(),
        question: question.into(),
        options: vec!["a".into(), "b".into()],
        candidates: Candidates::NoCandidates,
        requires: RequiredKind::Label,
        project: project.iter().map(|p| p.to_string()).collect(),
        for_each,
        backend: BackendReq {
            min_determinism: Determinism::Unspecified,
            artifact: ArtifactPin::Any,
            binding: BindingChoice::Auto,
        },
        calibration: CalibrationRef::NoCalibration,
        fallback: Fallback::NoFallback,
    }
}

fn input(name: &str, ty: TypeDecl) -> InputDecl {
    InputDecl {
        name: name.into(),
        ty,
        provenance: vec![ProvenanceClass::SystemOfRecord],
        freshness: Freshness::NotRequired,
    }
}

fn definition(inputs: Vec<InputDecl>, steps: Vec<StepDecl>) -> Definition {
    Definition {
        schema: "rustev.definition/1".into(),
        name: "unit".into(),
        version: "1.0.0".into(),
        package: "synthetic".into(),
        inputs,
        steps,
        policy: PolicyDecl { on_unresolved: vec![], rules: vec![], adjustments: vec![] },
        limits: LimitsDecl {
            max_semantic_requests: 4,
            on_excess: ExcessPolicy::Refuse,
            max_projection_bytes: 4096,
            distribution_tolerance: Decimal::parse("0.001").unwrap(),
            deadline_ms: 1000,
        },
    }
}

fn bound_step(id: &str, backend_id: &str, descriptor: DescriptorId) -> PlanStep {
    PlanStep {
        id: id.into(),
        derivation: Derivation::ModelDerived,
        detail: PlanStepDetail::Semantic(Box::new(SemanticBinding {
            backend_id: backend_id.into(),
            artifact: ArtifactId::parse(&digest("rustev.rules/1", b"{}")).unwrap(),
            descriptor,
            output: OutputKind::Logits,
            requires: RequiredKind::Label,
            normalization: Normalization::NoNormalization,
            calibration: BoundCalibration::NoCalibration,
            fallback_taken: false,
            max_requests: 1,
            max_projection_bytes: 4096,
        })),
    }
}

fn plan(def: Definition, steps: Vec<PlanStep>, execution: PlanExecution) -> Plan {
    Plan {
        schema: "rustev.plan/1".into(),
        compiler: "rustev-core/0.1.0".into(),
        registry: "rustev.exact/1".into(),
        definition_id: DefinitionId::parse(&digest("rustev.definition/1", b"{}")).unwrap(),
        definition: def,
        order: vec![],
        steps,
        notices: vec![],
        execution,
    }
}

fn mismatch(step: &str, kind: PlanMismatchKind) -> PlanMismatch {
    PlanMismatch { step: step.into(), kind }
}

fn text_input() -> Vec<InputDecl> {
    vec![input("t", TypeDecl::Text { max_bytes: 100 })]
}

fn triage_step(id: &str, project: &[&str]) -> StepDecl {
    StepDecl {
        id: id.into(),
        body: StepBody::Semantic(semantic("triage", "SYNTHETIC which queue?", project, vec![])),
    }
}

#[test]
fn a_matching_plan_passes() {
    let b = backend(vec![field("t", "input:t", FieldType::Text)]);
    let p = plan(
        definition(text_input(), vec![triage_step("s", &["input:t"])]),
        vec![bound_step("s", "rules-unit", my_descriptor())],
        PlanExecution::NoPolicy,
    );
    assert_eq!(b.check_plan(&p, Some(DESCRIPTOR_BYTES)), Ok(()));
}

#[test]
fn a_plan_that_does_not_use_the_backend_passes() {
    let b = backend(vec![field("t", "input:t", FieldType::Text)]);
    let p = plan(
        definition(text_input(), vec![triage_step("s", &[])]),
        vec![bound_step("s", "someone-else", other_descriptor())],
        PlanExecution::NoPolicy,
    );
    assert_eq!(b.check_plan(&p, Some(DESCRIPTOR_BYTES)), Ok(()));
}

#[test]
fn another_descriptor_is_a_mismatch() {
    let b = backend(vec![field("t", "input:t", FieldType::Text)]);
    let p = plan(
        definition(text_input(), vec![triage_step("s", &["input:t"])]),
        vec![bound_step("s", "rules-unit", other_descriptor())],
        PlanExecution::NoPolicy,
    );
    assert_eq!(
        b.check_plan(&p, Some(DESCRIPTOR_BYTES)),
        Err(vec![mismatch("s", PlanMismatchKind::Descriptor)])
    );
    // Without the descriptor's bytes no bound descriptor is this backend's.
    let p = plan(
        definition(text_input(), vec![triage_step("s", &["input:t"])]),
        vec![bound_step("s", "rules-unit", my_descriptor())],
        PlanExecution::NoPolicy,
    );
    assert_eq!(
        b.check_plan(&p, None),
        Err(vec![mismatch("s", PlanMismatchKind::Descriptor)])
    );
}

#[test]
fn an_unknown_task_and_task_differences_are_named() {
    let b = backend(vec![field("t", "input:t", FieldType::Text)]);
    let mut other = semantic("nope", "SYNTHETIC which queue?", &["input:t"], vec![]);
    other.operation = Operation::Classify;
    let mut differs = semantic("triage", "SYNTHETIC another question", &["input:t"], vec![]);
    differs.operation = Operation::Rubric;
    differs.options = vec!["a".into()];
    let p = plan(
        definition(
            text_input(),
            vec![
                StepDecl { id: "x".into(), body: StepBody::Semantic(other) },
                StepDecl { id: "y".into(), body: StepBody::Semantic(differs) },
            ],
        ),
        vec![
            bound_step("x", "rules-unit", my_descriptor()),
            bound_step("y", "rules-unit", my_descriptor()),
        ],
        PlanExecution::NoPolicy,
    );
    assert_eq!(
        b.check_plan(&p, Some(DESCRIPTOR_BYTES)),
        Err(vec![
            mismatch("x", PlanMismatchKind::NoTask("nope".into())),
            mismatch("y", PlanMismatchKind::TaskDiffers("operation")),
            mismatch("y", PlanMismatchKind::TaskDiffers("question")),
            mismatch("y", PlanMismatchKind::TaskDiffers("options")),
        ])
    );
}

#[test]
fn fields_must_be_projected_at_a_compatible_type() {
    let b = backend(vec![
        field("t", "input:t", FieldType::Text),
        field("n", "input:n", FieldType::Integer),
        field("flag", "input:t", FieldType::Bool),
        field("amount", "bind:item/amount", FieldType::Decimal),
        field("label", "bind:item/label", FieldType::Text),
    ]);
    let record = TypeDecl::Record {
        fields: vec![
            FieldDecl { name: "id".into(), ty: TypeDecl::Text { max_bytes: 10 } },
            FieldDecl { name: "amount".into(), ty: TypeDecl::Decimal },
        ],
    };
    let inputs = vec![
        input("t", TypeDecl::Text { max_bytes: 100 }),
        input("items", TypeDecl::List { item: Box::new(record), max_items: 10 }),
    ];
    let fan = vec![ForEach {
        over: "step:ids".into(),
        bind: "item".into(),
        items: ItemSource::List { list: "input:items".into(), id_field: "id".into() },
    }];
    let decl = semantic("triage", "SYNTHETIC which queue?", &["input:t", "bind:item"], fan);
    let p = plan(
        definition(
            inputs,
            vec![
                StepDecl {
                    id: "e".into(),
                    body: StepBody::Exact(ExactDecl { op: "ids".into(), version: 1, args: Json::Null }),
                },
                StepDecl { id: "s".into(), body: StepBody::Semantic(decl) },
            ],
        ),
        vec![bound_step("s", "rules-unit", my_descriptor())],
        PlanExecution::NoPolicy,
    );
    assert_eq!(
        b.check_plan(&p, Some(DESCRIPTOR_BYTES)),
        Err(vec![
            mismatch(
                "s",
                PlanMismatchKind::NotProjected { field: "n".into(), reference: "input:n".into() }
            ),
            mismatch(
                "s",
                PlanMismatchKind::Incompatible { field: "flag".into(), reference: "input:t".into() }
            ),
            mismatch(
                "s",
                PlanMismatchKind::Incompatible {
                    field: "label".into(),
                    reference: "bind:item/label".into()
                }
            ),
        ])
    );
}

#[test]
fn a_fallback_target_is_checked_once() {
    let b = backend(vec![field("t", "input:t", FieldType::Text)]);
    let fallback = |step: &str, backend_id: &str, d: DescriptorId| FallbackTarget {
        step: step.into(),
        backend_id: backend_id.into(),
        artifact: ArtifactId::parse(&digest("rustev.rules/1", b"{}")).unwrap(),
        descriptor: d,
        output: OutputKind::Logits,
    };
    let p = plan(
        definition(
            text_input(),
            vec![triage_step("s", &["input:t"]), triage_step("r", &["input:t"])],
        ),
        vec![
            bound_step("s", "rules-unit", my_descriptor()),
            bound_step("r", "someone-else", other_descriptor()),
        ],
        PlanExecution::Declared(DeclaredExecution {
            id: ExecutionPolicyId::parse(&digest("rustev.execution/1", b"{}")).unwrap(),
            fallbacks: vec![
                fallback("s", "rules-unit", my_descriptor()),
                fallback("r", "rules-unit", other_descriptor()),
                fallback("r", "rules-unit", other_descriptor()),
                fallback("r", "third", my_descriptor()),
            ],
        }),
    );
    assert_eq!(
        b.check_plan(&p, Some(DESCRIPTOR_BYTES)),
        Err(vec![mismatch("r", PlanMismatchKind::Descriptor)])
    );
}

#[test]
fn the_fit_target_is_the_primary_binding_and_its_task() {
    let p = plan(
        definition(
            text_input(),
            vec![
                StepDecl {
                    id: "e".into(),
                    body: StepBody::Exact(ExactDecl { op: "ids".into(), version: 1, args: Json::Null }),
                },
                triage_step("s", &["input:t"]),
            ],
        ),
        vec![bound_step("s", "rules-unit", my_descriptor())],
        PlanExecution::NoPolicy,
    );
    let (artifact, task, options) = target_parts(&p, "s").unwrap();
    assert_eq!(artifact.as_str(), digest("rustev.rules/1", b"{}"));
    assert_eq!(task, "triage");
    assert_eq!(options, vec!["a".to_string(), "b".to_string()]);
    assert!(target_parts(&p, "e").is_none());
    assert!(target_parts(&p, "missing").is_none());
}

#[test]
fn each_program_answers_for_its_own_backend_id() {
    let a = backend(vec![field("t", "input:t", FieldType::Text)]);
    let b = backend(vec![field("t", "input:t", FieldType::Text)]);
    let paths = vec!["a.rules.json".to_string(), "b.rules.json".to_string()];
    let d = check_backend_ids("run", &vec![a], &paths).err();
    assert!(d.is_none());
    let a = backend(vec![field("t", "input:t", FieldType::Text)]);
    let d = check_backend_ids("run", &vec![a, b], &paths).unwrap_err();
    assert_eq!(d.code, 4);
    assert_eq!(
        String::from_utf8(d.out.bytes()).unwrap(),
        "{\"command\":\"run\",\"detail\":\"a second program for backend id \\\"rules-unit\\\"\",\
\"input\":\"b.rules.json\",\"status\":\"invalid_input\"}\n"
    );
}

#[test]
fn every_program_must_match_the_plan() {
    let b = backend(vec![field("t", "input:t", FieldType::Text)]);
    let good = plan(
        definition(text_input(), vec![triage_step("s", &["input:t"])]),
        vec![bound_step("s", "rules-unit", my_descriptor())],
        PlanExecution::NoPolicy,
    );
    let descriptors = vec![Some(DESCRIPTOR_BYTES.to_vec())];
    assert!(check_programs("run", &vec![b], &descriptors, &good).is_ok());
    let b = backend(vec![field("t", "input:t", FieldType::Text)]);
    let bad = plan(
        definition(text_input(), vec![triage_step("s", &["input:t"])]),
        vec![bound_step("s", "rules-unit", other_descriptor())],
        PlanExecution::NoPolicy,
    );
    let d = check_programs("run", &vec![b], &descriptors, &bad).unwrap_err();
    assert_eq!(d.code, 5);
    assert_eq!(
        String::from_utf8(d.out.bytes()).unwrap(),
        "{\"check_plan\":[{\"backend_id\":\"rules-unit\",\"detail\":null,\"kind\":\"descriptor\",\
\"step\":\"s\"}],\"command\":\"run\",\"detail\":\"a rules program does not match the plan\",\
\"status\":\"refused\"}\n"
    );
}

#[test]
fn plan_show_prints_each_step() {
    let s = bound_step("s", "rules-unit", my_descriptor());
    let j = String::from_utf8(canonical_value_bytes(&step_json(&s)).unwrap()).unwrap();
    let expected = format!(
        "{{\"derivation\":\"model-derived\",\"detail\":{{\"artifact\":\"{}\",\"backend_id\":\"rules-unit\",\
\"calibration\":\"none\",\"descriptor\":\"{}\",\"fallback_taken\":false,\"kind\":\"semantic\",\
\"max_requests\":1,\"normalization\":\"none\",\"output\":\"logits\",\"requires\":\"label\"}},\"id\":\"s\"}}",
        digest("rustev.rules/1", b"{}"),
        my_descriptor().as_str()
    );
    assert_eq!(j, expected);
    let e = PlanStep {
        id: "x".into(),
        derivation: Derivation::ExactDerived,
        detail: PlanStepDetail::Unsupported { capability: "rank".into() },
    };
    assert_eq!(
        String::from_utf8(canonical_value_bytes(&step_json(&e)).unwrap()).unwrap(),
        "{\"derivation\":\"exact-derived\",\"detail\":{\"capability\":\"rank\",\"kind\":\"unsupported\"},\"id\":\"x\"}"
    );
}
