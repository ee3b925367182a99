//! What `plan show` prints of each compiled step: its id, its derivation
//! and how it is computed.
use vstd::prelude::*;

use vstd::string::StringExecFns;

use crate::canonical::{member_keys, Json};
use crate::cli::run::{has_members, is_str, member_value};
use crate::definition::RequiredKind;
use crate::descriptor::OutputKind;
use crate::judgment::Derivation;
use crate::plan::{BoundCalibration, Normalization, PlanStep, PlanStepDetail};

verus! {

/// The name of a derivation class in output.
pub open spec fn derivation_name(d: Derivation) -> Seq<char> {
    match d {
        Derivation::ExactDerived => "exact-derived"@,
        Derivation::ModelDerived => "model-derived"@,
        Derivation::MixedDerived => "mixed-derived"@,
    }
}

/// The name of an output kind in output.
pub open spec fn output_name(k: OutputKind) -> Seq<char> {
    match k {
        OutputKind::Label => "label"@,
        OutputKind::Scores => "scores"@,
        OutputKind::Distribution => "distribution"@,
        OutputKind::Logits => "logits"@,
    }
}

/// The name of a required value kind in output.
pub open spec fn required_name(k: RequiredKind) -> Seq<char> {
    match k {
        RequiredKind::Label => "label"@,
        RequiredKind::Distribution => "distribution"@,
        RequiredKind::CalibratedProbability => "calibrated_probability"@,
        RequiredKind::OrdinalDistribution => "ordinal_distribution"@,
        RequiredKind::Scores => "scores"@,
    }
}

/// The name of a normalization in output.
pub open spec fn normalization_name(n: Normalization) -> Seq<char> {
    match n {
        Normalization::NoNormalization => "none"@,
        Normalization::Softmax1 => "softmax/1"@,
    }
}

/// What the detail of a step is printed as.
pub open spec fn detail_output(j: Json, d: PlanStepDetail) -> bool {
    match d {
        PlanStepDetail::Exact { op, version } => {
            &&& has_members(j, seq!["kind"@, "op"@, "version"@])
            &&& is_str(member_value(j, 0), "exact"@)
            &&& is_str(member_value(j, 1), op@)
            &&& member_value(j, 2) == Json::UInt(version as u64)
        },
        PlanStepDetail::Semantic(b) => {
            &&& has_members(
                j,
                seq![
                    "kind"@,
                    "backend_id"@,
                    "artifact"@,
                    "descriptor"@,
                    "output"@,
                    "requires"@,
                    "normalization"@,
                    "calibration"@,
                    "fallback_taken"@,
                    "max_requests"@,
                ],
            )
            &&& is_str(member_value(j, 0), "semantic"@)
            &&& is_str(member_value(j, 1), b.backend_id@)
            &&& is_str(member_value(j, 2), b.artifact@)
            &&& is_str(member_value(j, 3), b.descriptor@)
            &&& is_str(member_value(j, 4), output_name(b.output))
            &&& is_str(member_value(j, 5), required_name(b.requires))
            &&& is_str(member_value(j, 6), normalization_name(b.normalization))
            &&& is_str(
                member_value(j, 7),
                match b.calibration {
                    BoundCalibration::NoCalibration => "none"@,
                    BoundCalibration::Bound { id, .. } => id@,
                },
            )
            &&& member_value(j, 8) == Json::Bool(b.fallback_taken)
            &&& member_value(j, 9) == Json::UInt(b.max_requests)
        },
        PlanStepDetail::Unsupported { capability } => {
            &&& has_members(j, seq!["kind"@, "capability"@])
            &&& is_str(member_value(j, 0), "unsupported"@)
            &&& is_str(member_value(j, 1), capability@)
        },
    }
}

/// A JSON string value.
fn text(s: &str) -> (r: Json)
    ensures
        is_str(r, s@),
{
    Json::Str(String::from_str(s))
}

fn derivation_text(d: Derivation) -> (r: &'static str)
    ensures
        r@ == derivation_name(d),
{
    match d {
        Derivation::ExactDerived => "exact-derived",
        Derivation::ModelDerived => "model-derived",
        Derivation::MixedDerived => "mixed-derived",
    }
}

fn output_text(k: OutputKind) -> (r: &'static str)
    ensures
        r@ == output_name(k),
{
    match k {
        OutputKind::Label => "label",
        OutputKind::Scores => "scores",
        OutputKind::Distribution => "distribution",
        OutputKind::Logits => "logits",
    }
}

fn required_text(k: RequiredKind) -> (r: &'static str)
    ensures
        r@ == required_name(k),
{
    match k {
        RequiredKind::Label => "label",
        RequiredKind::Distribution => "distribution",
        RequiredKind::CalibratedProbability => "calibrated_probability",
        RequiredKind::OrdinalDistribution => "ordinal_distribution",
        RequiredKind::Scores => "scores",
    }
}

fn normalization_text(n: Normalization) -> (r: &'static str)
    ensures
        r@ == normalization_name(n),
{
    match n {
        Normalization::NoNormalization => "none",
        Normalization::Softmax1 => "softmax/1",
    }
}

/// One compiled step as `plan show` prints it: `{"id", "derivation",
/// "detail"}`.
pub fn step_json(step: &PlanStep) -> (r: Json)
    ensures
        has_members(r, seq!["id"@, "derivation"@, "detail"@]),
        is_str(member_value(r, 0), step.id@),
        is_str(member_value(r, 1), derivation_name(step.derivation)),
        detail_output(member_value(r, 2), step.detail),
{
    let detail = match &step.detail {
        PlanStepDetail::Exact { op, version } => {
            let es = vec![
                (String::from_str("kind"), text("exact")),
                (String::from_str("op"), text(op.as_str())),
                (String::from_str("version"), Json::UInt(*version as u64)),
            ];
            proof {
                assert(member_keys(es@) =~= seq!["kind"@, "op"@, "version"@]);
            }
            Json::Object(es)
        },
        PlanStepDetail::Semantic(b) => {
            let calibration = match &b.calibration {
                BoundCalibration::NoCalibration => text("none"),
                BoundCalibration::Bound { id, .. } => text(id.as_str()),
            };
            let es = vec![
                (String::from_str("kind"), text("semantic")),
                (String::from_str("backend_id"), text(b.backend_id.as_str())),
                (String::from_str("artifact"), text(b.artifact.as_str())),
                (String::from_str("descriptor"), text(b.descriptor.as_str())),
                (String::from_str("output"), text(output_text(b.output))),
                (String::from_str("requires"), text(required_text(b.requires))),
                (String::from_str("normalization"), text(normalization_text(b.normalization))),
                (String::from_str("calibration"), calibration),
                (String::from_str("fallback_taken"), Json::Bool(b.fallback_taken)),
                (String::from_str("max_requests"), Json::UInt(b.max_requests)),
            ];
            proof {
                assert(member_keys(es@) =~= seq![
                    "kind"@,
                    "backend_id"@,
                    "artifact"@,
                    "descriptor"@,
                    "output"@,
                    "requires"@,
                    "normalization"@,
                    "calibration"@,
                    "fallback_taken"@,
                    "max_requests"@,
                ]);
            }
            Json::Object(es)
        },
        PlanStepDetail::Unsupported { capability } => {
            let es = vec![
                (String::from_str("kind"), text("unsupported")),
                (String::from_str("capability"), text(capability.as_str())),
            ];
            proof {
                assert(member_keys(es@) =~= seq!["kind"@, "capability"@]);
            }
            Json::Object(es)
        },
    };
    let es = vec![
        (String::from_str("id"), text(step.id.as_str())),
        (String::from_str("derivation"), text(derivation_text(step.derivation))),
        (String::from_str("detail"), detail),
    ];
    proof {
        assert(member_keys(es@) =~= seq!["id"@, "derivation"@, "detail"@]);
    }
    Json::Object(es)
}

} // verus!
