//! What `calibrate fit` reads from a reproduced plan: the target a
//! temperature is fitted for.
use vstd::prelude::*;

use crate::definition::{StepBody, StepDecl};
use crate::order::{str_eq, texts};
use crate::plan::{Plan, PlanStep, PlanStepDetail};
use crate::rules::program::clone_strings;
use crate::ids::ArtifactId;

verus! {

/// The index of the first plan step with id `step`, from the `i`th on.
pub open spec fn plan_step_at(steps: Seq<PlanStep>, step: Seq<char>, i: int) -> Option<int>
    decreases steps.len() - i,
{
    if i < 0 || i >= steps.len() {
        None
    } else if steps[i].id@ == step {
        Some(i)
    } else {
        plan_step_at(steps, step, i + 1)
    }
}

/// The index of the first declared step with id `step`, from the `i`th on.
pub open spec fn decl_at(steps: Seq<StepDecl>, step: Seq<char>, i: int) -> Option<int>
    decreases steps.len() - i,
{
    if i < 0 || i >= steps.len() {
        None
    } else if steps[i].id@ == step {
        Some(i)
    } else {
        decl_at(steps, step, i + 1)
    }
}

/// The fit target of `step` in `plan`, as plain values: the artifact of its
/// primary binding, its task and its options. `None` unless the plan's
/// first step of that id is bound semantically and the definition's first
/// step of that id is semantic.
pub open spec fn fit_target(plan: Plan, step: Seq<char>) -> Option<(Seq<char>, Seq<char>, Seq<Seq<char>>)> {
    match plan_step_at(plan.steps@, step, 0) {
        None => None,
        Some(i) => match plan.steps@[i].detail {
            PlanStepDetail::Semantic(b) => match decl_at(plan.definition.steps@, step, 0) {
                None => None,
                Some(j) => match plan.definition.steps@[j].body {
                    StepBody::Semantic(d) => Some((b.artifact@, d.task@, texts(d.options@))),
                    _ => None,
                },
            },
            _ => None,
        },
    }
}

/// The first plan step with id `step`.
fn find_plan_step(steps: &Vec<PlanStep>, step: &str) -> (r: Option<usize>)
    ensures
        r matches Some(i) ==> i < steps@.len() && plan_step_at(steps@, step@, 0) == Some(i as int),
        r is None ==> plan_step_at(steps@, step@, 0) is None,
{
    let mut i: usize = 0;
    while i < steps.len()
        invariant
            i <= steps@.len(),
            plan_step_at(steps@, step@, 0) == plan_step_at(steps@, step@, i as int),
        decreases steps@.len() - i,
    {
        if str_eq(steps[i].id.as_str(), step) {
            return Some(i);
        }
        i = i + 1;
    }
    None
}

/// The first declared step with id `step`.
fn find_decl(steps: &Vec<StepDecl>, step: &str) -> (r: Option<usize>)
    ensures
        r matches Some(i) ==> i < steps@.len() && decl_at(steps@, step@, 0) == Some(i as int),
        r is None ==> decl_at(steps@, step@, 0) is None,
{
    let mut i: usize = 0;
    while i < steps.len()
        invariant
            i <= steps@.len(),
            decl_at(steps@, step@, 0) == decl_at(steps@, step@, i as int),
        decreases steps@.len() - i,
    {
        if str_eq(steps[i].id.as_str(), step) {
            return Some(i);
        }
        i = i + 1;
    }
    None
}

/// The fit target of `step` in `plan`: its primary binding's artifact, its
/// task and its options.
pub fn target_parts(plan: &Plan, step: &str) -> (r: Option<(ArtifactId, String, Vec<String>)>)
    ensures
        match fit_target(*plan, step@) {
            Some(t) => r matches Some(x) && x.0@ == t.0 && x.1@ == t.1 && texts(x.2@) == t.2,
            None => r is None,
        },
{
    let i = match find_plan_step(&plan.steps, step) {
        Some(i) => i,
        None => {
            return None;
        },
    };
    let artifact = match &plan.steps[i].detail {
        PlanStepDetail::Semantic(b) => b.artifact.duplicate(),
        _ => {
            return None;
        },
    };
    let j = match find_decl(&plan.definition.steps, step) {
        Some(j) => j,
        None => {
            return None;
        },
    };
    match &plan.definition.steps[j].body {
        StepBody::Semantic(d) => Some((artifact, String::from_str(d.task.as_str()), clone_strings(&d.options))),
        _ => None,
    }
}

} // verus!
