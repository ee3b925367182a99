//! The plan check a host runs at setup: every semantic step a plan binds to
//! this backend, as primary or as runtime fallback target, must name a task
//! of the program with the same operation, question and options, and each
//! field of that task must read a reference the step projects, at a type
//! the definition declares there.
use vstd::prelude::*;

use vstd::utf8::{decode_utf8, encode_utf8_decode_utf8};

use crate::canonical::{tagged_digest, tagged_text};
use crate::definition::{
    Definition, FieldDecl, ForEach, InputDecl, ItemSource, Operation, SemanticDecl, StepBody,
    StepDecl, TypeDecl,
};
use crate::order::{str_eq, strings_eq, texts};
use crate::plan::{FallbackTarget, Plan, PlanExecution, PlanStep, PlanStepDetail};
use crate::rules::backend::{PlanMismatch, PlanMismatchKind, RulesBackend};
use crate::rules::program::{has_prefix, starts_with_text, CField, CTask, FieldType};
use crate::rules::projection::{find_task, task_named};
use crate::schema;
use crate::text::join3;

verus! {

/// A mismatch kind as plain values.
pub enum KindModel {
    Descriptor,
    NoTask(Seq<char>),
    TaskDiffers(Seq<char>),
    NotProjected(Seq<char>, Seq<char>),
    Incompatible(Seq<char>, Seq<char>),
}

/// A mismatch kind as plain values.
pub open spec fn kind_model(k: PlanMismatchKind) -> KindModel {
    match k {
        PlanMismatchKind::Descriptor => KindModel::Descriptor,
        PlanMismatchKind::NoTask(t) => KindModel::NoTask(t@),
        PlanMismatchKind::TaskDiffers(w) => KindModel::TaskDiffers(w@),
        PlanMismatchKind::NotProjected { field, reference } => KindModel::NotProjected(
            field@,
            reference@,
        ),
        PlanMismatchKind::Incompatible { field, reference } => KindModel::Incompatible(
            field@,
            reference@,
        ),
    }
}

/// A mismatch as its step and kind.
pub open spec fn mismatch_model(m: PlanMismatch) -> (Seq<char>, KindModel) {
    (m.step@, kind_model(m.kind))
}

/// Each kind paired with `step`.
pub open spec fn at_step(step: Seq<char>, ks: Seq<KindModel>) -> Seq<(Seq<char>, KindModel)> {
    ks.map_values(|k: KindModel| (step, k))
}

/// The reference a task field reads: its key, then `/` and its member.
pub open spec fn field_reference(f: CField) -> Seq<char> {
    match f.member {
        Some(m) => f.key@ + "/"@ + m@,
        None => f.key@,
    }
}

/// The type of the first input named `name`, from the `i`th on.
pub open spec fn input_type(inputs: Seq<InputDecl>, name: Seq<char>, i: int) -> Option<TypeDecl>
    decreases inputs.len() - i,
{
    if i < 0 || i >= inputs.len() {
        None
    } else if inputs[i].name@ == name {
        Some(inputs[i].ty)
    } else {
        input_type(inputs, name, i + 1)
    }
}

/// Where the items of the first fan-out binding `bind` come from, from the
/// `i`th on.
pub open spec fn bound_items(fe: Seq<ForEach>, bind: Seq<char>, i: int) -> Option<ItemSource>
    decreases fe.len() - i,
{
    if i < 0 || i >= fe.len() {
        None
    } else if fe[i].bind@ == bind {
        Some(fe[i].items)
    } else {
        bound_items(fe, bind, i + 1)
    }
}

/// The type of the first record field named `m`, from the `i`th on.
pub open spec fn member_type(fields: Seq<FieldDecl>, m: Seq<char>, i: int) -> Option<TypeDecl>
    decreases fields.len() - i,
{
    if i < 0 || i >= fields.len() {
        None
    } else if fields[i].name@ == m {
        Some(fields[i].ty)
    } else {
        member_type(fields, m, i + 1)
    }
}

/// The definition's type at a projection key: an input's type, or the item
/// type of the input list a bound name fans out over.
pub open spec fn declared_type(key: Seq<char>, decl: SemanticDecl, def: Definition) -> Option<TypeDecl> {
    if has_prefix(key, "input:"@) {
        input_type(def.inputs@, key.skip(6), 0)
    } else if has_prefix(key, "bind:"@) {
        match bound_items(decl.for_each@, key.skip(5), 0) {
            Some(ItemSource::List { list, .. }) => if has_prefix(list@, "input:"@) {
                match input_type(def.inputs@, list@.skip(6), 0) {
                    Some(TypeDecl::List { item, .. }) => Some(*item),
                    _ => None,
                }
            } else {
                None
            },
            _ => None,
        }
    } else {
        None
    }
}

/// The type a task field reads: the declared type at its key, or the type
/// of its member in the record declared there.
pub open spec fn read_type(f: CField, decl: SemanticDecl, def: Definition) -> Option<TypeDecl> {
    match declared_type(f.key@, decl, def) {
        None => None,
        Some(t) => match f.member {
            None => Some(t),
            Some(m) => match t {
                TypeDecl::Record { fields } => member_type(fields@, m@, 0),
                _ => None,
            },
        },
    }
}

/// Whether a field type reads values of a declared type.
pub open spec fn compatible(t: TypeDecl, f: FieldType) -> bool {
    match f {
        FieldType::Text => t is Text || t is Enum,
        FieldType::Bool => t is Bool,
        FieldType::Integer => t is Integer || t is Timestamp,
        FieldType::Decimal => t is Decimal,
    }
}

/// What one task field finds wrong with a step.
pub open spec fn field_mismatch(f: CField, decl: SemanticDecl, def: Definition) -> Seq<KindModel> {
    if !texts(decl.project@).contains(f.key@) {
        seq![KindModel::NotProjected(f.name@, field_reference(f))]
    } else if !(read_type(f, decl, def) matches Some(t) && compatible(t, f.ty)) {
        seq![KindModel::Incompatible(f.name@, field_reference(f))]
    } else {
        seq![]
    }
}

/// What the first `n` task fields find wrong with a step, in field order.
pub open spec fn field_mismatches(fields: Seq<CField>, decl: SemanticDecl, def: Definition, n: int) -> Seq<
    KindModel,
>
    decreases n,
{
    if n <= 0 {
        seq![]
    } else {
        field_mismatches(fields, decl, def, n - 1) + field_mismatch(fields[n - 1], decl, def)
    }
}

/// The declaration of the first semantic step with id `step`, from the
/// `i`th step on.
pub open spec fn semantic_decl(steps: Seq<StepDecl>, step: Seq<char>, i: int) -> Option<SemanticDecl>
    decreases steps.len() - i,
{
    if i < 0 || i >= steps.len() {
        None
    } else {
        match steps[i].body {
            StepBody::Semantic(d) => if steps[i].id@ == step {
                Some(d)
            } else {
                semantic_decl(steps, step, i + 1)
            },
            _ => semantic_decl(steps, step, i + 1),
        }
    }
}

/// What a task finds wrong with the step it answers: operation, question,
/// options, then each field.
pub open spec fn task_mismatches(t: CTask, d: SemanticDecl, def: Definition) -> Seq<KindModel> {
    (if t.operation != d.operation {
        seq![KindModel::TaskDiffers("operation"@)]
    } else {
        seq![]
    }) + (if t.question@ != d.question@ {
        seq![KindModel::TaskDiffers("question"@)]
    } else {
        seq![]
    }) + (if texts(t.options@) != texts(d.options@) {
        seq![KindModel::TaskDiffers("options"@)]
    } else {
        seq![]
    }) + field_mismatches(t.fields@, d, def, t.fields@.len() as int)
}

/// What the program's tasks find wrong with one step bound to the backend:
/// a different descriptor, no task of the step's name, or the task's own
/// differences. A step the definition does not declare as semantic is not
/// checked.
pub open spec fn step_mismatches(tasks: Seq<CTask>, def: Definition, step: Seq<char>, same_descriptor: bool) -> Seq<
    KindModel,
> {
    if !same_descriptor {
        seq![KindModel::Descriptor]
    } else {
        match semantic_decl(def.steps@, step, 0) {
            None => seq![],
            Some(d) => match task_named(tasks, d.task@, 0) {
                None => seq![KindModel::NoTask(d.task@)],
                Some(i) => task_mismatches(tasks[i], d, def),
            },
        }
    }
}

/// The steps among the first `n` whose primary target is backend `me`, each
/// with whether its bound descriptor identity is `mine`.
pub open spec fn primary_bindings(steps: Seq<PlanStep>, me: Seq<char>, mine: Option<Seq<char>>, n: int) -> Seq<
    (Seq<char>, bool),
>
    decreases n,
{
    if n <= 0 {
        seq![]
    } else {
        let rest = primary_bindings(steps, me, mine, n - 1);
        match steps[n - 1].detail {
            PlanStepDetail::Semantic(b) => if b.backend_id@ == me {
                rest.push((steps[n - 1].id@, mine == Some(b.descriptor@)))
            } else {
                rest
            },
            _ => rest,
        }
    }
}

/// `bound` with the first `n` runtime fallback targets naming `me` added
/// in order, each pair of step and descriptor sameness once.
pub open spec fn with_fallbacks(
    bound: Seq<(Seq<char>, bool)>,
    fbs: Seq<FallbackTarget>,
    me: Seq<char>,
    mine: Option<Seq<char>>,
    n: int,
) -> Seq<(Seq<char>, bool)>
    decreases n,
{
    if n <= 0 {
        bound
    } else {
        let rest = with_fallbacks(bound, fbs, me, mine, n - 1);
        let e = (fbs[n - 1].step@, mine == Some(fbs[n - 1].descriptor@));
        if fbs[n - 1].backend_id@ == me && !rest.contains(e) {
            rest.push(e)
        } else {
            rest
        }
    }
}

/// Every step `plan` binds to backend `me`, primary targets first, each
/// with whether the plan binds it to descriptor identity `mine`.
pub open spec fn plan_bindings(plan: Plan, me: Seq<char>, mine: Option<Seq<char>>) -> Seq<(Seq<char>, bool)> {
    let p = primary_bindings(plan.steps@, me, mine, plan.steps@.len() as int);
    match plan.execution {
        PlanExecution::Declared(d) => with_fallbacks(p, d.fallbacks@, me, mine, d.fallbacks@.len() as int),
        PlanExecution::NoPolicy => p,
    }
}

/// The mismatches of the first `n` bindings, each with its step.
pub open spec fn binding_mismatches(
    bound: Seq<(Seq<char>, bool)>,
    tasks: Seq<CTask>,
    def: Definition,
    n: int,
) -> Seq<(Seq<char>, KindModel)>
    decreases n,
{
    if n <= 0 {
        seq![]
    } else {
        binding_mismatches(bound, tasks, def, n - 1) + at_step(
            bound[n - 1].0,
            step_mismatches(tasks, def, bound[n - 1].0, bound[n - 1].1),
        )
    }
}

/// Every way `plan`'s use of backend `me`, whose descriptor identity is
/// `mine`, does not match the program's `tasks`.
pub open spec fn plan_mismatches(tasks: Seq<CTask>, me: Seq<char>, mine: Option<Seq<char>>, plan: Plan) -> Seq<
    (Seq<char>, KindModel),
> {
    let b = plan_bindings(plan, me, mine);
    binding_mismatches(b, tasks, plan.definition, b.len() as int)
}

/// A descriptor's identity from its canonical bytes, if they could be written.
pub open spec fn identity_of(canonical: Option<Seq<u8>>) -> Option<Seq<char>> {
    match canonical {
        Some(c) => Some(decode_utf8(tagged_text(schema::BACKEND@, c))),
        None => None,
    }
}

/// A descriptor's identity from its canonical bytes, if they could be written.
pub open spec fn descriptor_identity(canonical: Option<&[u8]>) -> Option<Seq<char>> {
    identity_of(
        match canonical {
            Some(c) => Some(c@),
            None => None,
        },
    )
}

/// Bindings as plain values.
pub open spec fn pairs_view(v: Seq<(String, bool)>) -> Seq<(Seq<char>, bool)> {
    v.map_values(|e: (String, bool)| (e.0@, e.1))
}

/// Mismatches as plain values.
pub open spec fn mismatches_view(v: Seq<PlanMismatch>) -> Seq<(Seq<char>, KindModel)> {
    v.map_values(|m: PlanMismatch| mismatch_model(m))
}

/// The type of the first input named `name`.
fn find_input_type<'a>(inputs: &'a Vec<InputDecl>, name: &str) -> (r: Option<&'a TypeDecl>)
    ensures
        match input_type(inputs@, name@, 0) {
            Some(t) => r matches Some(x) && *x == t,
            None => r is None,
        },
{
    let mut i: usize = 0;
    while i < inputs.len()
        invariant
            i <= inputs@.len(),
            input_type(inputs@, name@, 0) == input_type(inputs@, name@, i as int),
        decreases inputs@.len() - i,
    {
        if str_eq(inputs[i].name.as_str(), name) {
            return Some(&inputs[i].ty);
        }
        i = i + 1;
    }
    None
}

/// Where the items of the first fan-out binding `bind` come from.
fn find_bound_items<'a>(fe: &'a Vec<ForEach>, bind: &str) -> (r: Option<&'a ItemSource>)
    ensures
        match bound_items(fe@, bind@, 0) {
            Some(t) => r matches Some(x) && *x == t,
            None => r is None,
        },
{
    let mut i: usize = 0;
    while i < fe.len()
        invariant
            i <= fe@.len(),
            bound_items(fe@, bind@, 0) == bound_items(fe@, bind@, i as int),
        decreases fe@.len() - i,
    {
        if str_eq(fe[i].bind.as_str(), bind) {
            return Some(&fe[i].items);
        }
        i = i + 1;
    }
    None
}

/// The type of the first record field named `m`.
fn find_member_type<'a>(fields: &'a Vec<FieldDecl>, m: &str) -> (r: Option<&'a TypeDecl>)
    ensures
        match member_type(fields@, m@, 0) {
            Some(t) => r matches Some(x) && *x == t,
            None => r is None,
        },
{
    let mut i: usize = 0;
    while i < fields.len()
        invariant
            i <= fields@.len(),
            member_type(fields@, m@, 0) == member_type(fields@, m@, i as int),
        decreases fields@.len() - i,
    {
        if str_eq(fields[i].name.as_str(), m) {
            return Some(&fields[i].ty);
        }
        i = i + 1;
    }
    None
}

/// The definition's type at a projection key.
fn find_declared_type<'a>(key: &str, decl: &SemanticDecl, def: &'a Definition) -> (r: Option<&'a TypeDecl>)
    ensures
        match declared_type(key@, *decl, *def) {
            Some(t) => r matches Some(x) && *x == t,
            None => r is None,
        },
{
    proof {
        reveal_strlit("input:");
        reveal_strlit("bind:");
    }
    let n = key.unicode_len();
    if starts_with_text(key, "input:") {
        return find_input_type(&def.inputs, key.substring_char(6, n));
    }
    if !starts_with_text(key, "bind:") {
        return None;
    }
    match find_bound_items(&decl.for_each, key.substring_char(5, n)) {
        Some(ItemSource::List { list, .. }) => {
            if !starts_with_text(list.as_str(), "input:") {
                return None;
            }
            let ln = list.unicode_len();
            match find_input_type(&def.inputs, list.as_str().substring_char(6, ln)) {
                Some(TypeDecl::List { item, .. }) => Some(&**item),
                _ => None,
            }
        },
        _ => None,
    }
}

/// The type a task field reads.
fn find_read_type<'a>(f: &CField, decl: &SemanticDecl, def: &'a Definition) -> (r: Option<&'a TypeDecl>)
    ensures
        match read_type(*f, *decl, *def) {
            Some(t) => r matches Some(x) && *x == t,
            None => r is None,
        },
{
    match find_declared_type(f.key.as_str(), decl, def) {
        None => None,
        Some(t) => match &f.member {
            None => Some(t),
            Some(m) => match t {
                TypeDecl::Record { fields } => find_member_type(fields, m.as_str()),
                _ => None,
            },
        },
    }
}

/// Whether a field type reads values of a declared type.
fn is_compatible(t: &TypeDecl, f: FieldType) -> (r: bool)
    ensures
        r == compatible(*t, f),
{
    match (t, f) {
        (TypeDecl::Text { .. }, FieldType::Text) => true,
        (TypeDecl::Enum { .. }, FieldType::Text) => true,
        (TypeDecl::Bool, FieldType::Bool) => true,
        (TypeDecl::Integer, FieldType::Integer) => true,
        (TypeDecl::Timestamp, FieldType::Integer) => true,
        (TypeDecl::Decimal, FieldType::Decimal) => true,
        _ => false,
    }
}

/// Whether `key` is among the projected references.
fn projects(project: &Vec<String>, key: &str) -> (r: bool)
    ensures
        r == texts(project@).contains(key@),
{
    let mut i: usize = 0;
    while i < project.len()
        invariant
            i <= project@.len(),
            forall|k: int| 0 <= k < i ==> texts(project@)[k] != key@,
        decreases project@.len() - i,
    {
        if str_eq(project[i].as_str(), key) {
            proof {
                assert(texts(project@)[i as int] == key@);
            }
            return true;
        }
        i = i + 1;
    }
    false
}

/// Whether two operations are the same.
fn same_operation(a: Operation, b: Operation) -> (r: bool)
    ensures
        r == (a == b),
{
    match (a, b) {
        (Operation::Classify, Operation::Classify) => true,
        (Operation::Proposition, Operation::Proposition) => true,
        (Operation::Rubric, Operation::Rubric) => true,
        (Operation::Rank, Operation::Rank) => true,
        _ => false,
    }
}

/// Add a mismatch of `kind` at `step`.
fn push_kind(out: &mut Vec<PlanMismatch>, step: &str, kind: PlanMismatchKind)
    ensures
        mismatches_view(final(out)@) == mismatches_view(old(out)@).push((step@, kind_model(kind))),
{
    let ghost before = out@;
    out.push(PlanMismatch { step: String::from_str(step), kind });
    proof {
        assert(mismatches_view(out@) =~= mismatches_view(before).push((step@, kind_model(kind))));
    }
}

/// The reference text of a task field.
fn reference_of(f: &CField) -> (r: String)
    ensures
        r@ == field_reference(*f),
{
    match &f.member {
        Some(m) => join3(f.key.as_str(), "/", m.as_str()),
        None => String::from_str(f.key.as_str()),
    }
}

/// Add what each task field finds wrong with a step.
fn check_fields(out: &mut Vec<PlanMismatch>, step: &str, task: &CTask, decl: &SemanticDecl, def: &Definition)
    ensures
        mismatches_view(final(out)@) == mismatches_view(old(out)@) + at_step(
            step@,
            field_mismatches(task.fields@, *decl, *def, task.fields@.len() as int),
        ),
{
    let ghost base = mismatches_view(out@);
    let mut i: usize = 0;
    while i < task.fields.len()
        invariant
            i <= task.fields@.len(),
            mismatches_view(out@) == base + at_step(step@, field_mismatches(task.fields@, *decl, *def, i as int)),
        decreases task.fields@.len() - i,
    {
        let f = &task.fields[i];
        let ghost before = field_mismatches(task.fields@, *decl, *def, i as int);
        let ghost one = field_mismatch(*f, *decl, *def);
        if !projects(&decl.project, f.key.as_str()) {
            push_kind(
                out,
                step,
                PlanMismatchKind::NotProjected { field: String::from_str(f.name.as_str()), reference: reference_of(f) },
            );
        } else {
            let ok = match find_read_type(f, decl, def) {
                Some(t) => is_compatible(t, f.ty),
                None => false,
            };
            if !ok {
                push_kind(
                    out,
                    step,
                    PlanMismatchKind::Incompatible { field: String::from_str(f.name.as_str()), reference: reference_of(f) },
                );
            }
        }
        proof {
            assert(field_mismatches(task.fields@, *decl, *def, i + 1) == before + one);
            assert(at_step(step@, before + one) =~= at_step(step@, before) + at_step(step@, one));
            assert(mismatches_view(out@) =~= base + at_step(step@, before) + at_step(step@, one));
        }
        i = i + 1;
    }
}

/// The declaration of the first semantic step with id `step`.
fn find_semantic_decl<'a>(steps: &'a Vec<StepDecl>, step: &str) -> (r: Option<&'a SemanticDecl>)
    ensures
        match semantic_decl(steps@, step@, 0) {
            Some(d) => r matches Some(x) && *x == d,
            None => r is None,
        },
{
    let mut i: usize = 0;
    while i < steps.len()
        invariant
            i <= steps@.len(),
            semantic_decl(steps@, step@, 0) == semantic_decl(steps@, step@, i as int),
        decreases steps@.len() - i,
    {
        match &steps[i].body {
            StepBody::Semantic(d) => {
                if str_eq(steps[i].id.as_str(), step) {
                    return Some(d);
                }
            },
            _ => {},
        }
        i = i + 1;
    }
    None
}

/// Add what the program's tasks find wrong with one step bound to the
/// backend.
fn check_step(out: &mut Vec<PlanMismatch>, step: &str, same_descriptor: bool, tasks: &Vec<CTask>, def: &Definition)
    ensures
        mismatches_view(final(out)@) == mismatches_view(old(out)@) + at_step(
            step@,
            step_mismatches(tasks@, *def, step@, same_descriptor),
        ),
{
    let ghost base = mismatches_view(out@);
    if !same_descriptor {
        push_kind(out, step, PlanMismatchKind::Descriptor);
        proof {
            assert(at_step(step@, seq![KindModel::Descriptor]) =~= seq![(step@, KindModel::Descriptor)]);
        }
        return;
    }
    let decl = match find_semantic_decl(&def.steps, step) {
        Some(d) => d,
        None => {
            proof {
                assert(at_step(step@, seq![]) =~= seq![]);
                assert(mismatches_view(out@) =~= base + seq![]);
            }
            return;
        },
    };
    let i = match find_task(tasks, decl.task.as_str()) {
        Some(i) => i,
        None => {
            push_kind(out, step, PlanMismatchKind::NoTask(String::from_str(decl.task.as_str())));
            proof {
                assert(at_step(step@, seq![KindModel::NoTask(decl.task@)]) =~= seq![(step@, KindModel::NoTask(decl.task@))]);
            }
            return;
        },
    };
    let task = &tasks[i];
    let ghost t = tasks@[i as int];
    let ghost d = *decl;
    let ghost k1 = if t.operation != d.operation {
        seq![KindModel::TaskDiffers("operation"@)]
    } else {
        seq![]
    };
    let ghost k2 = if t.question@ != d.question@ {
        seq![KindModel::TaskDiffers("question"@)]
    } else {
        seq![]
    };
    let ghost k3 = if texts(t.options@) != texts(d.options@) {
        seq![KindModel::TaskDiffers("options"@)]
    } else {
        seq![]
    };
    if !same_operation(task.operation, decl.operation) {
        push_kind(out, step, PlanMismatchKind::TaskDiffers("operation"));
    }
    proof {
        assert(mismatches_view(out@) =~= base + at_step(step@, k1));
    }
    if !str_eq(task.question.as_str(), decl.question.as_str()) {
        push_kind(out, step, PlanMismatchKind::TaskDiffers("question"));
    }
    proof {
        assert(at_step(step@, k1 + k2) =~= at_step(step@, k1) + at_step(step@, k2));
        assert(mismatches_view(out@) =~= base + at_step(step@, k1 + k2));
    }
    if !strings_eq(&task.options, &decl.options) {
        push_kind(out, step, PlanMismatchKind::TaskDiffers("options"));
    }
    proof {
        assert(at_step(step@, k1 + k2 + k3) =~= at_step(step@, k1 + k2) + at_step(step@, k3));
        assert(mismatches_view(out@) =~= base + at_step(step@, k1 + k2 + k3));
    }
    let ghost mid = mismatches_view(out@);
    check_fields(out, step, task, decl, def);
    proof {
        let fm = field_mismatches(t.fields@, d, *def, t.fields@.len() as int);
        assert(task_mismatches(t, d, *def) == k1 + k2 + k3 + fm);
        assert(at_step(step@, k1 + k2 + k3 + fm) =~= at_step(step@, k1 + k2 + k3) + at_step(step@, fm));
        assert(mismatches_view(out@) =~= base + at_step(step@, k1 + k2 + k3 + fm));
    }
}

/// Whether `bound` holds the pair of `step` and `same`.
fn has_binding(bound: &Vec<(String, bool)>, step: &str, same: bool) -> (r: bool)
    ensures
        r == pairs_view(bound@).contains((step@, same)),
{
    let mut i: usize = 0;
    while i < bound.len()
        invariant
            i <= bound@.len(),
            forall|k: int| 0 <= k < i ==> pairs_view(bound@)[k] != (step@, same),
        decreases bound@.len() - i,
    {
        if bound[i].1 == same && str_eq(bound[i].0.as_str(), step) {
            proof {
                assert(pairs_view(bound@)[i as int] == (step@, same));
            }
            return true;
        }
        i = i + 1;
    }
    false
}

/// Whether the plan binds descriptor `d` where this backend's identity is
/// `mine`.
fn is_mine(mine: &Option<String>, d: &str) -> (r: bool)
    ensures
        r == (match mine {
            Some(m) => Some(m@),
            None => None::<Seq<char>>,
        } == Some(d@)),
{
    match mine {
        Some(m) => str_eq(m.as_str(), d),
        None => false,
    }
}

impl RulesBackend {
    /// Check every semantic step `plan` binds to this backend, as primary or
    /// as runtime fallback target, against the program. The caller passes
    /// the canonical bytes of this backend's descriptor, or `None` where
    /// they could not be written, in which case no bound descriptor is this
    /// backend's. Every mismatch is returned, in binding order; a plan that
    /// does not use this backend passes.
    pub fn check_plan(&self, plan: &Plan, descriptor_canonical: Option<&[u8]>) -> (r: Result<(), Vec<PlanMismatch>>)
        ensures
            r is Ok <==> plan_mismatches(
                self.tasks_view(),
                self.descriptor_view().backend_id@,
                descriptor_identity(descriptor_canonical),
                *plan,
            ).len() == 0,
            r matches Err(v) ==> mismatches_view(v@) == plan_mismatches(
                self.tasks_view(),
                self.descriptor_view().backend_id@,
                descriptor_identity(descriptor_canonical),
                *plan,
            ),
    {
        let me = self.descriptor().backend_id.as_str();
        let tasks = self.tasks();
        let ghost mine = descriptor_identity(descriptor_canonical);
        let my: Option<String> = match descriptor_canonical {
            Some(c) => {
                let d = tagged_digest(schema::BACKEND, c);
                proof {
                    encode_utf8_decode_utf8(d@);
                }
                Some(d)
            },
            None => None,
        };
        assert(match my {
            Some(m) => Some(m@),
            None => None::<Seq<char>>,
        } == mine);
        let mut bound: Vec<(String, bool)> = Vec::new();
        let mut i: usize = 0;
        while i < plan.steps.len()
            invariant
                i <= plan.steps@.len(),
                match my {
                    Some(m) => Some(m@),
                    None => None::<Seq<char>>,
                } == mine,
                pairs_view(bound@) == primary_bindings(plan.steps@, me@, mine, i as int),
            decreases plan.steps@.len() - i,
        {
            let s = &plan.steps[i];
            let ghost before = bound@;
            match &s.detail {
                PlanStepDetail::Semantic(b) => {
                    if str_eq(b.backend_id.as_str(), me) {
                        let same = is_mine(&my, b.descriptor.as_str());
                        bound.push((String::from_str(s.id.as_str()), same));
                        proof {
                            assert(pairs_view(bound@) =~= pairs_view(before).push((s.id@, same)));
                        }
                    }
                },
                _ => {},
            }
            i = i + 1;
        }
        match &plan.execution {
            PlanExecution::Declared(d) => {
                let ghost p = pairs_view(bound@);
                let mut j: usize = 0;
                while j < d.fallbacks.len()
                    invariant
                        j <= d.fallbacks@.len(),
                        match my {
                            Some(m) => Some(m@),
                            None => None::<Seq<char>>,
                        } == mine,
                        pairs_view(bound@) == with_fallbacks(p, d.fallbacks@, me@, mine, j as int),
                    decreases d.fallbacks@.len() - j,
                {
                    let f = &d.fallbacks[j];
                    let ghost before = bound@;
                    if str_eq(f.backend_id.as_str(), me) {
                        let same = is_mine(&my, f.descriptor.as_str());
                        if !has_binding(&bound, f.step.as_str(), same) {
                            bound.push((String::from_str(f.step.as_str()), same));
                            proof {
                                assert(pairs_view(bound@) =~= pairs_view(before).push((f.step@, same)));
                            }
                        }
                    }
                    j = j + 1;
                }
            },
            PlanExecution::NoPolicy => {},
        }
        let ghost b = pairs_view(bound@);
        assert(b == plan_bindings(*plan, me@, mine));
        let mut out: Vec<PlanMismatch> = Vec::new();
        let mut k: usize = 0;
        while k < bound.len()
            invariant
                k <= bound@.len(),
                b == pairs_view(bound@),
                mismatches_view(out@) == binding_mismatches(b, tasks@, plan.definition, k as int),
            decreases bound@.len() - k,
        {
            check_step(&mut out, bound[k].0.as_str(), bound[k].1, tasks, &plan.definition);
            k = k + 1;
        }
        if out.len() == 0 {
            Ok(())
        } else {
            Err(out)
        }
    }
}

proof fn lemma_with_fallbacks(
    bound: Seq<(Seq<char>, bool)>,
    fbs: Seq<FallbackTarget>,
    me: Seq<char>,
    mine: Option<Seq<char>>,
    n: int,
)
    requires
        0 <= n <= fbs.len(),
    ensures
        with_fallbacks(bound, fbs, me, mine, n).len() >= bound.len(),
        with_fallbacks(bound, fbs, me, mine, n).subrange(0, bound.len() as int) == bound,
        forall|k: int|
            0 <= k < n && (#[trigger] fbs[k]).backend_id@ == me ==> with_fallbacks(bound, fbs, me, mine, n).contains(
                (fbs[k].step@, mine == Some(fbs[k].descriptor@)),
            ),
        forall|i: int, j: int|
            bound.len() <= i < j < with_fallbacks(bound, fbs, me, mine, n).len() ==> with_fallbacks(
                bound,
                fbs,
                me,
                mine,
                n,
            )[i] != with_fallbacks(bound, fbs, me, mine, n)[j],
        forall|i: int, j: int|
            0 <= i < bound.len() <= j < with_fallbacks(bound, fbs, me, mine, n).len() ==> bound[i]
                != with_fallbacks(bound, fbs, me, mine, n)[j],
    decreases n,
{
    if n > 0 {
        lemma_with_fallbacks(bound, fbs, me, mine, n - 1);
        let rest = with_fallbacks(bound, fbs, me, mine, n - 1);
        let e = (fbs[n - 1].step@, mine == Some(fbs[n - 1].descriptor@));
        let r = with_fallbacks(bound, fbs, me, mine, n);
        if fbs[n - 1].backend_id@ == me && !rest.contains(e) {
            assert(r == rest.push(e));
            assert(r.subrange(0, bound.len() as int) =~= rest.subrange(0, bound.len() as int));
            assert forall|k: int| 0 <= k < n && (#[trigger] fbs[k]).backend_id@ == me implies r.contains(
                (fbs[k].step@, mine == Some(fbs[k].descriptor@)),
            ) by {
                if k < n - 1 {
                    let x = (fbs[k].step@, mine == Some(fbs[k].descriptor@));
                    let w = choose|w: int| 0 <= w < rest.len() && rest[w] == x;
                    assert(r[w] == x);
                } else {
                    assert(r[rest.len() as int] == e);
                }
            }
            assert forall|i: int, j: int| 0 <= i < bound.len() <= j < r.len() implies bound[i] != r[j] by {
                if j == rest.len() {
                    assert(rest[i] == bound[i]);
                    if bound[i] == e {
                        assert(rest.contains(e));
                    }
                }
            }
            assert forall|i: int, j: int| bound.len() <= i < j < r.len() implies r[i] != r[j] by {
                if j == rest.len() {
                    if r[i] == e {
                        assert(rest[i] == e);
                        assert(rest.contains(e));
                    }
                }
            }
        } else {
            assert(r == rest);
            assert forall|k: int| 0 <= k < n && (#[trigger] fbs[k]).backend_id@ == me implies r.contains(
                (fbs[k].step@, mine == Some(fbs[k].descriptor@)),
            ) by {
                if k == n - 1 {
                    assert(rest.contains(e));
                }
            }
        }
    }
}

/// Every runtime fallback target that names this backend is checked, and
/// a step reached as a fallback target is checked once however often it
/// is reached: what the fallbacks add to the primary bindings names each
/// pair of step and descriptor sameness once, and none the primary
/// bindings already name.
pub proof fn law_fallback_targets_are_checked_once(plan: Plan, me: Seq<char>, mine: Option<Seq<char>>)
    requires
        plan.execution is Declared,
    ensures
        ({
            let p = primary_bindings(plan.steps@, me, mine, plan.steps@.len() as int);
            let b = plan_bindings(plan, me, mine);
            let fbs = plan.execution->Declared_0.fallbacks@;
            &&& b.subrange(0, p.len() as int) == p
            &&& forall|k: int|
                0 <= k < fbs.len() && (#[trigger] fbs[k]).backend_id@ == me ==> b.contains(
                    (fbs[k].step@, mine == Some(fbs[k].descriptor@)),
                )
            &&& forall|i: int, j: int| p.len() <= i < j < b.len() ==> b[i] != b[j]
            &&& forall|i: int, j: int| 0 <= i < p.len() <= j < b.len() ==> p[i] != b[j]
        }),
{
    let p = primary_bindings(plan.steps@, me, mine, plan.steps@.len() as int);
    let fbs = plan.execution->Declared_0.fallbacks@;
    lemma_with_fallbacks(p, fbs, me, mine, fbs.len() as int);
}

/// A plan that binds no step to this backend, as primary or as fallback
/// target, passes the check.
pub proof fn law_an_unused_backend_passes(tasks: Seq<CTask>, me: Seq<char>, mine: Option<Seq<char>>, plan: Plan)
    requires
        plan_bindings(plan, me, mine).len() == 0,
    ensures
        plan_mismatches(tasks, me, mine, plan).len() == 0,
{
}


/// The field type a declared value is carried as in a projection: text and
/// enumeration values as JSON strings, integers and timestamps (in
/// milliseconds) as integers, booleans and decimals as themselves; lists
/// and records are no single field.
pub open spec fn carried_as(t: TypeDecl) -> Option<FieldType> {
    match t {
        TypeDecl::Bool => Some(FieldType::Bool),
        TypeDecl::Integer => Some(FieldType::Integer),
        TypeDecl::Timestamp => Some(FieldType::Integer),
        TypeDecl::Decimal => Some(FieldType::Decimal),
        TypeDecl::Text { .. } => Some(FieldType::Text),
        TypeDecl::Enum { .. } => Some(FieldType::Text),
        TypeDecl::List { .. } => None,
        TypeDecl::Record { .. } => None,
    }
}

/// A rules field reads a declared type exactly when the type is carried as
/// the field's type: a text field reads text and enumeration inputs, an
/// integer field integer and timestamp inputs, a boolean field booleans and
/// a decimal field decimals. So a projected field whose declared type is
/// carried as its own type is no mismatch, and one whose type is not is an
/// incompatible field.
pub proof fn law_fields_read_the_types_carried_as_them(f: CField, decl: SemanticDecl, def: Definition, t: TypeDecl)
    requires
        texts(decl.project@).contains(f.key@),
        read_type(f, decl, def) == Some(t),
    ensures
        forall|ft: FieldType| compatible(t, ft) <==> carried_as(t) == Some(ft),
        carried_as(t) == Some(f.ty) ==> field_mismatch(f, decl, def) == Seq::<KindModel>::empty(),
        carried_as(t) != Some(f.ty) ==> field_mismatch(f, decl, def) == seq![
            KindModel::Incompatible(f.name@, field_reference(f)),
        ],
{
}

} // verus!
