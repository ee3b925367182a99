//! The rules backend: a validated program, its checked tasks and the
//! descriptor derived from the program alone. The program's digest is the
//! artifact identity a plan binds, so a changed rule, coefficient, lookup
//! value, option mapping, limit or cost can never answer for a plan
//! compiled against the old program.
use vstd::prelude::*;
use vstd::utf8::{decode_utf8, encode_utf8};

use crate::canonical::{tagged_digest, tagged_text};
use crate::definition::{Determinism, Operation};
use crate::descriptor::{BackendDescriptor, InputExcess, InputLimit, OperationSupport, OutputKind};
use crate::ids::{is_digest_bytes, ArtifactId};
use crate::rules::program::{check, program_ok, task_compiled, CTask, ProgramError, RulesProgram, SCHEMA};
use crate::run::{Charge, CostBound, CostModel};
use crate::schema;

verus! {

/// A validated rules program, ready to answer requests.
#[derive(Debug)]
pub struct RulesBackend {
    program: RulesProgram,
    tasks: Vec<CTask>,
    descriptor: BackendDescriptor,
}

/// The most options of any task with operation `op` among the first `n`.
pub open spec fn max_options(tasks: Seq<CTask>, op: Operation, n: int) -> Option<nat>
    decreases n,
{
    if n <= 0 || n > tasks.len() {
        None
    } else {
        let rest = max_options(tasks, op, n - 1);
        if tasks[n - 1].operation == op {
            let here = tasks[n - 1].options@.len();
            match rest {
                Some(m) => Some(if m >= here {
                    m
                } else {
                    here
                }),
                None => Some(here),
            }
        } else {
            rest
        }
    }
}

/// The support entry for `op`, when some task has it.
pub open spec fn support_for(tasks: Seq<CTask>, op: Operation) -> Seq<(Operation, nat)> {
    match max_options(tasks, op, tasks.len() as int) {
        Some(m) => seq![(op, m)],
        None => Seq::empty(),
    }
}

/// The operations a set of tasks answers, classify, proposition and rubric
/// in that order, each with its most options.
pub open spec fn supported(tasks: Seq<CTask>) -> Seq<(Operation, nat)> {
    support_for(tasks, Operation::Classify) + support_for(tasks, Operation::Proposition)
        + support_for(tasks, Operation::Rubric)
}

/// A descriptor's operations as operation and most options.
pub open spec fn support_view(ops: Seq<OperationSupport>) -> Seq<(Operation, nat)> {
    ops.map_values(|o: OperationSupport| (o.operation, o.max_options as nat))
}

impl RulesProgram {
    /// The program's identity, which is the artifact identity of the
    /// backend it configures: the tagged digest of its canonical bytes.
    pub fn artifact_id(&self, canonical: &[u8]) -> (r: ArtifactId)
        ensures
            encode_utf8(r@) == tagged_text(SCHEMA@, canonical@),
    {
        let digest = tagged_digest(SCHEMA, canonical);
        // A tagged digest is always a valid identity.
        let id = ArtifactId::parse(digest.as_str());
        proof {
            assert(id is Ok);
        }
        id.unwrap()
    }
}

/// The most options of the tasks with operation `op`.
fn max_options_of(tasks: &Vec<CTask>, op: Operation) -> (r: Option<u64>)
    ensures
        match max_options(tasks@, op, tasks@.len() as int) {
            Some(m) => r == Some(m as u64) && m <= u64::MAX,
            None => r is None,
        },
{
    let mut best: Option<u64> = None;
    let mut i: usize = 0;
    while i < tasks.len()
        invariant
            i <= tasks@.len(),
            match max_options(tasks@, op, i as int) {
                Some(m) => best == Some(m as u64) && m <= u64::MAX,
                None => best is None,
            },
        decreases tasks@.len() - i,
    {
        let t = &tasks[i];
        let same = match (t.operation, op) {
            (Operation::Classify, Operation::Classify) => true,
            (Operation::Proposition, Operation::Proposition) => true,
            (Operation::Rubric, Operation::Rubric) => true,
            (Operation::Rank, Operation::Rank) => true,
            _ => false,
        };
        if same {
            let here = t.options.len() as u64;
            best = match best {
                Some(m) => Some(if m >= here {
                    m
                } else {
                    here
                }),
                None => Some(here),
            };
        }
        i = i + 1;
    }
    best
}

/// The descriptor, derived from the program alone.
fn derive_descriptor(program: &RulesProgram, tasks: &Vec<CTask>, artifact: ArtifactId) -> (r:
    BackendDescriptor)
    ensures
        r.schema@ == schema::BACKEND@,
        r.backend_id@ == program.backend_id@,
        r.artifact == artifact,
        support_view(r.operations@) == supported(tasks@),
        forall|i: int| 0 <= i < r.operations@.len() ==> (#[trigger] r.operations@[i]).output
            == OutputKind::Logits,
        r.input_limit.max_bytes == program.limits.max_projection_bytes,
        r.input_limit.on_excess == InputExcess::Refuse,
        r.determinism == Determinism::Bitwise,
{
    let mut operations: Vec<OperationSupport> = Vec::new();
    let ops = [Operation::Classify, Operation::Proposition, Operation::Rubric];
    let ghost acc: Seq<(Operation, nat)> = Seq::empty();
    let mut k: usize = 0;
    while k < 3
        invariant
            k <= 3,
            ops@ == seq![Operation::Classify, Operation::Proposition, Operation::Rubric],
            support_view(operations@) == (if k == 0 {
                Seq::<(Operation, nat)>::empty()
            } else if k == 1 {
                support_for(tasks@, Operation::Classify)
            } else if k == 2 {
                support_for(tasks@, Operation::Classify) + support_for(tasks@, Operation::Proposition)
            } else {
                supported(tasks@)
            }),
            forall|i: int| 0 <= i < operations@.len() ==> (#[trigger] operations@[i]).output
                == OutputKind::Logits,
        decreases 3 - k,
    {
        let op = ops[k];
        let ghost before = operations@;
        match max_options_of(tasks, op) {
            Some(max_options) => {
                operations.push(
                    OperationSupport { operation: op, output: OutputKind::Logits, max_options },
                );
                proof {
                    assert(support_view(operations@) =~= support_view(before).push(
                        (op, max_options as nat),
                    ));
                }
            },
            None => {},
        }
        proof {
            assert(support_view(operations@) =~= support_view(before) + support_for(tasks@, op));
        }
        k = k + 1;
    }
    BackendDescriptor {
        schema: schema::BACKEND.to_owned(),
        backend_id: program.backend_id.clone(),
        artifact,
        operations,
        input_limit: InputLimit {
            max_bytes: program.limits.max_projection_bytes,
            on_excess: InputExcess::Refuse,
        },
        determinism: Determinism::Bitwise,
    }
}

impl RulesBackend {
    /// The program is valid, each task is its checked form, and the
    /// descriptor answers for the program's backend id.
    #[verifier::type_invariant]
    spec fn checked(self) -> bool {
        &&& program_ok(self.program)
        &&& self.tasks@.len() == self.program.tasks@.len()
        &&& forall|i: int|
            0 <= i < self.program.tasks@.len() ==> task_compiled(self.program.tasks@[i], #[trigger] self.tasks@[i])
        &&& self.descriptor.backend_id@ == self.program.backend_id@
    }

    /// Validate `program` and derive the descriptor and artifact identity
    /// from it and its canonical bytes. The program is the only input:
    /// there is no other behavior-affecting configuration.
    pub fn new(program: RulesProgram, canonical: &[u8]) -> (r: Result<RulesBackend, ProgramError>)
        ensures
            r is Ok <==> program_ok(program),
            r matches Ok(b) ==> b.program_view() == program && encode_utf8(b.artifact_view())
                == tagged_text(SCHEMA@, canonical@) && b.tasks_view().len() == program.tasks@.len()
                && forall|i: int|
                0 <= i < program.tasks@.len() ==> task_compiled(
                    program.tasks@[i],
                    #[trigger] b.tasks_view()[i],
                ),
    {
        let tasks = match check(&program) {
            Ok(t) => t,
            Err(e) => {
                return Err(e);
            },
        };
        let artifact = program.artifact_id(canonical);
        let descriptor = derive_descriptor(&program, &tasks, artifact);
        Ok(RulesBackend { program, tasks, descriptor })
    }

    /// The program the backend was built from.
    pub closed spec fn program_view(self) -> RulesProgram {
        self.program
    }

    /// The artifact identity's text.
    pub closed spec fn artifact_view(self) -> Seq<char> {
        self.descriptor.artifact@
    }

    /// The checked tasks.
    pub closed spec fn tasks_view(self) -> Seq<CTask> {
        self.tasks@
    }

    /// The program, including each task's authored interpretation.
    pub fn program(&self) -> (r: &RulesProgram)
        ensures
            *r == self.program_view(),
    {
        &self.program
    }

    /// The artifact identity: the program's digest.
    pub fn artifact(&self) -> (r: &ArtifactId)
        ensures
            r@ == self.artifact_view(),
    {
        &self.descriptor.artifact
    }

    /// The checked tasks: each is the compiled form of the valid program's
    /// task at its position.
    pub fn tasks(&self) -> (r: &Vec<CTask>)
        ensures
            r@ == self.tasks_view(),
            program_ok(self.program_view()),
            r@.len() == self.program_view().tasks@.len(),
            forall|i: int|
                0 <= i < r@.len() ==> task_compiled(self.program_view().tasks@[i], #[trigger] r@[i]),
    {
        proof {
            use_type_invariant(self);
        }
        &self.tasks
    }

    /// The descriptor derived from the program.
    pub closed spec fn descriptor_view(self) -> BackendDescriptor {
        self.descriptor
    }

    /// The descriptor derived from the program: it answers for the
    /// program's backend id.
    pub fn descriptor(&self) -> (r: &BackendDescriptor)
        ensures
            r.artifact@ == self.artifact_view(),
            *r == self.descriptor_view(),
            r.backend_id@ == self.program_view().backend_id@,
    {
        proof {
            use_type_invariant(self);
        }
        &self.descriptor
    }

    /// Every call is bounded by the program's units per call.
    pub fn cost_model(&self) -> (r: CostModel)
        ensures
            r == CostModel::Bounded,
    {
        CostModel::Bounded
    }

    /// The bound of one call, whatever its projection: the program's units
    /// per call.
    pub fn cost_bound(&self, projection: &[u8]) -> (r: CostBound)
        ensures
            r == (CostBound::Bounded { max_units: self.program_view().cost.units_per_call }),
    {
        CostBound::Bounded { max_units: self.program.cost.units_per_call }
    }

    /// What every call is charged: the program's units per call.
    pub fn charge(&self) -> (r: Charge)
        ensures
            r == (Charge::Observed { units: self.program_view().cost.units_per_call }),
    {
        Charge::Observed { units: self.program.cost.units_per_call }
    }
}

/// One way a plan's use of this backend does not match its program.
#[derive(Debug, Clone, PartialEq, Eq)]
pub struct PlanMismatch {
    pub step: String,
    pub kind: PlanMismatchKind,
}

/// The kinds of plan mismatch.
#[derive(Debug, Clone, PartialEq, Eq)]
pub enum PlanMismatchKind {
    /// The plan binds this backend id to a different descriptor.
    Descriptor,
    /// The program has no task with the step's task name.
    NoTask(String),
    /// The task exists but its operation, question or options differ.
    TaskDiffers(&'static str),
    /// A field reads a reference the step does not project.
    NotProjected { field: String, reference: String },
    /// A field's declared type does not match the definition's type there.
    Incompatible { field: String, reference: String },
}

} // verus!
