//! Decision definitions, `rustev.definition/1`: the authored description of
//! a recurring decision. Every field is required: absence is always an
//! explicit variant.
use vstd::prelude::*;

use crate::canonical::Json;
use crate::decimal::Decimal;
use crate::ids::{ArtifactId, CalibrationId};
use crate::time::Timestamp;

verus! {

/// A versioned, authored description of a recurring decision.
#[derive(Debug, PartialEq, Eq)]
pub struct Definition {
    pub schema: String,
    pub name: String,
    /// `MAJOR.MINOR.PATCH`, each without leading zeros.
    pub version: String,
    pub package: String,
    pub inputs: Vec<InputDecl>,
    pub steps: Vec<StepDecl>,
    pub policy: PolicyDecl,
    pub limits: LimitsDecl,
}

/// One step of the plan graph.
#[derive(Debug, PartialEq, Eq)]
pub struct StepDecl {
    pub id: String,
    pub body: StepBody,
}

/// What a step computes: a registry operator or a backend question.
#[derive(Debug, PartialEq, Eq)]
pub enum StepBody {
    Exact(ExactDecl),
    Semantic(SemanticDecl),
}

/// An exact step: a registry operator, its version and its arguments, which
/// the compiler decodes against the operator's own schema.
#[derive(Debug, PartialEq, Eq)]
pub struct ExactDecl {
    pub op: String,
    pub version: u32,
    pub args: Json,
}

/// One declared input field.
#[derive(Debug, PartialEq, Eq)]
pub struct InputDecl {
    pub name: String,
    pub ty: TypeDecl,
    /// The provenance classes this input accepts; non-empty.
    pub provenance: Vec<ProvenanceClass>,
    pub freshness: Freshness,
}

/// The closed set of provenance classes.
#[derive(Debug, Clone, Copy, PartialEq, Eq, PartialOrd, Ord, Hash)]
pub enum ProvenanceClass {
    AuthenticatedAppField,
    SystemOfRecord,
    UserSupplied,
    ThirdParty,
    AttributedClaim,
    ModelDerived,
}

/// How old an input may be at evaluation time.
#[derive(Debug, Clone, Copy, PartialEq, Eq)]
pub enum Freshness {
    MaxAgeMs(u64),
    NotRequired,
}

/// Input value types. Every record field is required.
#[derive(Debug, PartialEq, Eq)]
pub enum TypeDecl {
    Bool,
    Integer,
    Decimal,
    Text { max_bytes: u64 },
    Timestamp,
    Enum { options: Vec<String> },
    List { item: Box<TypeDecl>, max_items: u64 },
    Record { fields: Vec<FieldDecl> },
}

/// One field of a record type.
#[derive(Debug, PartialEq, Eq)]
pub struct FieldDecl {
    pub name: String,
    pub ty: TypeDecl,
}

/// The four semantic operations.
#[derive(Debug, Clone, Copy, PartialEq, Eq, PartialOrd, Ord, Hash)]
pub enum Operation {
    Classify,
    Proposition,
    Rubric,
    Rank,
}

/// The value kind a semantic step requires.
#[derive(Debug, Clone, Copy, PartialEq, Eq, PartialOrd, Ord, Hash)]
pub enum RequiredKind {
    Label,
    Distribution,
    CalibratedProbability,
    OrdinalDistribution,
    Scores,
}

/// A question answered by a decision backend.
#[derive(Debug, Clone, PartialEq, Eq)]
pub struct SemanticDecl {
    pub operation: Operation,
    /// The task identity a calibration binds to.
    pub task: String,
    /// The question or statement put to the backend.
    pub question: String,
    /// Labels (classify), `["false", "true"]` (proposition), levels from low
    /// to high (rubric); empty for rank.
    pub options: Vec<String>,
    /// For rank: the step whose id list is ranked.
    pub candidates: Candidates,
    pub requires: RequiredKind,
    /// References (`input:<name>`, `step:<id>`, `bind:<name>`) the backend sees.
    pub project: Vec<String>,
    /// Zero, one or two id lists this step fans out over.
    pub for_each: Vec<ForEach>,
    pub backend: BackendReq,
    pub calibration: CalibrationRef,
    pub fallback: Fallback,
}

/// The candidates a rank step orders.
#[derive(Debug, Clone, PartialEq, Eq)]
pub enum Candidates {
    NoCandidates,
    From(String),
}

/// Fan-out over the ids produced by a step.
#[derive(Debug, Clone, PartialEq, Eq)]
pub struct ForEach {
    /// `step:<id>` whose result is an id list, a filter result or a shortlist.
    pub over: String,
    /// The name the instance key carries; `bind:<name>` projects its item.
    pub bind: String,
    /// Where the item record for each id comes from, if it is projected.
    pub items: ItemSource,
}

/// Where the item record of a fanned-out id comes from.
#[derive(Debug, Clone, PartialEq, Eq)]
pub enum ItemSource {
    NoItems,
    /// A list of records (`input:<name>`) and the text field holding the id.
    List { list: String, id_field: String },
}

/// Declared backend requirements beyond the operation and value kind.
#[derive(Debug, Clone, PartialEq, Eq)]
pub struct BackendReq {
    pub min_determinism: Determinism,
    pub artifact: ArtifactPin,
    pub binding: BindingChoice,
}

/// Declared determinism of a backend, weakest first.
#[derive(Debug, Clone, Copy, PartialEq, Eq, PartialOrd, Ord, Hash)]
pub enum Determinism {
    Unspecified,
    Tolerance,
    Bitwise,
}

/// Whether a step accepts any artifact or one pinned artifact.
#[derive(Debug, Clone, PartialEq, Eq)]
pub enum ArtifactPin {
    Any,
    Pinned(ArtifactId),
}

/// An explicit binding makes that backend the only candidate.
#[derive(Debug, Clone, PartialEq, Eq)]
pub enum BindingChoice {
    Auto,
    Backend(String),
}

/// The calibration a step applies, if any.
#[derive(Debug, Clone, PartialEq, Eq)]
pub enum CalibrationRef {
    NoCalibration,
    Id(CalibrationId),
}

/// What happens when no candidate satisfies the step.
#[derive(Debug, Clone, PartialEq, Eq)]
pub enum Fallback {
    NoFallback,
    /// The step is always `unsupported{capability}`.
    Unsupported,
    /// Bind with this alternative required kind instead.
    Kind { requires: RequiredKind, reason: String },
}

/// Declared ceilings.
#[derive(Debug, Clone, PartialEq, Eq)]
pub struct LimitsDecl {
    pub max_semantic_requests: u64,
    pub on_excess: ExcessPolicy,
    pub max_projection_bytes: u64,
    /// Allowed `|sum - 1|` for a supplied distribution.
    pub distribution_tolerance: Decimal,
    /// Recorded for the runtime; not enforced by the pure core.
    pub deadline_ms: u64,
}

/// What happens when more semantic requests are needed than allowed.
#[derive(Debug, Clone, Copy, PartialEq, Eq)]
pub enum ExcessPolicy {
    Refuse,
    TruncateVisible,
}

/// A typed literal.
#[derive(Debug, Clone, PartialEq, Eq)]
pub enum Literal {
    Bool(bool),
    Integer(i64),
    Decimal(Decimal),
    Text(String),
    Timestamp(Timestamp),
    DurationMs(u64),
    Enum(String),
}

/// Expressions inside exact-operator arguments and policy predicates.
/// References are `input:<name>`, `step:<id>`, `item:<field>[.<field>...]`
/// (inside a per-item operator) and `now`.
#[derive(Debug, PartialEq, Eq)]
pub enum Expr {
    Ref(String),
    Lit(Literal),
    Add { left: Box<Expr>, right: Box<Expr> },
    Sub { left: Box<Expr>, right: Box<Expr> },
    /// Decimal product rounded half-even to 10^-9; integers are exact.
    Mul { left: Box<Expr>, right: Box<Expr> },
    /// Decimal quotient rounded half-even to 10^-9.
    Div { left: Box<Expr>, right: Box<Expr> },
    /// Rescale a decimal half-even to `scale` digits.
    Round { value: Box<Expr>, scale: u32 },
    /// Currency conversion through a rate table.
    Fx { amount: Box<Expr>, from: Box<Expr>, to: Box<Expr>, rates: String, scale: u32 },
    /// Length of a list.
    Len(Box<Expr>),
    /// Integer to decimal, the only numeric conversion.
    ToDecimal(Box<Expr>),
}

/// Comparison operators of predicates.
#[derive(Debug, Clone, Copy, PartialEq, Eq)]
pub enum CmpOp {
    Eq,
    Ne,
    Lt,
    Le,
    Gt,
    Ge,
}

/// Boolean predicates. `all([])` is true; `any([])` is false.
#[derive(Debug, PartialEq, Eq)]
pub enum Predicate {
    Cmp { left: Expr, op: CmpOp, right: Expr },
    All(Vec<Predicate>),
    Any(Vec<Predicate>),
    Not(Box<Predicate>),
    Member { value: Expr, set: Vec<Literal> },
    /// True when the named input resolved (`input:<name>`).
    Present(String),
}

/// The selection policy.
#[derive(Debug, PartialEq, Eq)]
pub struct PolicyDecl {
    pub on_unresolved: Vec<Handler>,
    pub rules: Vec<Rule>,
    pub adjustments: Vec<Adjustment>,
}

/// Handles one input or step being unresolved.
#[derive(Debug, Clone, PartialEq, Eq)]
pub struct Handler {
    /// `input:<name>` or `step:<id>`.
    pub target: String,
    pub reasons: ReasonSet,
    pub action: HandlerAction,
}

/// The unresolved reasons a handler applies to.
#[derive(Debug, Clone, PartialEq, Eq)]
pub enum ReasonSet {
    Any,
    Only(Vec<ReasonKind>),
}

/// The names of the closed `Unresolved` reasons.
#[derive(Debug, Clone, Copy, PartialEq, Eq, PartialOrd, Ord, Hash)]
pub enum ReasonKind {
    MissingEvidence,
    StaleEvidence,
    InvalidInput,
    Abstained,
    BackendUnavailable,
    InvalidBackendOutput,
    BudgetExhausted,
    DeadlineExceeded,
    Conflict,
    Unsupported,
}

/// What a handler does with an unresolved target.
#[derive(Debug, Clone, PartialEq, Eq)]
pub enum HandlerAction {
    /// The judgment is the target's unresolved reason.
    Propagate,
    Escalate { reason: String },
    /// Atomic conditions reading the target are false; a rule whose outcome
    /// reads it does not match.
    AsUnmet,
}

/// One policy rule: a condition and the outcome it proposes.
#[derive(Debug, PartialEq, Eq)]
pub struct Rule {
    pub id: String,
    pub when: Cond,
    pub then: OutcomeDecl,
}

/// Whether a probability threshold may read an uncalibrated distribution.
#[derive(Debug, Clone, PartialEq, Eq)]
pub enum UncalibratedThreshold {
    NotDeclared,
    Declared { reason: String },
}

/// Policy conditions.
#[derive(Debug, PartialEq, Eq)]
pub enum Cond {
    Always,
    TopLabel { step: String, label: String },
    MassAtLeast {
        step: String,
        option: String,
        threshold: Decimal,
        uncalibrated_threshold: UncalibratedThreshold,
    },
    TopMassBelow { step: String, threshold: Decimal, uncalibrated_threshold: UncalibratedThreshold },
    ExpectationAtLeast { step: String, value: Decimal },
    Exact(Predicate),
    Empty(String),
    Nonempty(String),
    All(Vec<Cond>),
    Any(Vec<Cond>),
    Not(Box<Cond>),
}

/// What a matching rule proposes. Never a grant.
#[derive(Debug, Clone, PartialEq, Eq)]
pub enum OutcomeDecl {
    Propose { action: String, params: Vec<ParamDecl> },
    Escalate { reason: String },
    /// `missing_evidence` naming the fields listed by a step.
    MissingEvidenceFrom { step: String },
}

/// One parameter of a proposal.
#[derive(Debug, Clone, PartialEq, Eq)]
pub struct ParamDecl {
    pub name: String,
    pub value: ParamSource,
}

/// Where a proposal parameter's value comes from.
#[derive(Debug, Clone, PartialEq, Eq)]
pub enum ParamSource {
    Ref(String),
    Lit(Literal),
}

/// Raises a proposal parameter one position on an ordered scale, saturating.
#[derive(Debug, PartialEq, Eq)]
pub struct Adjustment {
    pub id: String,
    pub when: Cond,
    pub param: String,
    pub scale: Vec<String>,
}

} // verus!
