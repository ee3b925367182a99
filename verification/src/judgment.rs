//! The vocabulary of judgments: unresolved reasons, derivation classes,
//! lineage, notices, and the list results of exact operators. A judgment is a
//! proposal, an escalation or an unresolved outcome; it is never a grant and
//! never an effect.
use std::collections::BTreeMap;

use vstd::prelude::*;

use crate::definition::ReasonKind;
use crate::order::{sorted_unique, strictly_sorted, texts};
use crate::text::{comma_joined, join, join3, join_commas};
use vstd::string::StringExecFns;

verus! {

/// The closed set of unresolved reasons. Field and fact lists are sorted
/// and deduplicated.
#[derive(Debug, Clone, PartialEq, Eq, PartialOrd, Ord, Hash)]
pub enum Unresolved {
    MissingEvidence { fields: Vec<String> },
    StaleEvidence { fields: Vec<String> },
    InvalidInput { fields: Vec<String>, detail: String },
    Abstained { rule: String },
    BackendUnavailable { detail: String },
    InvalidBackendOutput { detail: String },
    BudgetExhausted { resource: String },
    DeadlineExceeded,
    Conflict { facts: Vec<String> },
    Unsupported { capability: String },
}

/// The kind that names an unresolved reason.
pub open spec fn kind_of(u: Unresolved) -> ReasonKind {
    match u {
        Unresolved::MissingEvidence { .. } => ReasonKind::MissingEvidence,
        Unresolved::StaleEvidence { .. } => ReasonKind::StaleEvidence,
        Unresolved::InvalidInput { .. } => ReasonKind::InvalidInput,
        Unresolved::Abstained { .. } => ReasonKind::Abstained,
        Unresolved::BackendUnavailable { .. } => ReasonKind::BackendUnavailable,
        Unresolved::InvalidBackendOutput { .. } => ReasonKind::InvalidBackendOutput,
        Unresolved::BudgetExhausted { .. } => ReasonKind::BudgetExhausted,
        Unresolved::DeadlineExceeded => ReasonKind::DeadlineExceeded,
        Unresolved::Conflict { .. } => ReasonKind::Conflict,
        Unresolved::Unsupported { .. } => ReasonKind::Unsupported,
    }
}

/// `out` holds the texts of `items`, each once, in increasing order.
pub open spec fn sorted_set_of(out: Seq<String>, items: Seq<String>) -> bool {
    &&& strictly_sorted(texts(out))
    &&& forall|t: Seq<char>| texts(out).contains(t) <==> texts(items).contains(t)
}

/// The wire name of a reason kind.
pub open spec fn reason_name(k: ReasonKind) -> Seq<char> {
    match k {
        ReasonKind::MissingEvidence => "missing_evidence"@,
        ReasonKind::StaleEvidence => "stale_evidence"@,
        ReasonKind::InvalidInput => "invalid_input"@,
        ReasonKind::Abstained => "abstained"@,
        ReasonKind::BackendUnavailable => "backend_unavailable"@,
        ReasonKind::InvalidBackendOutput => "invalid_backend_output"@,
        ReasonKind::BudgetExhausted => "budget_exhausted"@,
        ReasonKind::DeadlineExceeded => "deadline_exceeded"@,
        ReasonKind::Conflict => "conflict"@,
        ReasonKind::Unsupported => "unsupported"@,
    }
}

impl Unresolved {
    /// The kind of this reason.
    pub fn kind(&self) -> (r: ReasonKind)
        ensures
            r == kind_of(*self),
    {
        match self {
            Unresolved::MissingEvidence { .. } => ReasonKind::MissingEvidence,
            Unresolved::StaleEvidence { .. } => ReasonKind::StaleEvidence,
            Unresolved::InvalidInput { .. } => ReasonKind::InvalidInput,
            Unresolved::Abstained { .. } => ReasonKind::Abstained,
            Unresolved::BackendUnavailable { .. } => ReasonKind::BackendUnavailable,
            Unresolved::InvalidBackendOutput { .. } => ReasonKind::InvalidBackendOutput,
            Unresolved::BudgetExhausted { .. } => ReasonKind::BudgetExhausted,
            Unresolved::DeadlineExceeded => ReasonKind::DeadlineExceeded,
            Unresolved::Conflict { .. } => ReasonKind::Conflict,
            Unresolved::Unsupported { .. } => ReasonKind::Unsupported,
        }
    }

    /// `missing_evidence` with sorted, deduplicated fields.
    pub fn missing(fields: Vec<String>) -> (r: Unresolved)
        ensures
            r matches Unresolved::MissingEvidence { fields: f } && sorted_set_of(f@, fields@),
    {
        Unresolved::MissingEvidence { fields: sorted_unique(fields) }
    }

    /// `stale_evidence` with sorted, deduplicated fields.
    pub fn stale(fields: Vec<String>) -> (r: Unresolved)
        ensures
            r matches Unresolved::StaleEvidence { fields: f } && sorted_set_of(f@, fields@),
    {
        Unresolved::StaleEvidence { fields: sorted_unique(fields) }
    }

    /// `invalid_input` with sorted, deduplicated fields.
    pub fn invalid(fields: Vec<String>, detail: String) -> (r: Unresolved)
        ensures
            r matches Unresolved::InvalidInput { fields: f, detail: d } && sorted_set_of(f@, fields@)
                && d == detail,
    {
        Unresolved::InvalidInput { fields: sorted_unique(fields), detail }
    }

    /// `conflict` with sorted, deduplicated facts.
    pub fn conflict(facts: Vec<String>) -> (r: Unresolved)
        ensures
            r matches Unresolved::Conflict { facts: f } && sorted_set_of(f@, facts@),
    {
        Unresolved::Conflict { facts: sorted_unique(facts) }
    }
}

impl ReasonKind {
    /// The wire name of this kind.
    pub fn name(self) -> (r: &'static str)
        ensures
            r@ == reason_name(self),
    {
        match self {
            ReasonKind::MissingEvidence => "missing_evidence",
            ReasonKind::StaleEvidence => "stale_evidence",
            ReasonKind::InvalidInput => "invalid_input",
            ReasonKind::Abstained => "abstained",
            ReasonKind::BackendUnavailable => "backend_unavailable",
            ReasonKind::InvalidBackendOutput => "invalid_backend_output",
            ReasonKind::BudgetExhausted => "budget_exhausted",
            ReasonKind::DeadlineExceeded => "deadline_exceeded",
            ReasonKind::Conflict => "conflict",
            ReasonKind::Unsupported => "unsupported",
        }
    }
}

/// Derivation classes.
#[derive(Debug, Clone, Copy, PartialEq, Eq, PartialOrd, Ord, Hash)]
pub enum Derivation {
    ExactDerived,
    ModelDerived,
    MixedDerived,
}

/// What a value was computed from: input fields and steps, sorted.
#[derive(Debug, Clone, PartialEq, Eq)]
pub struct Lineage {
    pub inputs: Vec<String>,
    pub steps: Vec<String>,
}

/// A note attached to a judgment: an uncalibrated threshold used, a
/// truncation or a fallback.
#[derive(Debug, Clone, PartialEq, Eq, PartialOrd, Ord)]
pub struct Notice {
    pub kind: NoticeKind,
    /// The step or policy item it concerns.
    pub subject: String,
    pub reason: String,
}

/// The kinds of notice.
#[derive(Debug, Clone, Copy, PartialEq, Eq, PartialOrd, Ord)]
pub enum NoticeKind {
    UncalibratedThreshold,
    Truncation,
    Fallback,
}

/// The result of `filter_with_reasons@1`.
#[derive(Debug, Clone, PartialEq, Eq)]
pub struct Filtered {
    pub eligible: Vec<String>,
    pub excluded: Vec<Excluded>,
    /// How many items each rule excluded.
    pub counts: BTreeMap<String, u64>,
}

/// An item left out, with the rules that excluded it.
#[derive(Debug, Clone, PartialEq, Eq)]
pub struct Excluded {
    pub id: String,
    pub reasons: Vec<String>,
}

/// The result of `top_k@1`.
#[derive(Debug, Clone, PartialEq, Eq)]
pub struct Shortlist {
    pub ids: Vec<String>,
    /// Eligible ids not kept because of `k`.
    pub truncated: u64,
    pub excluded: Vec<Excluded>,
}


/// What an unresolved reason reads as: its name and what it names.
pub open spec fn unresolved_text(u: Unresolved) -> Seq<char> {
    match u {
        Unresolved::MissingEvidence { fields } => "missing_evidence{"@ + comma_joined(texts(fields@)) + "}"@,
        Unresolved::StaleEvidence { fields } => "stale_evidence{"@ + comma_joined(texts(fields@)) + "}"@,
        Unresolved::InvalidInput { fields, detail } => "invalid_input{"@ + comma_joined(texts(fields@))
            + "}: "@ + detail@,
        Unresolved::Abstained { rule } => "abstained{"@ + rule@ + "}"@,
        Unresolved::BackendUnavailable { detail } => "backend_unavailable: "@ + detail@,
        Unresolved::InvalidBackendOutput { detail } => "invalid_backend_output: "@ + detail@,
        Unresolved::BudgetExhausted { resource } => "budget_exhausted{"@ + resource@ + "}"@,
        Unresolved::DeadlineExceeded => "deadline_exceeded"@,
        Unresolved::Conflict { facts } => "conflict{"@ + comma_joined(texts(facts@)) + "}"@,
        Unresolved::Unsupported { capability } => "unsupported{"@ + capability@ + "}"@,
    }
}

impl Unresolved {
    /// The reason as text.
    pub fn message(&self) -> (r: String)
        ensures
            r@ == unresolved_text(*self),
    {
        match self {
            Unresolved::MissingEvidence { fields } => join3("missing_evidence{", join_commas(fields).as_str(), "}"),
            Unresolved::StaleEvidence { fields } => join3("stale_evidence{", join_commas(fields).as_str(), "}"),
            Unresolved::InvalidInput { fields, detail } => {
                let mut m = join3("invalid_input{", join_commas(fields).as_str(), "}: ");
                m.append(detail.as_str());
                m
            },
            Unresolved::Abstained { rule } => join3("abstained{", rule.as_str(), "}"),
            Unresolved::BackendUnavailable { detail } => join("backend_unavailable: ", detail.as_str()),
            Unresolved::InvalidBackendOutput { detail } => join("invalid_backend_output: ", detail.as_str()),
            Unresolved::BudgetExhausted { resource } => join3("budget_exhausted{", resource.as_str(), "}"),
            Unresolved::DeadlineExceeded => String::from_str("deadline_exceeded"),
            Unresolved::Conflict { facts } => join3("conflict{", join_commas(facts).as_str(), "}"),
            Unresolved::Unsupported { capability } => join3("unsupported{", capability.as_str(), "}"),
        }
    }
}

} // verus!
