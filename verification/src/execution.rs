//! Execution policies, `rustev.execution/1`: how the runtime may retry, time
//! out and fall back per semantic step, and the cost budget one decision may
//! draw on. A policy is declared and embedded in the plan; it is never
//! inferred from whichever backends are installed.
use vstd::prelude::*;
use vstd::arithmetic::power2::pow2;
use vstd::bits::{lemma_u64_pow2_no_overflow, lemma_u64_shl_is_mul};

verus! {

/// A declared execution policy.
#[derive(Debug, Clone, PartialEq, Eq)]
pub struct ExecutionPolicy {
    pub schema: String,
    /// Worst-case backend attempts of one decision, over every request,
    /// retry and fallback.
    pub max_attempts_per_decision: u64,
    pub cost: CostPolicy,
    /// At most one entry per semantic step; an unlisted step gets one
    /// attempt, no timeout and no fallback.
    pub steps: Vec<StepExecution>,
}

/// The cost budget of one decision, in integer units the deployment chooses.
#[derive(Debug, Clone, Copy, PartialEq, Eq)]
pub enum CostPolicy {
    /// Nothing is refused; charges are still recorded.
    Unlimited,
    /// A guaranteed cap: every reachable backend must disclose an
    /// enforceable per-call upper bound, which is reserved before dispatch.
    Hard { max_units: u64 },
    /// The weaker policy: estimates are reserved, and the result is never
    /// labeled a cap.
    Estimated { max_units: u64 },
}

/// The execution of one semantic step.
#[derive(Debug, Clone, PartialEq, Eq)]
pub struct StepExecution {
    pub step: String,
    pub retry: RetryPolicy,
    pub attempt_timeout: AttemptTimeout,
    pub fallback: FallbackPolicy,
}

/// Retries on the same target.
#[derive(Debug, Clone, PartialEq, Eq)]
pub struct RetryPolicy {
    /// Attempts per target, including the first; `1..=8`.
    pub max_attempts: u32,
    /// Retryable classes that are retried; empty exactly when
    /// `max_attempts` is 1.
    pub on: Vec<FailureClass>,
    pub delay: Delay,
}

impl RetryPolicy {
    /// One attempt, nothing retried.
    pub fn none() -> (r: RetryPolicy)
        ensures
            r.max_attempts == 1,
            r.on@ == Seq::<FailureClass>::empty(),
            r.delay == Delay::NoDelay,
    {
        RetryPolicy { max_attempts: 1, on: Vec::new(), delay: Delay::NoDelay }
    }
}

/// The delay before retry `n` (1-based). No jitter.
#[derive(Debug, Clone, Copy, PartialEq, Eq)]
pub enum Delay {
    NoDelay,
    Fixed { ms: u64 },
    /// `initial_ms`, doubling per retry, capped at `max_ms`.
    Exponential { initial_ms: u64, max_ms: u64 },
}

/// The doubling exponent of retry `n`: `n - 1`, at least 0 and at most 63.
pub open spec fn doubling(n: u32) -> nat {
    if n == 0 {
        0
    } else if n - 1 > 63 {
        63
    } else {
        (n - 1) as nat
    }
}

/// The smaller of two integers.
pub open spec fn min_int(a: int, b: int) -> int {
    if a <= b {
        a
    } else {
        b
    }
}

/// The delay before retry `n`: an exponential delay saturates at
/// `u64::MAX` before it is capped at `max_ms`.
pub open spec fn delay_before(d: Delay, n: u32) -> int {
    match d {
        Delay::NoDelay => 0,
        Delay::Fixed { ms } => ms as int,
        Delay::Exponential { initial_ms, max_ms } => min_int(
            min_int(initial_ms * pow2(doubling(n)), u64::MAX as int),
            max_ms as int,
        ),
    }
}

impl Delay {
    /// The delay before retry number `n` (1 for the first retry).
    pub fn before_retry(self, n: u32) -> (r: u64)
        ensures
            r == delay_before(self, n),
    {
        match self {
            Delay::NoDelay => 0,
            Delay::Fixed { ms } => ms,
            Delay::Exponential { initial_ms, max_ms } => {
                let shift: u64 = if n == 0 {
                    0
                } else if n - 1 > 63 {
                    63
                } else {
                    (n - 1) as u64
                };
                proof {
                    lemma_u64_pow2_no_overflow(shift as nat);
                    lemma_u64_shl_is_mul(1u64, shift);
                }
                let factor: u64 = 1u64 << shift;
                let product: u64 = match initial_ms.checked_mul(factor) {
                    Some(p) => p,
                    None => u64::MAX,
                };
                if product < max_ms {
                    product
                } else {
                    max_ms
                }
            },
        }
    }
}

/// The per-attempt timeout.
#[derive(Debug, Clone, Copy, PartialEq, Eq)]
pub enum AttemptTimeout {
    NoTimeout,
    Ms(u64),
}

/// Runtime failure fallback, distinct from the definition's compile-time
/// capability fallback.
#[derive(Debug, Clone, PartialEq, Eq)]
pub struct FallbackPolicy {
    /// Backend ids tried in order after the bound backend; at most 4, none
    /// repeated, never the bound backend.
    pub backends: Vec<String>,
    /// Classes that move the request to the next backend.
    pub on: Vec<FailureClass>,
}

impl FallbackPolicy {
    /// No fallback.
    pub fn none() -> (r: FallbackPolicy)
        ensures
            r.backends@ == Seq::<String>::empty(),
            r.on@ == Seq::<FailureClass>::empty(),
    {
        FallbackPolicy { backends: Vec::new(), on: Vec::new() }
    }
}

/// How a dispatched attempt failed. Deadline and cancellation are not
/// classes: they end a request, and are never retried or a fallback trigger.
#[derive(Debug, Clone, Copy, PartialEq, Eq, PartialOrd, Ord, Hash)]
pub enum FailureClass {
    /// The output failed the core's validation.
    InvalidOutput,
    /// The adapter says the failure may not recur.
    Transient,
    /// The adapter says the backend refused for load.
    Overloaded,
    /// The adapter says the failure will recur for this input.
    Permanent,
    /// The attempt timeout passed.
    TimedOut,
    /// The adapter panicked.
    AdapterFault,
}

/// The classes a retry policy may name.
pub open spec fn is_retryable(c: FailureClass) -> bool {
    c is Transient || c is Overloaded || c is TimedOut
}

/// The wire name of a failure class.
pub open spec fn failure_name(c: FailureClass) -> Seq<char> {
    match c {
        FailureClass::InvalidOutput => "invalid_output"@,
        FailureClass::Transient => "transient"@,
        FailureClass::Overloaded => "overloaded"@,
        FailureClass::Permanent => "permanent"@,
        FailureClass::TimedOut => "timed_out"@,
        FailureClass::AdapterFault => "adapter_fault"@,
    }
}

impl FailureClass {
    /// Whether a retry policy may name this class.
    pub fn retryable(self) -> (r: bool)
        ensures
            r == is_retryable(self),
    {
        match self {
            FailureClass::Transient | FailureClass::Overloaded | FailureClass::TimedOut => true,
            _ => false,
        }
    }

    /// The wire name of this class.
    pub fn name(self) -> (r: &'static str)
        ensures
            r@ == failure_name(self),
    {
        match self {
            FailureClass::InvalidOutput => "invalid_output",
            FailureClass::Transient => "transient",
            FailureClass::Overloaded => "overloaded",
            FailureClass::Permanent => "permanent",
            FailureClass::TimedOut => "timed_out",
            FailureClass::AdapterFault => "adapter_fault",
        }
    }
}

/// Upper bounds of an execution policy.
pub const MAX_ATTEMPTS_PER_TARGET: u32 = 8;

pub const MAX_FALLBACKS: usize = 4;

pub const MAX_DELAY_MS: u64 = 60_000;


/// The smaller of two delays.
pub open spec fn smaller(a: int, b: int) -> int {
    if a <= b {
        a
    } else {
        b
    }
}

/// An exponential delay waits `initial_ms` before the first retry (and
/// before a retry numbered 0), then twice the previous wait before each
/// further retry, saturating at `u64::MAX`, and never more than `max_ms`.
/// From the 64th retry on, the wait no longer grows.
pub proof fn law_exponential_delays_double_until_capped(initial_ms: u64, max_ms: u64, n: u32)
    ensures
        delay_before(Delay::Exponential { initial_ms, max_ms }, 1) == smaller(initial_ms as int, max_ms as int),
        delay_before(Delay::Exponential { initial_ms, max_ms }, 0) == delay_before(
            Delay::Exponential { initial_ms, max_ms },
            1,
        ),
        delay_before(Delay::Exponential { initial_ms, max_ms }, n) == smaller(
            delay_before(Delay::Exponential { initial_ms, max_ms: u64::MAX }, n),
            max_ms as int,
        ),
        1 <= n < 64 ==> delay_before(Delay::Exponential { initial_ms, max_ms: u64::MAX }, (n + 1) as u32)
            == smaller(
            2 * delay_before(Delay::Exponential { initial_ms, max_ms: u64::MAX }, n),
            u64::MAX as int,
        ),
        n >= 64 ==> delay_before(Delay::Exponential { initial_ms, max_ms }, n) == delay_before(
            Delay::Exponential { initial_ms, max_ms },
            64,
        ),
{
    assert(pow2(0) == 1) by {
        vstd::arithmetic::power2::lemma_pow2(0);
        vstd::arithmetic::power::lemma_pow0(2);
    }
    assert(initial_ms * pow2(0) == initial_ms);
    if 1 <= n < 64 {
        let k = (n - 1) as nat;
        assert(doubling(n) == k);
        assert(doubling((n + 1) as u32) == k + 1);
        vstd::arithmetic::power2::lemma_pow2_unfold(k + 1);
        vstd::arithmetic::power2::lemma_pow2_pos(k);
        let p = pow2(k);
        assert(initial_ms * pow2(k + 1) == 2 * (initial_ms * p)) by (nonlinear_arith)
            requires
                pow2(k + 1) == 2 * p,
        ;
        assert(initial_ms * p >= 0) by (nonlinear_arith)
            requires
                p > 0,
        ;
    }
}

} // verus!
