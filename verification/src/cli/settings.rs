//! The `run` settings: every flag of `run` checked before admission, the
//! capture, retention and bundle settings among them.
use vstd::prelude::*;
use vstd::string::StringExecFns;

use crate::cli::args::{
    first_value, forbid_flags, need_flags, strs, uint_flag, usage, usage_is, Parsed, Usage,
};
use crate::cli::host::{
    now_at, now_flag, req_value, scope, scope_flag, scope_view, system_clock_ms, timestamp,
    timestamp_flag, ScopeView,
};
use crate::order::{byte_len, str_eq};
use crate::retention::{DEFAULT_METADATA_LIFETIME_MS, MAX_BUNDLE_LIFETIME_MS};
use crate::scope::Scope;
use crate::text::{debug_quoted, debug_text, decimal_text, join, join3, u64_text};
use crate::time::{ms_in_range, DurationMs, Timestamp};

verus! {

/// The most bytes one capture may hold.
pub const MAX_CAPTURE_BYTES: u64 = 16_777_216;

/// How captured document bytes are kept.
#[derive(Debug, Clone, PartialEq, Eq)]
pub enum Retain {
    DigestOnly,
    Embedded,
    External { store: String },
}

/// Capture, retention and bundle settings, all checked before admission.
#[derive(Debug, Clone)]
pub struct CaptureSettings {
    pub max_bytes: u64,
    pub bundle_out: String,
    pub scope: Scope,
    pub now: Timestamp,
    pub retain: Retain,
    pub lifetime_ms: u64,
    pub host_cap_ms: Option<u64>,
}

/// Every `run` flag, checked.
#[derive(Debug, Clone)]
pub struct RunSettings {
    pub evaluation_time: Timestamp,
    pub decision_id: String,
    pub record_out: String,
    pub deadline_ms: Option<u64>,
    pub max_parallel: usize,
    pub sink_timeout_ms: u64,
    pub capture: Option<CaptureSettings>,
}

/// Retention as texts.
pub enum RetainView {
    DigestOnly,
    Embedded,
    External { store: Seq<char> },
}

/// Capture settings as texts and numbers.
pub struct CaptureView {
    pub max_bytes: u64,
    pub bundle_out: Seq<char>,
    pub scope: ScopeView,
    pub now: int,
    pub retain: RetainView,
    pub lifetime_ms: u64,
    pub host_cap_ms: Option<u64>,
}

/// `run` settings as texts and numbers.
pub struct SettingsView {
    pub evaluation_time: int,
    pub decision_id: Seq<char>,
    pub record_out: Seq<char>,
    pub deadline_ms: Option<u64>,
    pub max_parallel: usize,
    pub sink_timeout_ms: u64,
    pub capture: Option<CaptureView>,
}

/// The texts of a retention choice.
pub open spec fn retain_view(r: Retain) -> RetainView {
    match r {
        Retain::DigestOnly => RetainView::DigestOnly,
        Retain::Embedded => RetainView::Embedded,
        Retain::External { store } => RetainView::External { store: store@ },
    }
}

/// The view of capture settings.
pub open spec fn capture_view(c: CaptureSettings) -> CaptureView {
    CaptureView {
        max_bytes: c.max_bytes,
        bundle_out: c.bundle_out@,
        scope: scope_view(c.scope),
        now: c.now@,
        retain: retain_view(c.retain),
        lifetime_ms: c.lifetime_ms,
        host_cap_ms: c.host_cap_ms,
    }
}

/// The view of `run` settings.
pub open spec fn settings_view(s: RunSettings) -> SettingsView {
    SettingsView {
        evaluation_time: s.evaluation_time@,
        decision_id: s.decision_id@,
        record_out: s.record_out@,
        deadline_ms: s.deadline_ms,
        max_parallel: s.max_parallel,
        sink_timeout_ms: s.sink_timeout_ms,
        capture: match s.capture {
            Some(c) => Some(capture_view(c)),
            None => None,
        },
    }
}

/// The flags that apply only with `--capture-bytes`.
pub open spec fn capture_only() -> Seq<Seq<char>> {
    seq![
        "bundle-out"@,
        "now-ms"@,
        "retain"@,
        "store"@,
        "lifetime-ms"@,
        "host-cap-ms"@,
        "scope"@,
        "tenant"@,
        "context-revision"@,
        "principal-scope"@,
    ]
}

/// The retention `--retain` chooses, once the scope and time are checked.
pub open spec fn retain_flag(pairs: Seq<(Seq<char>, Seq<char>)>) -> Result<RetainView, Seq<char>> {
    let v = match first_value(pairs, "retain"@, 0) {
        Some(v) => v,
        None => "digest-only"@,
    };
    if v == "digest-only"@ {
        Ok(RetainView::DigestOnly)
    } else if v == "embedded"@ {
        Ok(RetainView::Embedded)
    } else if v == "external"@ {
        match need_flags(pairs, seq!["store"@], "with --retain external"@) {
            Err(m) => Err(m),
            Ok(_) => Ok(RetainView::External { store: req_value(pairs, "store"@) }),
        }
    } else {
        Err("--retain is digest-only, embedded or external, not "@ + debug_text(v))
    }
}

/// What a lifetime beyond the host cap is told.
pub open spec fn over_cap(lifetime: u64, cap: u64) -> Seq<char> {
    "the lifetime of "@ + decimal_text(lifetime as nat) + " ms exceeds the host cap of "@
        + decimal_text(cap as nat) + " ms; give --lifetime-ms explicitly"@
}

/// The capture settings of a capture of `max_bytes`, given the clock.
pub open spec fn capture_on(
    pairs: Seq<(Seq<char>, Seq<char>)>,
    clock: Option<u128>,
    max_bytes: u64,
) -> Result<CaptureView, Seq<char>> {
    match need_flags(pairs, seq!["bundle-out"@, "now-ms"@], "with --capture-bytes"@) {
        Err(m) => Err(m),
        Ok(_) => match need_flags(pairs, seq!["tenant"@, "context-revision"@], "with --capture-bytes"@) {
            Err(m) => Err(m),
            Ok(_) => match scope_flag(pairs) {
                Err(m) => Err(m),
                Ok(scope) => match now_flag(pairs, clock) {
                    Err(m) => Err(m),
                    Ok(now) => match retain_flag(pairs) {
                        Err(m) => Err(m),
                        Ok(retain) => {
                            let store_ok = match retain {
                                RetainView::External { .. } => Ok(()),
                                _ => forbid_flags(
                                    pairs,
                                    seq!["store"@],
                                    "applies only with --retain external"@,
                                ),
                            };
                            match store_ok {
                                Err(m) => Err(m),
                                Ok(_) => lifetime_on(pairs, max_bytes, scope, now, retain),
                            }
                        },
                    },
                },
            },
        },
    }
}

/// The lifetime settings, once everything before them is checked.
pub open spec fn lifetime_on(
    pairs: Seq<(Seq<char>, Seq<char>)>,
    max_bytes: u64,
    scope: ScopeView,
    now: int,
    retain: RetainView,
) -> Result<CaptureView, Seq<char>> {
    match uint_flag(pairs, "host-cap-ms"@, 1, MAX_BUNDLE_LIFETIME_MS) {
        Err(m) => Err(m),
        Ok(host_cap_ms) => {
            let cap = match host_cap_ms {
                Some(c) => c,
                None => MAX_BUNDLE_LIFETIME_MS,
            };
            match uint_flag(pairs, "lifetime-ms"@, 1, MAX_BUNDLE_LIFETIME_MS) {
                Err(m) => Err(m),
                Ok(l) => {
                    let lifetime_ms = match l {
                        Some(x) => x,
                        None => DEFAULT_METADATA_LIFETIME_MS,
                    };
                    if lifetime_ms > cap {
                        Err(over_cap(lifetime_ms, cap))
                    } else if !ms_in_range(now + lifetime_ms) {
                        Err("--now-ms plus the lifetime is past the last timestamp"@)
                    } else {
                        Ok(
                            CaptureView {
                                max_bytes,
                                bundle_out: req_value(pairs, "bundle-out"@),
                                scope,
                                now,
                                retain,
                                lifetime_ms,
                                host_cap_ms,
                            },
                        )
                    }
                },
            }
        },
    }
}

/// The capture settings, if a capture was asked for.
pub open spec fn capture_flag(pairs: Seq<(Seq<char>, Seq<char>)>, clock: Option<u128>) -> Result<
    Option<CaptureView>,
    Seq<char>,
> {
    match uint_flag(pairs, "capture-bytes"@, 1, MAX_CAPTURE_BYTES) {
        Err(m) => Err(m),
        Ok(None) => match forbid_flags(pairs, capture_only(), "applies only with --capture-bytes"@) {
            Err(m) => Err(m),
            Ok(_) => Ok(None),
        },
        Ok(Some(max_bytes)) => match capture_on(pairs, clock, max_bytes) {
            Err(m) => Err(m),
            Ok(c) => Ok(Some(c)),
        },
    }
}

/// Every `run` flag checked, in order, given the clock.
pub open spec fn run_flags(pairs: Seq<(Seq<char>, Seq<char>)>, clock: Option<u128>) -> Result<
    SettingsView,
    Seq<char>,
> {
    let decision_id = req_value(pairs, "decision-id"@);
    if byte_len(decision_id) == 0 || byte_len(decision_id) > 256 {
        Err("--decision-id is 1 to 256 bytes"@)
    } else {
        match capture_flag(pairs, clock) {
            Err(m) => Err(m),
            Ok(capture) => match timestamp_flag(pairs, "evaluation-time"@) {
                Err(m) => Err(m),
                Ok(evaluation_time) => match uint_flag(pairs, "deadline-ms"@, 1, u64::MAX) {
                    Err(m) => Err(m),
                    Ok(deadline_ms) => match uint_flag(pairs, "max-parallel-requests"@, 1, 64) {
                        Err(m) => Err(m),
                        Ok(mp) => match uint_flag(pairs, "sink-timeout-ms"@, 1, 600_000) {
                            Err(m) => Err(m),
                            Ok(st) => Ok(
                                SettingsView {
                                    evaluation_time,
                                    decision_id,
                                    record_out: req_value(pairs, "record-out"@),
                                    deadline_ms,
                                    max_parallel: match mp {
                                        Some(x) => x as usize,
                                        None => 4,
                                    },
                                    sink_timeout_ms: match st {
                                        Some(x) => x,
                                        None => 5_000,
                                    },
                                    capture,
                                },
                            ),
                        },
                    },
                },
            },
        }
    }
}

/// `r` is the capture settings `m` stands for, or its refusal.
pub open spec fn capture_is(r: Result<CaptureSettings, Usage>, m: Result<CaptureView, Seq<char>>) -> bool {
    match m {
        Ok(v) => r matches Ok(c) && capture_view(c) == v,
        Err(msg) => r matches Err(u) && u.0@ == msg,
    }
}

/// `r` is the settings `m` stands for, or its refusal.
pub open spec fn settings_is(r: Result<RunSettings, Usage>, m: Result<SettingsView, Seq<char>>) -> bool {
    match m {
        Ok(v) => r matches Ok(s) && settings_view(s) == v,
        Err(msg) => r matches Err(u) && u.0@ == msg,
    }
}

/// The retention `--retain` chooses.
fn retain_choice(p: &Parsed) -> (r: Result<Retain, Usage>)
    ensures
        match retain_flag(p.pairs()) {
            Ok(v) => r matches Ok(x) && retain_view(x) == v,
            Err(m) => r matches Err(u) && u.0@ == m,
        },
{
    let v = match p.one("retain") {
        Some(v) => v,
        None => "digest-only",
    };
    if str_eq(v, "digest-only") {
        Ok(Retain::DigestOnly)
    } else if str_eq(v, "embedded") {
        Ok(Retain::Embedded)
    } else if str_eq(v, "external") {
        let f = vec!["store"];
        proof {
            assert(strs(f@) =~= seq!["store"@]);
        }
        p.need(f.as_slice(), "with --retain external")?;
        Ok(Retain::External { store: String::from_str(p.req("store")) })
    } else {
        usage(join("--retain is digest-only, embedded or external, not ", debug_quoted(v).as_str()))
    }
}

/// The capture settings of a capture of `max_bytes`, given the clock.
fn capture_settings(p: &Parsed, clock: Option<u128>, max_bytes: u64) -> (r: Result<
    CaptureSettings,
    Usage,
>)
    ensures
        capture_is(r, capture_on(p.pairs(), clock, max_bytes)),
{
    let f1 = vec!["bundle-out", "now-ms"];
    let f2 = vec!["tenant", "context-revision"];
    proof {
        assert(strs(f1@) =~= seq!["bundle-out"@, "now-ms"@]);
        assert(strs(f2@) =~= seq!["tenant"@, "context-revision"@]);
    }
    p.need(f1.as_slice(), "with --capture-bytes")?;
    p.need(f2.as_slice(), "with --capture-bytes")?;
    let scope = scope(p)?;
    let now = now_at(p, clock)?;
    let retain = retain_choice(p)?;
    match retain {
        Retain::External { .. } => {},
        _ => {
            let f3 = vec!["store"];
            proof {
                assert(strs(f3@) =~= seq!["store"@]);
            }
            p.forbid(f3.as_slice(), "applies only with --retain external")?;
        },
    }
    let host_cap_ms = p.uint("host-cap-ms", 1, MAX_BUNDLE_LIFETIME_MS)?;
    let cap = match host_cap_ms {
        Some(c) => c,
        None => MAX_BUNDLE_LIFETIME_MS,
    };
    let lifetime_ms = match p.uint("lifetime-ms", 1, MAX_BUNDLE_LIFETIME_MS)? {
        Some(x) => x,
        None => DEFAULT_METADATA_LIFETIME_MS,
    };
    if lifetime_ms > cap {
        let mut m = join3("the lifetime of ", u64_text(lifetime_ms).as_str(), " ms exceeds the host cap of ");
        m.append(u64_text(cap).as_str());
        m.append(" ms; give --lifetime-ms explicitly");
        return Err(Usage(m));
    }
    if now.checked_add(DurationMs(lifetime_ms)).is_err() {
        return usage(String::from_str("--now-ms plus the lifetime is past the last timestamp"));
    }
    Ok(
        CaptureSettings {
            max_bytes,
            bundle_out: String::from_str(p.req("bundle-out")),
            scope,
            now,
            retain,
            lifetime_ms,
            host_cap_ms,
        },
    )
}

/// Every `run` flag, checked in order, given the system clock's reading
/// (which only `--now-ms system` uses).
pub fn settings_at(p: &Parsed, clock: Option<u128>) -> (r: Result<RunSettings, Usage>)
    ensures
        settings_is(r, run_flags(p.pairs(), clock)),
{
    let decision_id = String::from_str(p.req("decision-id"));
    let n = decision_id.as_str().as_bytes().len();
    if n == 0 || n > 256 {
        return usage(String::from_str("--decision-id is 1 to 256 bytes"));
    }
    let capture = match p.uint("capture-bytes", 1, MAX_CAPTURE_BYTES)? {
        None => {
            let f = vec![
                "bundle-out",
                "now-ms",
                "retain",
                "store",
                "lifetime-ms",
                "host-cap-ms",
                "scope",
                "tenant",
                "context-revision",
                "principal-scope",
            ];
            proof {
                assert(strs(f@) =~= capture_only());
            }
            p.forbid(f.as_slice(), "applies only with --capture-bytes")?;
            None
        },
        Some(max_bytes) => Some(capture_settings(p, clock, max_bytes)?),
    };
    let evaluation_time = timestamp(p, "evaluation-time")?;
    let record_out = String::from_str(p.req("record-out"));
    let deadline_ms = p.uint("deadline-ms", 1, u64::MAX)?;
    let max_parallel = match p.uint("max-parallel-requests", 1, 64)? {
        Some(x) => x as usize,
        None => 4,
    };
    let sink_timeout_ms = match p.uint("sink-timeout-ms", 1, 600_000)? {
        Some(x) => x,
        None => 5_000,
    };
    Ok(
        RunSettings {
            evaluation_time,
            decision_id,
            record_out,
            deadline_ms,
            max_parallel,
            sink_timeout_ms,
            capture,
        },
    )
}

/// Every `run` flag, checked before admission; `--now-ms system` reads the
/// system clock once.
pub fn settings(p: &Parsed) -> (r: Result<RunSettings, Usage>)
    ensures
        exists|clock: Option<u128>| settings_is(r, run_flags(p.pairs(), clock)),
        req_value(p.pairs(), "now-ms"@) != "system"@ ==> settings_is(r, run_flags(p.pairs(), None)),
{
    let clock = if str_eq(p.req("now-ms"), "system") {
        system_clock_ms()
    } else {
        None
    };
    settings_at(p, clock)
}

proof fn lemma_uint_flag(pairs: Seq<(Seq<char>, Seq<char>)>, flag: Seq<char>, min: u64, max: u64)
    ensures
        uint_flag(pairs, flag, min, max) matches Ok(Some(v)) ==> min <= v <= max,
        uint_flag(pairs, flag, min, max) matches Ok(None) ==> first_value(pairs, flag, 0) is None,
{
}

proof fn lemma_first_with_none(
    flags: Seq<Seq<char>>,
    pairs: Seq<(Seq<char>, Seq<char>)>,
    given: bool,
    i: int,
)
    requires
        0 <= i,
        crate::cli::args::first_with(flags, pairs, given, i) is None,
    ensures
        forall|j: int|
            i <= j < flags.len() ==> crate::cli::args::has_pair(pairs, #[trigger] flags[j]) != given,
    decreases flags.len() - i,
{
    if i < flags.len() {
        lemma_first_with_none(flags, pairs, given, i + 1);
    }
}

/// Accepted `run` settings are within their bounds: a decision id of 1 to
/// 256 bytes, 1 to 64 parallel requests, a sink timeout of at most ten
/// minutes; without a capture none of the capture flags was given, and
/// with one its size is within [`MAX_CAPTURE_BYTES`], its lifetime within
/// the host cap, and the bundle's expiry a representable time.
pub proof fn law_accepted_settings_are_in_bounds(
    pairs: Seq<(Seq<char>, Seq<char>)>,
    clock: Option<u128>,
)
    ensures
        run_flags(pairs, clock) matches Ok(v) ==> {
            &&& 1 <= byte_len(v.decision_id) <= 256
            &&& 1 <= v.max_parallel <= 64
            &&& 1 <= v.sink_timeout_ms <= 600_000
            &&& match v.capture {
                None => forall|j: int|
                    0 <= j < capture_only().len() ==> !crate::cli::args::has_pair(
                        pairs,
                        #[trigger] capture_only()[j],
                    ),
                Some(c) => {
                    &&& 1 <= c.max_bytes <= MAX_CAPTURE_BYTES
                    &&& c.lifetime_ms <= match c.host_cap_ms {
                        Some(cap) => cap,
                        None => MAX_BUNDLE_LIFETIME_MS,
                    }
                    &&& ms_in_range(c.now + c.lifetime_ms)
                },
            }
        },
{
    lemma_uint_flag(pairs, "capture-bytes"@, 1, MAX_CAPTURE_BYTES);
    lemma_uint_flag(pairs, "max-parallel-requests"@, 1, 64);
    lemma_uint_flag(pairs, "sink-timeout-ms"@, 1, 600_000);
    if forbid_flags(pairs, capture_only(), "applies only with --capture-bytes"@) is Ok {
        lemma_first_with_none(capture_only(), pairs, true, 0);
    }
}

} // verus!
