//! Host inputs given by flags: the trusted isolation scope and the
//! wall-clock time. Both are checked with the other usage rules, before any
//! file is read.
use vstd::prelude::*;
use vstd::string::StringExecFns;

use crate::cli::args::{
    first_value, forbid_flags, has_pair, uint, uint_value, usage, Parsed, Usage,
};
use crate::order::{byte_len, str_eq};
use crate::scope::{handle_error_text, handle_len_ok, Handle, Scope};
use crate::text::{debug_quoted, debug_text, decimal_text, join, join3, u64_text};
use crate::time::{ms_in_range, ms_result, Timestamp};
use vstd::utf8::encode_utf8;

verus! {

/// The scope flags, in the order [`scope`] reads them.
pub fn scope_flags() -> (r: Vec<&'static str>)
    ensures
        r@.len() == 4,
        r@[0]@ == "scope"@,
        r@[1]@ == "tenant"@,
        r@[2]@ == "context-revision"@,
        r@[3]@ == "principal-scope"@,
{
    vec!["scope", "tenant", "context-revision", "principal-scope"]
}

/// A scope as texts.
pub enum ScopeView {
    TenantOnly { tenant: Seq<char>, revision: Seq<char> },
    Principal { tenant: Seq<char>, revision: Seq<char>, principal: Seq<char> },
}

/// The texts of a scope.
pub open spec fn scope_view(s: Scope) -> ScopeView {
    match s {
        Scope::TenantOnly { tenant, context_revision } => ScopeView::TenantOnly {
            tenant: tenant@,
            revision: context_revision@,
        },
        Scope::Principal { tenant, context_revision, principal_scope } => ScopeView::Principal {
            tenant: tenant@,
            revision: context_revision@,
            principal: principal_scope@,
        },
    }
}

/// The handle `--{flag}` gives.
pub open spec fn handle_flag(pairs: Seq<(Seq<char>, Seq<char>)>, flag: Seq<char>) -> Result<
    Seq<char>,
    Seq<char>,
> {
    match first_value(pairs, flag, 0) {
        None => Err("--"@ + flag + " is required"@),
        Some(v) => if handle_len_ok(byte_len(v) as int) {
            Ok(v)
        } else {
            Err("--"@ + flag + ": "@ + handle_error_text(byte_len(v)))
        },
    }
}

/// What a missing principal scope is told.
pub open spec fn principal_needed() -> Seq<char> {
    "--principal-scope is required in principal mode (the default); tenant-only must be chosen explicitly with --scope tenant-only"@
}

/// The caller's trusted scope, from the flags.
pub open spec fn scope_flag(pairs: Seq<(Seq<char>, Seq<char>)>) -> Result<ScopeView, Seq<char>> {
    match handle_flag(pairs, "tenant"@) {
        Err(m) => Err(m),
        Ok(tenant) => match handle_flag(pairs, "context-revision"@) {
            Err(m) => Err(m),
            Ok(revision) => {
                let mode = match first_value(pairs, "scope"@, 0) {
                    Some(v) => v,
                    None => "principal"@,
                };
                if mode == "principal"@ {
                    if !has_pair(pairs, "principal-scope"@) {
                        Err(principal_needed())
                    } else {
                        match handle_flag(pairs, "principal-scope"@) {
                            Err(m) => Err(m),
                            Ok(principal) => Ok(ScopeView::Principal { tenant, revision, principal }),
                        }
                    }
                } else if mode == "tenant-only"@ {
                    match forbid_flags(
                        pairs,
                        seq!["principal-scope"@],
                        "is not part of a tenant-only scope"@,
                    ) {
                        Err(m) => Err(m),
                        Ok(_) => Ok(ScopeView::TenantOnly { tenant, revision }),
                    }
                } else {
                    Err("--scope is `principal` or `tenant-only`, not "@ + debug_text(mode))
                }
            },
        },
    }
}

/// A required flag's value, empty when it was not given.
pub open spec fn req_value(pairs: Seq<(Seq<char>, Seq<char>)>, flag: Seq<char>) -> Seq<char> {
    match first_value(pairs, flag, 0) {
        Some(v) => v,
        None => Seq::empty(),
    }
}

/// `--now-ms`, given the system clock's reading in milliseconds since the
/// epoch (`None`: before the epoch), which only `system` reads.
pub open spec fn now_flag(pairs: Seq<(Seq<char>, Seq<char>)>, clock: Option<u128>) -> Result<
    int,
    Seq<char>,
> {
    let v = req_value(pairs, "now-ms"@);
    let ms: Result<int, Seq<char>> = if v == "system"@ {
        match clock {
            None => Err("the system clock is before the Unix epoch"@),
            Some(d) => Ok(
                if d <= i64::MAX {
                    d as int
                } else {
                    i64::MAX as int
                },
            ),
        }
    } else {
        match uint_value(encode_utf8(v)) {
            Some(x) => if x <= i64::MAX {
                Ok(x as int)
            } else {
                Err("--now-ms takes milliseconds or `system`, not "@ + debug_text(v))
            },
            None => Err("--now-ms takes milliseconds or `system`, not "@ + debug_text(v)),
        }
    };
    match ms {
        Err(m) => Err(m),
        Ok(x) => if ms_in_range(x) {
            Ok(x)
        } else {
            Err("--now-ms "@ + decimal_text(x as nat) + " is out of range"@)
        },
    }
}

/// A timestamp flag in milliseconds since the Unix epoch.
pub open spec fn timestamp_flag(pairs: Seq<(Seq<char>, Seq<char>)>, flag: Seq<char>) -> Result<
    int,
    Seq<char>,
> {
    let v = req_value(pairs, flag);
    match uint_value(encode_utf8(v)) {
        Some(x) => if x <= i64::MAX && ms_in_range(x as int) {
            Ok(x as int)
        } else {
            Err("--"@ + flag + " takes milliseconds in the contract's range, not "@ + debug_text(v))
        },
        None => Err("--"@ + flag + " takes milliseconds in the contract's range, not "@ + debug_text(v)),
    }
}

/// `r` is the timestamp `m` stands for, or its refusal.
pub open spec fn timestamp_is(r: Result<Timestamp, Usage>, m: Result<int, Seq<char>>) -> bool {
    match m {
        Ok(ms) => r matches Ok(t) && t@ == ms,
        Err(msg) => r matches Err(u) && u.0@ == msg,
    }
}

/// `r` is the scope `m` stands for, or its refusal.
pub open spec fn scope_is(r: Result<Scope, Usage>, m: Result<ScopeView, Seq<char>>) -> bool {
    match m {
        Ok(v) => r matches Ok(s) && scope_view(s) == v,
        Err(msg) => r matches Err(u) && u.0@ == msg,
    }
}

/// The handle `--{flag}` gives.
fn handle(p: &Parsed, flag: &str) -> (r: Result<Handle, Usage>)
    ensures
        match handle_flag(p.pairs(), flag@) {
            Ok(v) => r matches Ok(h) && h@ == v,
            Err(m) => r matches Err(u) && u.0@ == m,
        },
{
    let v = match p.one(flag) {
        None => {
            return usage(join3("--", flag, " is required"));
        },
        Some(v) => v,
    };
    match Handle::new(String::from_str(v)) {
        Ok(h) => Ok(h),
        Err(e) => {
            let mut m = join3("--", flag, ": ");
            m.append(e.message().as_str());
            Err(Usage(m))
        },
    }
}

/// The caller's trusted scope. Principal mode is the default; a missing
/// principal scope is an error there, never a downgrade to tenant-only.
pub fn scope(p: &Parsed) -> (r: Result<Scope, Usage>)
    ensures
        scope_is(r, scope_flag(p.pairs())),
{
    let tenant = handle(p, "tenant")?;
    let revision = handle(p, "context-revision")?;
    let mode = match p.one("scope") {
        Some(v) => v,
        None => "principal",
    };
    if str_eq(mode, "principal") {
        if !p.has("principal-scope") {
            return usage(
                String::from_str(
                    "--principal-scope is required in principal mode (the default); tenant-only must be chosen explicitly with --scope tenant-only",
                ),
            );
        }
        let principal = handle(p, "principal-scope")?;
        Ok(Scope::principal(tenant, revision, principal))
    } else if str_eq(mode, "tenant-only") {
        let f = vec!["principal-scope"];
        proof {
            assert(crate::cli::args::strs(f@) =~= seq!["principal-scope"@]);
        }
        p.forbid(f.as_slice(), "is not part of a tenant-only scope")?;
        Ok(Scope::tenant_only(tenant, revision))
    } else {
        usage(join("--scope is `principal` or `tenant-only`, not ", debug_quoted(mode).as_str()))
    }
}

/// Milliseconds since the Unix epoch on the system clock, `None` when the
/// clock reads before the epoch: `SystemTime::now`, measured from
/// `UNIX_EPOCH`. Nothing is promised of the reading.
#[verifier::external_body]
pub(crate) fn system_clock_ms() -> (r: Option<u128>) {
    match std::time::SystemTime::now().duration_since(std::time::UNIX_EPOCH) {
        Ok(d) => Some(d.as_millis()),
        Err(_) => None,
    }
}

/// `--now-ms` given the system clock's reading, which only `system` uses.
pub fn now_at(p: &Parsed, clock: Option<u128>) -> (r: Result<Timestamp, Usage>)
    ensures
        timestamp_is(r, now_flag(p.pairs(), clock)),
{
    let v = p.req("now-ms");
    let ms: i64 = if str_eq(v, "system") {
        match clock {
            None => {
                return usage(String::from_str("the system clock is before the Unix epoch"));
            },
            Some(d) => if d <= i64::MAX as u128 {
                d as i64
            } else {
                i64::MAX
            },
        }
    } else {
        match uint(v) {
            Some(x) if x <= i64::MAX as u64 => x as i64,
            _ => {
                return usage(
                    join("--now-ms takes milliseconds or `system`, not ", debug_quoted(v).as_str()),
                );
            },
        }
    };
    match Timestamp::from_ms(ms) {
        Ok(t) => Ok(t),
        Err(_) => usage(join3("--now-ms ", u64_text(ms as u64).as_str(), " is out of range")),
    }
}

/// `--now-ms`: milliseconds since the Unix epoch, or `system`, which reads
/// the system clock once.
pub fn now(p: &Parsed) -> (r: Result<Timestamp, Usage>)
    ensures
        exists|clock: Option<u128>| timestamp_is(r, now_flag(p.pairs(), clock)),
        req_value(p.pairs(), "now-ms"@) != "system"@ ==> timestamp_is(r, now_flag(p.pairs(), None)),
{
    let clock = if str_eq(p.req("now-ms"), "system") {
        system_clock_ms()
    } else {
        None
    };
    now_at(p, clock)
}

/// A timestamp flag in milliseconds since the Unix epoch.
pub fn timestamp(p: &Parsed, flag: &str) -> (r: Result<Timestamp, Usage>)
    ensures
        timestamp_is(r, timestamp_flag(p.pairs(), flag@)),
{
    let v = p.req(flag);
    let refused = join3("--", flag, " takes milliseconds in the contract's range, not ");
    match uint(v) {
        Some(x) if x <= i64::MAX as u64 => match Timestamp::from_ms(x as i64) {
            Ok(t) => Ok(t),
            Err(_) => {
                let mut m = refused;
                m.append(debug_quoted(v).as_str());
                Err(Usage(m))
            },
        },
        _ => {
            let mut m = refused;
            m.append(debug_quoted(v).as_str());
            Err(Usage(m))
        },
    }
}

} // verus!
