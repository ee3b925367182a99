//! Replay isolation scopes. A scope is a host-configured isolation key for
//! retained evidence, never an authority grant. Its two modes are mutually
//! exclusive, and principal scope is the default: a missing principal
//! handle is an error, never a downgrade to tenant-only.
use vstd::prelude::*;


use crate::order::byte_len;
use crate::text::{decimal_text, join, usize_text};

verus! {

/// The most bytes of one scope handle.
pub const MAX_HANDLE_BYTES: usize = 256;

/// Why a string is not a scope handle: its length in bytes.
#[derive(Debug, Clone, PartialEq, Eq)]
pub struct HandleError {
    pub len: usize,
}

/// What a refused handle is told.
pub open spec fn handle_error_text(len: nat) -> Seq<char> {
    "a scope handle is 1 to 256 bytes, not "@ + decimal_text(len)
}

impl HandleError {
    /// The refusal as text.
    pub fn message(&self) -> (r: String)
        ensures
            r@ == handle_error_text(self.len as nat),
    {
        join("a scope handle is 1 to 256 bytes, not ", usize_text(self.len).as_str())
    }
}

/// An opaque, non-secret, non-empty host handle of at most 256 bytes: a
/// tenant, a context revision or a principal scope. Handles are compared
/// and nothing else.
#[derive(Debug, Clone, PartialEq, Eq, PartialOrd, Ord, Hash)]
pub struct Handle(String);

/// Whether text of this many UTF-8 bytes can be a handle.
pub open spec fn handle_len_ok(len: int) -> bool {
    1 <= len <= MAX_HANDLE_BYTES
}

impl View for Handle {
    type V = Seq<char>;

    closed spec fn view(&self) -> Seq<char> {
        self.0@
    }
}

impl Handle {
    /// A handle of 1 to 256 bytes.
    pub fn new(s: String) -> (r: Result<Handle, HandleError>)
        ensures
            r is Ok <==> handle_len_ok(byte_len(s@) as int),
            r matches Ok(h) ==> h@ == s@,
            r matches Err(e) ==> e.len == byte_len(s@),
    {
        let t = s.as_str();
        let len = t.as_bytes().len();
        if len == 0 || len > MAX_HANDLE_BYTES {
            return Err(HandleError { len });
        }
        Ok(Handle(s))
    }

    /// The handle's text.
    pub fn as_str(&self) -> (r: &str)
        ensures
            r@ == self@,
    {
        self.0.as_str()
    }
}

/// The isolation scope of a capture, a bundle and every request identity.
#[derive(Debug, Clone, PartialEq, Eq, PartialOrd, Ord, Hash)]
pub enum Scope {
    /// Reuse across principals within one tenant and context revision: an
    /// explicit host assertion that the computation is principal-independent
    /// and that the host authorizes every reader.
    TenantOnly { tenant: Handle, context_revision: Handle },
    /// Reuse only within one tenant, context revision and effective
    /// principal scope. The default.
    Principal { tenant: Handle, context_revision: Handle, principal_scope: Handle },
}

/// The name of a scope's mode.
pub open spec fn mode_name(s: Scope) -> Seq<char> {
    match s {
        Scope::TenantOnly { .. } => "tenant_only"@,
        Scope::Principal { .. } => "principal"@,
    }
}

/// The tenant of a scope, whatever its mode.
pub open spec fn tenant_of(s: Scope) -> Handle {
    match s {
        Scope::TenantOnly { tenant, .. } => tenant,
        Scope::Principal { tenant, .. } => tenant,
    }
}

impl Scope {
    /// The default mode: principal scope, every handle required.
    pub fn principal(tenant: Handle, context_revision: Handle, principal_scope: Handle) -> (r: Scope)
        ensures
            r == (Scope::Principal { tenant, context_revision, principal_scope }),
    {
        Scope::Principal { tenant, context_revision, principal_scope }
    }

    /// The explicit tenant-only opt-in.
    pub fn tenant_only(tenant: Handle, context_revision: Handle) -> (r: Scope)
        ensures
            r == (Scope::TenantOnly { tenant, context_revision }),
    {
        Scope::TenantOnly { tenant, context_revision }
    }

    /// The mode's name: `tenant_only` or `principal`.
    pub fn mode(&self) -> (r: &'static str)
        ensures
            r@ == mode_name(*self),
    {
        match self {
            Scope::TenantOnly { .. } => "tenant_only",
            Scope::Principal { .. } => "principal",
        }
    }

    /// The tenant handle.
    pub fn tenant(&self) -> (r: &Handle)
        ensures
            *r == tenant_of(*self),
    {
        match self {
            Scope::TenantOnly { tenant, .. } => tenant,
            Scope::Principal { tenant, .. } => tenant,
        }
    }
}

/// The two modes never describe the same scope.
pub proof fn law_modes_differ(a: Scope, b: Scope)
    requires
        a is TenantOnly,
        b is Principal,
    ensures
        a != b,
        mode_name(a) != mode_name(b),
{
    reveal_strlit("tenant_only");
    reveal_strlit("principal");
    assert(mode_name(a)[0] != mode_name(b)[0]);
}

} // verus!
