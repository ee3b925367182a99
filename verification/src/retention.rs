//! Retention items and availability. The host owns storage, access checks,
//! expiry and erasure; a retention item declares what the host kept of one
//! document and until when.
use vstd::prelude::*;

use crate::ids::ContentDigest;
use crate::time::Timestamp;

verus! {

/// A new bundle's metadata lifetime unless the host chooses otherwise:
/// seven days.
pub const DEFAULT_METADATA_LIFETIME_MS: u64 = 604_800_000;

/// The hard maximum lifetime of a bundle, from its creation: thirty days.
/// The host may enforce a shorter cap.
pub const MAX_BUNDLE_LIFETIME_MS: u64 = 2_592_000_000;

/// One retained document, as the host declares it.
#[derive(Debug, Clone, PartialEq, Eq)]
pub struct RetentionItem {
    /// The schema string the document must carry.
    pub document_schema: String,
    /// The document's identity, where its schema defines one.
    pub identity: Option<ContentDigest>,
    pub retention: Retention,
}

/// How the bytes were kept. Every mode has an expiry.
#[derive(Debug, Clone, PartialEq, Eq)]
pub enum Retention {
    /// The record canonical document, embedded as a JSON UTF-8 string.
    Retained { bytes: String, digest: ContentDigest, expires_at_ms: Timestamp },
    /// An opaque host reference; never an instruction to fetch a URL.
    External { reference: String, digest: ContentDigest, expires_at_ms: Timestamp },
    /// Only the digest: always `missing` at replay.
    DigestOnly { digest: ContentDigest, expires_at_ms: Timestamp },
}

/// The expiry of any retention mode.
pub open spec fn expiry_of(r: Retention) -> Timestamp {
    match r {
        Retention::Retained { expires_at_ms, .. } => expires_at_ms,
        Retention::External { expires_at_ms, .. } => expires_at_ms,
        Retention::DigestOnly { expires_at_ms, .. } => expires_at_ms,
    }
}

/// The digest of any retention mode.
pub open spec fn digest_of(r: Retention) -> ContentDigest {
    match r {
        Retention::Retained { digest, .. } => digest,
        Retention::External { digest, .. } => digest,
        Retention::DigestOnly { digest, .. } => digest,
    }
}

/// The name of a retention mode.
pub open spec fn retention_mode_name(r: Retention) -> Seq<char> {
    match r {
        Retention::Retained { .. } => "retained"@,
        Retention::External { .. } => "external"@,
        Retention::DigestOnly { .. } => "digest_only"@,
    }
}

impl Retention {
    /// The digest of the kept bytes.
    pub fn digest(&self) -> (r: &ContentDigest)
        ensures
            *r == digest_of(*self),
    {
        match self {
            Retention::Retained { digest, .. } => digest,
            Retention::External { digest, .. } => digest,
            Retention::DigestOnly { digest, .. } => digest,
        }
    }

    /// When the kept bytes expire.
    pub fn expires_at(&self) -> (r: Timestamp)
        ensures
            r == expiry_of(*self),
    {
        match self {
            Retention::Retained { expires_at_ms, .. } => *expires_at_ms,
            Retention::External { expires_at_ms, .. } => *expires_at_ms,
            Retention::DigestOnly { expires_at_ms, .. } => *expires_at_ms,
        }
    }

    /// The mode's name, for reports.
    pub fn mode(&self) -> (r: &'static str)
        ensures
            r@ == retention_mode_name(*self),
    {
        match self {
            Retention::Retained { .. } => "retained",
            Retention::External { .. } => "external",
            Retention::DigestOnly { .. } => "digest_only",
        }
    }
}

/// What a retained input is at replay time. Only `available` contributes to
/// reproduction; none of the others is a pass.
#[derive(Debug, Clone, Copy, PartialEq, Eq, PartialOrd, Ord, Hash)]
pub enum Availability {
    Available,
    /// Digest-only, or the host has no such bytes.
    Missing,
    /// `now_ms >= expires_at_ms`; takes precedence over erasure at replay.
    Expired,
    /// The host reports the bytes erased before expiry.
    Erased,
    /// The bytes do not match the digest, are not valid JSON, or are not in
    /// record canonical form.
    Corrupt,
    /// The host refused, failed or panicked while resolving.
    Inaccessible,
    /// Intact bytes with a wrong schema, identity, cross-reference or role.
    Mismatched,
}

/// The name of an availability.
pub open spec fn availability_name(a: Availability) -> Seq<char> {
    match a {
        Availability::Available => "available"@,
        Availability::Missing => "missing"@,
        Availability::Expired => "expired"@,
        Availability::Erased => "erased"@,
        Availability::Corrupt => "corrupt"@,
        Availability::Inaccessible => "inaccessible"@,
        Availability::Mismatched => "mismatched"@,
    }
}

impl Availability {
    /// The availability's name, for reports.
    pub fn name(self) -> (r: &'static str)
        ensures
            r@ == availability_name(self),
    {
        match self {
            Availability::Available => "available",
            Availability::Missing => "missing",
            Availability::Expired => "expired",
            Availability::Erased => "erased",
            Availability::Corrupt => "corrupt",
            Availability::Inaccessible => "inaccessible",
            Availability::Mismatched => "mismatched",
        }
    }
}

} // verus!
