//! The remote protocol documents, `rustev.remote/1`, and the
//! vendor-neutral exchange record, `rustev.remote-exchange/1`: types only,
//! no transport. Nothing a remote party returns is authorization: an infer
//! answer is an output or a classified failure, and everything else it
//! carries is retained in the exchange record, which no policy reads.
use vstd::prelude::*;
use vstd::string::StrSliceExecFns;
use vstd::utf8::encode_utf8;

use crate::descriptor::BackendDescriptor;
use crate::ids::{ArtifactId, DescriptorId};
use crate::order::{byte_len, lemma_text_lt_order, strictly_sorted, text_lt};
use crate::run::{Charge, CostBound};
use crate::schema;
use crate::text::{cut_of, is_cut, lemma_byte_len_step, lemma_cut_unique, width_of};
use crate::text_map::TextMap;

verus! {

/// The protocol's major version.
pub const PROTOCOL_MAJOR: u32 = 1;

/// The protocol's name, as recorded in exchange records.
pub const PROTOCOL: &'static str = "rustev.remote/1";

/// Free text in a failure detail or an exchange record is cut to this many
/// bytes.
pub const MAX_TEXT_BYTES: usize = 256;

/// The most items one infer request may carry, and the most members an
/// exchange record lists.
pub const MAX_ITEMS: usize = 32;

/// The most route entries an exchange record keeps.
pub const MAX_ROUTE: usize = 8;

/// The most entries of each map an exchange record keeps.
pub const MAX_ENTRIES: usize = 16;

/// `s` cut to at most `max` bytes, on a character boundary.
pub fn cut_to(s: &str, max: usize) -> (r: String)
    ensures
        is_cut(r@, s@, max as int),
        r@ == cut_of(s@, max as int),
{
    if s.as_bytes().len() <= max {
        proof {
            assert(s@.take(s@.len() as int) =~= s@);
            lemma_cut_unique(s@, s@, max as int);
        }
        return s.to_owned();
    }
    let n = s.unicode_len();
    let mut k: usize = 0;
    let mut b: usize = 0;
    let mut done = false;
    proof {
        assert(s@.take(0) =~= Seq::<char>::empty());
        assert(encode_utf8(Seq::<char>::empty()) =~= Seq::<u8>::empty());
    }
    while k < n && !done
        invariant
            n == s@.len(),
            k <= n,
            b == byte_len(s@.take(k as int)),
            b <= max,
            byte_len(s@) > max,
            done ==> k < n && byte_len(s@.take(k + 1)) > max,
        decreases n - k, (if done {
            0int
        } else {
            1int
        }),
    {
        let w = width_of(s.get_char(k));
        proof {
            lemma_byte_len_step(s@, k as int);
        }
        if w > max - b {
            done = true;
        } else {
            b = b + w;
            k = k + 1;
        }
    }
    proof {
        if k == n {
            assert(s@.take(n as int) =~= s@);
        }
    }
    let r = s.substring_char(0, k);
    proof {
        assert(r@ =~= s@.take(k as int));
        lemma_cut_unique(r@, s@, max as int);
    }
    r.to_owned()
}


/// `s` cut to at most [`MAX_TEXT_BYTES`] bytes, on a character boundary.
pub fn cut_text(s: &str) -> (r: String)
    ensures
        r@ == cut_of(s@, MAX_TEXT_BYTES as int),
        is_cut(r@, s@, MAX_TEXT_BYTES as int),
{
    cut_to(s, MAX_TEXT_BYTES)
}

/// The closed error taxonomy of the remote protocol.
#[derive(Debug, Clone, Copy, PartialEq, Eq, PartialOrd, Ord, Hash)]
pub enum RemoteCode {
    TransportUnsent,
    TransportInterrupted,
    RateLimited,
    Overloaded,
    Unauthorized,
    Capability,
    MalformedRequest,
    MalformedResponse,
    IdentityMismatch,
    RemoteDeadline,
    RemoteError,
    Cancelled,
}

/// The wire name of a code.
pub open spec fn code_name(c: RemoteCode) -> Seq<char> {
    match c {
        RemoteCode::TransportUnsent => "transport_unsent"@,
        RemoteCode::TransportInterrupted => "transport_interrupted"@,
        RemoteCode::RateLimited => "rate_limited"@,
        RemoteCode::Overloaded => "overloaded"@,
        RemoteCode::Unauthorized => "unauthorized"@,
        RemoteCode::Capability => "capability"@,
        RemoteCode::MalformedRequest => "malformed_request"@,
        RemoteCode::MalformedResponse => "malformed_response"@,
        RemoteCode::IdentityMismatch => "identity_mismatch"@,
        RemoteCode::RemoteDeadline => "remote_deadline"@,
        RemoteCode::RemoteError => "remote_error"@,
        RemoteCode::Cancelled => "cancelled"@,
    }
}

impl RemoteCode {
    /// The code as it appears on the wire and in failure details.
    pub fn as_str(self) -> (r: &'static str)
        ensures
            r@ == code_name(self),
    {
        match self {
            RemoteCode::TransportUnsent => "transport_unsent",
            RemoteCode::TransportInterrupted => "transport_interrupted",
            RemoteCode::RateLimited => "rate_limited",
            RemoteCode::Overloaded => "overloaded",
            RemoteCode::Unauthorized => "unauthorized",
            RemoteCode::Capability => "capability",
            RemoteCode::MalformedRequest => "malformed_request",
            RemoteCode::MalformedResponse => "malformed_response",
            RemoteCode::IdentityMismatch => "identity_mismatch",
            RemoteCode::RemoteDeadline => "remote_deadline",
            RemoteCode::RemoteError => "remote_error",
            RemoteCode::Cancelled => "cancelled",
        }
    }
}

/// How far the remote side supports cancellation.
#[derive(Debug, Clone, Copy, PartialEq, Eq)]
pub enum CancelSupport {
    NoCancel,
    /// A cancel is accepted; a stop is never confirmed.
    BestEffort,
    /// A cancel is answered with a confirmed stop and its final charge.
    Confirmed,
}

/// What a served identity is worth.
#[derive(Debug, Clone, Copy, PartialEq, Eq, PartialOrd, Ord)]
pub enum Disclosure {
    /// The remote side guarantees the identity.
    Pinned,
    /// The remote side said so; unverified.
    Reported,
    /// Nothing is known. Never replaced by a requested model or a slug.
    Unknown,
}

/// Served-identity disclosure as negotiated. `identity` is the pinned
/// identity, present exactly when `disclosure` is `pinned`.
#[derive(Debug, Clone, PartialEq, Eq)]
pub struct ServedTerms {
    pub disclosure: Disclosure,
    pub identity: Option<String>,
}

/// Shared-state batching support.
#[derive(Debug, Clone, Copy, PartialEq, Eq)]
pub enum Batching {
    NoBatching,
    SharedState { max_items: u32 },
}

/// Terms negotiated beside the descriptor. The runtime never reads them;
/// the adapter enforces and records them.
#[derive(Debug, Clone, PartialEq, Eq)]
pub struct RemoteTerms {
    /// The per-call cost disclosure, in the remote side's units.
    pub cost: CostBound,
    /// False only when the remote side documents that refused requests are
    /// not charged.
    pub refusals_charged: bool,
    pub cancellation: CancelSupport,
    pub served: ServedTerms,
    pub batching: Batching,
    pub max_request_bytes: u64,
    pub max_response_bytes: u64,
    /// How long an attempt id is remembered for idempotency.
    pub idempotency_window_ms: u64,
    /// Privacy options the remote side accepts, by name.
    pub privacy: Vec<String>,
}

/// A served identity as recorded.
#[derive(Debug, Clone, PartialEq, Eq)]
pub struct ServedIdentity {
    pub identity: Option<String>,
    pub disclosure: Disclosure,
}

impl ServedIdentity {
    /// The explicit `unknown` value.
    pub fn unknown() -> (r: ServedIdentity)
        ensures
            r.identity is None,
            r.disclosure == Disclosure::Unknown,
    {
        ServedIdentity { identity: None, disclosure: Disclosure::Unknown }
    }
}

/// The protocol major versions the client supports.
#[derive(Debug, Clone, PartialEq, Eq)]
pub struct DescribeRequest {
    pub schema: String,
    pub versions: Vec<u32>,
}

/// The chosen version and, per hosted backend, its descriptor, descriptor
/// identity and terms.
#[derive(Debug, Clone, PartialEq, Eq)]
pub struct DescribeResponse {
    pub schema: String,
    pub version: u32,
    pub backends: Vec<HostedBackend>,
}

/// One backend a remote endpoint hosts.
#[derive(Debug, Clone, PartialEq, Eq)]
pub struct HostedBackend {
    pub descriptor: BackendDescriptor,
    pub descriptor_id: DescriptorId,
    pub terms: RemoteTerms,
}

/// A batch of projections for one backend.
#[derive(Debug, Clone, PartialEq, Eq)]
pub struct InferRequest {
    pub schema: String,
    pub version: u32,
    pub backend_id: String,
    /// The negotiated descriptor; a different one is `identity_mismatch`.
    pub descriptor: DescriptorId,
    /// The negotiated remote artifact.
    pub artifact: ArtifactId,
    /// The attempt's remaining budget minus the declared transit margin.
    pub budget_ms: u64,
    pub trace_id: String,
    /// Privacy options requested; never claimed honored.
    pub privacy: TextMap<String>,
    pub items: Vec<InferItem>,
}

/// One projection of an infer request.
#[derive(Debug, Clone, PartialEq, Eq)]
pub struct InferItem {
    /// The idempotency key.
    pub attempt_id: String,
    /// The projection's exact canonical bytes, which are UTF-8 JSON.
    pub projection: String,
}

/// A request to cancel attempts.
#[derive(Debug, Clone, PartialEq, Eq)]
pub struct CancelRequest {
    pub schema: String,
    pub version: u32,
    pub backend_id: String,
    pub attempt_ids: Vec<String>,
}

/// The answers to a cancel request.
#[derive(Debug, Clone, PartialEq, Eq)]
pub struct CancelResponse {
    pub schema: String,
    pub version: u32,
    pub answers: Vec<CancelItem>,
}

/// The answer for one attempt.
#[derive(Debug, Clone, PartialEq, Eq)]
pub struct CancelItem {
    pub attempt_id: String,
    pub answer: RemoteCancelAnswer,
}

/// What the remote side says of a cancelled attempt.
#[derive(Debug, Clone, Copy, PartialEq, Eq)]
pub enum RemoteCancelAnswer {
    /// Work and charges stopped; the final charge, in remote units.
    Stopped { charge: Charge },
    Unconfirmed,
    UnknownAttempt,
}

/// One exchange, keyed by the attempt ids it served. Bounded: every string
/// is cut to [`MAX_TEXT_BYTES`] and every collection to its cap by
/// [`ExchangeRecord::bounded`]. Request and response bytes are never in the
/// record; only their digests are.
#[derive(Debug, Clone, PartialEq, Eq)]
pub struct ExchangeRecord {
    pub schema: String,
    /// The wire protocol: [`PROTOCOL`] or a foreign mapping's own label.
    pub protocol: String,
    /// The adapter binding identity.
    pub binding: ArtifactId,
    /// Every member attempt, in attempt-id order.
    pub members: Vec<ExchangeMember>,
    /// `sha256:` digest of the request bytes, when any were built.
    pub request_digest: Option<String>,
    /// `sha256:` digest of the response bytes, when any were read.
    pub response_digest: Option<String>,
    /// Whether any request byte left the process.
    pub bytes_sent: bool,
    pub status: Option<u16>,
    /// Recorded verbatim, never slept on.
    pub retry_after: Option<String>,
    pub requested_model: Option<String>,
    pub served: ServedIdentity,
    pub route: Vec<String>,
    pub generation_id: Option<String>,
    /// Usage as reported (for example token counts), by name.
    pub usage: TextMap<u64>,
    /// Cost as reported, verbatim; units are not money.
    pub reported_cost: Option<ReportedCost>,
    /// The exchange's charge in deployment units, before attribution.
    pub exchange_charge: Charge,
    pub attribution: Attribution,
    pub privacy_requested: TextMap<String>,
    /// Provider-reported extras: argmax, confidence, explanations.
    pub provider_extras: TextMap<String>,
    /// The response arrived after the attempts stopped waiting; nothing in it
    /// was supplied.
    pub late: bool,
    /// Something was cut to fit the record's bounds.
    pub truncated: bool,
}

/// One attempt an exchange served.
#[derive(Debug, Clone, PartialEq, Eq)]
pub struct ExchangeMember {
    pub attempt_id: String,
    pub outcome: MemberOutcome,
    /// The charge supplied to the runtime for this member, or, in a late
    /// record, the share offered for reconciliation.
    pub charge: Charge,
}

/// What one member got.
#[derive(Debug, Clone, PartialEq, Eq)]
pub enum MemberOutcome {
    /// An output; `digest` is `sha256:` of its record canonical bytes.
    Output { digest: String },
    Failure { code: RemoteCode, detail: String },
}

/// Cost as reported.
#[derive(Debug, Clone, PartialEq, Eq)]
pub struct ReportedCost {
    /// A decimal string exactly as reported.
    pub amount: String,
    pub currency: String,
}

/// How an exchange's charge reached its members.
#[derive(Debug, Clone, Copy, PartialEq, Eq)]
pub enum Attribution {
    /// One member carries the whole charge.
    Single,
    /// Integer shares in attempt-id order over the members that received the
    /// response; members that stopped waiting report `unknown`.
    SharedState { coalescing_window_ms: u64 },
}

// ---------------------------------------------------------------------------
// The exchange record's fixed bounds.

/// A text within [`MAX_TEXT_BYTES`].
pub open spec fn text_fits(s: Seq<char>) -> bool {
    byte_len(s) <= MAX_TEXT_BYTES
}

/// An optional text within [`MAX_TEXT_BYTES`].
pub open spec fn opt_fits(o: Option<String>) -> bool {
    match o {
        Some(s) => text_fits(s@),
        None => true,
    }
}

/// A member whose texts fit.
pub open spec fn member_fits(m: ExchangeMember) -> bool {
    &&& text_fits(m.attempt_id@)
    &&& match m.outcome {
        MemberOutcome::Failure { detail, .. } => text_fits(detail@),
        MemberOutcome::Output { digest } => text_fits(digest@),
    }
}

/// At most [`MAX_ENTRIES`] entries, each key fitting.
pub open spec fn keys_fit<V>(m: TextMap<V>) -> bool {
    &&& m.keys().len() <= MAX_ENTRIES
    &&& forall|i: int| 0 <= i < m.keys().len() ==> text_fits(#[trigger] m.keys()[i])
}

/// At most [`MAX_ENTRIES`] entries, each key and value fitting.
pub open spec fn texts_fit(m: TextMap<String>) -> bool {
    &&& keys_fit(m)
    &&& forall|i: int| 0 <= i < m.values().len() ==> text_fits((#[trigger] m.values()[i])@)
}

/// A record within its fixed bounds.
pub open spec fn record_fits(r: ExchangeRecord) -> bool {
    &&& text_fits(r.protocol@)
    &&& r.members@.len() <= MAX_ITEMS
    &&& forall|i: int| 0 <= i < r.members@.len() ==> member_fits(#[trigger] r.members@[i])
    &&& opt_fits(r.request_digest)
    &&& opt_fits(r.response_digest)
    &&& opt_fits(r.retry_after)
    &&& opt_fits(r.requested_model)
    &&& opt_fits(r.served.identity)
    &&& r.route@.len() <= MAX_ROUTE
    &&& forall|i: int| 0 <= i < r.route@.len() ==> text_fits((#[trigger] r.route@[i])@)
    &&& opt_fits(r.generation_id)
    &&& keys_fit(r.usage)
    &&& match r.reported_cost {
        Some(c) => text_fits(c.amount@) && text_fits(c.currency@),
        None => true,
    }
    &&& texts_fit(r.privacy_requested)
    &&& texts_fit(r.provider_extras)
}

/// Whether `s` is within [`MAX_TEXT_BYTES`].
fn fits(s: &str) -> (r: bool)
    ensures
        r == text_fits(s@),
{
    s.as_bytes().len() <= MAX_TEXT_BYTES
}

/// Whether an optional text fits.
fn opt_text_fits(o: &Option<String>) -> (r: bool)
    ensures
        r == opt_fits(*o),
{
    match o {
        Some(s) => fits(s.as_str()),
        None => true,
    }
}

/// Whether a map's keys fit and it has at most [`MAX_ENTRIES`] entries.
fn map_keys_fit<V>(m: &TextMap<V>) -> (r: bool)
    ensures
        r == keys_fit(*m),
{
    let n = m.len();
    if n > MAX_ENTRIES {
        return false;
    }
    let mut i: usize = 0;
    while i < n
        invariant
            n == m.keys().len(),
            i <= n,
            forall|j: int| 0 <= j < i ==> text_fits(#[trigger] m.keys()[j]),
        decreases n - i,
    {
        if !fits(m.key_at(i)) {
            return false;
        }
        i = i + 1;
    }
    true
}

/// Whether a text map's keys and values fit.
fn map_texts_fit(m: &TextMap<String>) -> (r: bool)
    ensures
        r == texts_fit(*m),
{
    if !map_keys_fit(m) {
        return false;
    }
    let n = m.len();
    let mut i: usize = 0;
    while i < n
        invariant
            n == m.values().len(),
            n == m.keys().len(),
            i <= n,
            forall|j: int| 0 <= j < i ==> text_fits((#[trigger] m.values()[j])@),
        decreases n - i,
    {
        if !fits(m.value_at(i).as_str()) {
            return false;
        }
        i = i + 1;
    }
    true
}

impl ExchangeRecord {
    /// True when the record is within its bounds, as
    /// [`ExchangeRecord::bounded`] leaves it.
    pub fn is_bounded(&self) -> (r: bool)
        ensures
            r == record_fits(*self),
    {
        if !fits(self.protocol.as_str()) || self.members.len() > MAX_ITEMS {
            return false;
        }
        let mut i: usize = 0;
        while i < self.members.len()
            invariant
                i <= self.members@.len(),
                forall|j: int| 0 <= j < i ==> member_fits(#[trigger] self.members@[j]),
            decreases self.members@.len() - i,
        {
            let m = &self.members[i];
            let ok = fits(m.attempt_id.as_str()) && match &m.outcome {
                MemberOutcome::Failure { detail, .. } => fits(detail.as_str()),
                MemberOutcome::Output { digest } => fits(digest.as_str()),
            };
            if !ok {
                return false;
            }
            i = i + 1;
        }
        if !opt_text_fits(&self.request_digest) || !opt_text_fits(&self.response_digest)
            || !opt_text_fits(&self.retry_after) || !opt_text_fits(&self.requested_model)
            || !opt_text_fits(&self.served.identity) || self.route.len() > MAX_ROUTE {
            return false;
        }
        let mut k: usize = 0;
        while k < self.route.len()
            invariant
                k <= self.route@.len(),
                forall|j: int| 0 <= j < k ==> text_fits((#[trigger] self.route@[j])@),
            decreases self.route@.len() - k,
        {
            if !fits(self.route[k].as_str()) {
                return false;
            }
            k = k + 1;
        }
        if !opt_text_fits(&self.generation_id) || !map_keys_fit(&self.usage) {
            return false;
        }
        let cost_ok = match &self.reported_cost {
            Some(c) => fits(c.amount.as_str()) && fits(c.currency.as_str()),
            None => true,
        };
        cost_ok && map_texts_fit(&self.privacy_requested) && map_texts_fit(&self.provider_extras)
    }
}

/// A text cut to [`MAX_TEXT_BYTES`].
pub open spec fn cut256(s: Seq<char>) -> Seq<char> {
    cut_of(s, MAX_TEXT_BYTES as int)
}

/// An optional text, cut.
pub open spec fn opt_cut(cut: Option<String>, orig: Option<String>) -> bool {
    match orig {
        Some(s) => cut matches Some(c) && c@ == cut256(s@),
        None => cut is None,
    }
}

/// A member with its texts cut: the attempt id and a failure's detail.
pub open spec fn member_cut(cut: ExchangeMember, orig: ExchangeMember) -> bool {
    &&& cut.attempt_id@ == cut256(orig.attempt_id@)
    &&& cut.charge == orig.charge
    &&& match orig.outcome {
        MemberOutcome::Failure { code, detail } => cut.outcome matches MemberOutcome::Failure {
            code: c,
            detail: d,
        } && c == code && d@ == cut256(detail@),
        MemberOutcome::Output { digest } => cut.outcome matches MemberOutcome::Output {
            digest: d,
        } && d@ == digest@,
    }
}

/// The smaller of two integers.
pub open spec fn at_most(n: int, cap: int) -> int {
    if n <= cap {
        n
    } else {
        cap
    }
}

/// The value a cut text map holds at `x`, from its first `n` entries: the
/// first entry whose cut key is `x` wins, and its value is cut.
pub open spec fn cut_texts_at(m: TextMap<String>, x: Seq<char>, n: int) -> Option<Seq<char>>
    decreases n,
{
    if n <= 0 {
        None
    } else {
        match cut_texts_at(m, x, n - 1) {
            Some(v) => Some(v),
            None => if cut256(m.keys()[n - 1]) == x {
                Some(cut256(m.values()[n - 1]@))
            } else {
                None
            },
        }
    }
}

/// The value a cut count map holds at `x`, from its first `n` entries.
pub open spec fn cut_counts_at(m: TextMap<u64>, x: Seq<char>, n: int) -> Option<u64>
    decreases n,
{
    if n <= 0 {
        None
    } else {
        match cut_counts_at(m, x, n - 1) {
            Some(v) => Some(v),
            None => if cut256(m.keys()[n - 1]) == x {
                Some(m.values()[n - 1])
            } else {
                None
            },
        }
    }
}

/// The view of an optional text.
pub open spec fn opt_view(o: Option<String>) -> Option<Seq<char>> {
    match o {
        Some(s) => Some(s@),
        None => None,
    }
}

/// `out` is `m` cut: its first [`MAX_ENTRIES`] entries, keys and values cut.
pub open spec fn texts_cut_from(out: TextMap<String>, m: TextMap<String>) -> bool {
    &&& out.keys().len() <= at_most(m.keys().len() as int, MAX_ENTRIES as int)
    &&& forall|x: Seq<char>| #[trigger]
        opt_view(out.lookup(x)) == cut_texts_at(
            m,
            x,
            at_most(m.keys().len() as int, MAX_ENTRIES as int),
        )
}

/// `out` is `m` cut: its first [`MAX_ENTRIES`] entries, keys cut.
pub open spec fn counts_cut_from(out: TextMap<u64>, m: TextMap<u64>) -> bool {
    &&& out.keys().len() <= at_most(m.keys().len() as int, MAX_ENTRIES as int)
    &&& forall|x: Seq<char>| #[trigger]
        out.lookup(x) == cut_counts_at(m, x, at_most(m.keys().len() as int, MAX_ENTRIES as int))
}

/// Whether cutting a text map changes it.
pub open spec fn texts_need_cut(m: TextMap<String>) -> bool {
    ||| m.keys().len() > MAX_ENTRIES
    ||| exists|j: int|
        0 <= j < at_most(m.keys().len() as int, MAX_ENTRIES as int) && #[trigger] entry_overflows(m, j)
}

/// Whether cutting a count map changes it.
pub open spec fn counts_need_cut(m: TextMap<u64>) -> bool {
    ||| m.keys().len() > MAX_ENTRIES
    ||| exists|j: int|
        0 <= j < at_most(m.keys().len() as int, MAX_ENTRIES as int) && !text_fits(
            #[trigger] m.keys()[j],
        )
}

/// Whether a member needs a cut.
pub open spec fn member_needs_cut(m: ExchangeMember) -> bool {
    ||| !text_fits(m.attempt_id@)
    ||| match m.outcome {
        MemberOutcome::Failure { detail, .. } => !text_fits(detail@),
        _ => false,
    }
}

/// Whether cutting the record changes anything it records.
pub open spec fn record_needs_cut(r: ExchangeRecord) -> bool {
    ||| !text_fits(r.protocol@)
    ||| r.members@.len() > MAX_ITEMS
    ||| exists|i: int|
        0 <= i < at_most(r.members@.len() as int, MAX_ITEMS as int) && member_needs_cut(
            #[trigger] r.members@[i],
        )
    ||| !opt_fits(r.request_digest)
    ||| !opt_fits(r.response_digest)
    ||| !opt_fits(r.retry_after)
    ||| !opt_fits(r.requested_model)
    ||| !opt_fits(r.served.identity)
    ||| r.route@.len() > MAX_ROUTE
    ||| exists|i: int|
        0 <= i < at_most(r.route@.len() as int, MAX_ROUTE as int) && !text_fits(
            (#[trigger] r.route@[i])@,
        )
    ||| !opt_fits(r.generation_id)
    ||| counts_need_cut(r.usage)
    ||| match r.reported_cost {
        Some(c) => !text_fits(c.amount@) || !text_fits(c.currency@),
        None => false,
    }
    ||| texts_need_cut(r.privacy_requested)
    ||| texts_need_cut(r.provider_extras)
}

/// A cut text fits, and one that already fitted is unchanged.
proof fn lemma_cut256(s: Seq<char>)
    ensures
        text_fits(cut256(s)),
        text_fits(s) ==> cut256(s) == s,
{
    let k = crate::text::cut_len(s, MAX_TEXT_BYTES as int, 0);
    lemma_cut_len_fits(s, 0);
    if text_fits(s) {
        assert(s.take(s.len() as int) =~= s);
        lemma_cut_unique(s, s, MAX_TEXT_BYTES as int);
    }
}

proof fn lemma_cut_len_fits(s: Seq<char>, k: int)
    requires
        0 <= k <= s.len(),
        byte_len(s.take(k)) <= MAX_TEXT_BYTES,
    ensures
        byte_len(s.take(crate::text::cut_len(s, MAX_TEXT_BYTES as int, k))) <= MAX_TEXT_BYTES,
    decreases s.len() - k,
{
    if k < s.len() && byte_len(s.take(k + 1)) <= MAX_TEXT_BYTES {
        lemma_cut_len_fits(s, k + 1);
    }
}

/// Cut `s` in place to [`MAX_TEXT_BYTES`], noting whether anything was cut.
fn cut_flag(s: &mut String, truncated: &mut bool)
    ensures
        final(s)@ == cut256(old(s)@),
        *final(truncated) == (*old(truncated) || !text_fits(old(s)@)),
{
    proof {
        lemma_cut256(s@);
    }
    if !fits(s.as_str()) {
        *s = cut_text(s.as_str());
        *truncated = true;
    }
}

/// Cut an optional text in place.
fn cut_opt(s: &mut Option<String>, truncated: &mut bool)
    ensures
        opt_cut(*final(s), *old(s)),
        *final(truncated) == (*old(truncated) || !opt_fits(*old(s))),
{
    match s {
        Some(v) => {
            cut_flag(v, truncated);
        },
        None => {},
    }
}

/// A text map cut to [`MAX_ENTRIES`] entries, keys and values cut; a key
/// that repeats after cutting keeps its first value.
fn cut_map(m: &TextMap<String>, truncated: &mut bool) -> (r: TextMap<String>)
    ensures
        texts_cut_from(r, *m),
        *final(truncated) == (*old(truncated) || texts_need_cut(*m)),
{
    let len = m.len();
    if len > MAX_ENTRIES {
        *truncated = true;
    }
    let n = if len > MAX_ENTRIES {
        MAX_ENTRIES
    } else {
        len
    };
    let ghost t1 = *truncated;
    let mut out: TextMap<String> = TextMap::new();
    let mut j: usize = 0;
    while j < n
        invariant
            len == m.keys().len(),
            len == m.values().len(),
            n == at_most(len as int, MAX_ENTRIES as int),
            t1 == (*old(truncated) || len > MAX_ENTRIES),
            j <= n,
            out.keys().len() <= j,
            forall|x: Seq<char>| #[trigger] opt_view(out.lookup(x)) == cut_texts_at(*m, x, j as int),
            *truncated == (t1 || exists|i: int| 0 <= i < j && entry_overflows(*m, i)),
        decreases n - j,
    {
        let mut k = m.key_at(j).to_owned();
        let mut v = m.value_at(j).clone();
        let ghost t0 = *truncated;
        cut_flag(&mut k, truncated);
        cut_flag(&mut v, truncated);
        let ghost kv = k@;
        let ghost vv = v@;
        let ghost before = out;
        let ghost vs = v;
        proof {
            assert(kv == cut256(m.keys()[j as int]));
            assert(vv == cut256(m.values()[j as int]@));
        }
        let inserted = out.insert_new(k, v);
        proof {
            assert forall|x: Seq<char>| #[trigger] opt_view(out.lookup(x)) == cut_texts_at(
                *m,
                x,
                j + 1,
            ) by {
                assert(opt_view(before.lookup(x)) == cut_texts_at(*m, x, j as int));
                if x == kv {
                    if before.lookup(x) is None {
                        assert(inserted);
                        assert(out.lookup(x) == Some(vs));
                        assert(opt_view(out.lookup(x)) == Some(vv));
                    } else {
                        assert(!inserted);
                    }
                } else {
                    if inserted {
                        assert(out.lookup(x) == before.lookup(x));
                    }
                }
            }
            assert(*truncated == (t0 || entry_overflows(*m, j as int)));
            if t0 && !t1 {
                let i = choose|i: int| 0 <= i < j && entry_overflows(*m, i);
                assert(0 <= i < j + 1 && entry_overflows(*m, i));
            }
            if *truncated && !t0 {
                assert(0 <= j < j + 1 && entry_overflows(*m, j as int));
            }
            if !*truncated {
                assert forall|i: int| 0 <= i < j + 1 implies !entry_overflows(*m, i) by {
                    if i < j {
                        assert(!(0 <= i < j && entry_overflows(*m, i)));
                    }
                }
            }
        }
        j = j + 1;
    }
    out
}

/// Whether an entry's key or value is beyond [`MAX_TEXT_BYTES`].
pub open spec fn entry_overflows(m: TextMap<String>, i: int) -> bool {
    !text_fits(m.keys()[i]) || !text_fits(m.values()[i]@)
}

/// A count map cut to [`MAX_ENTRIES`] entries, keys cut; a key that repeats
/// after cutting keeps its first count.
fn cut_counts(m: &TextMap<u64>, truncated: &mut bool) -> (r: TextMap<u64>)
    ensures
        counts_cut_from(r, *m),
        *final(truncated) == (*old(truncated) || counts_need_cut(*m)),
{
    let len = m.len();
    if len > MAX_ENTRIES {
        *truncated = true;
    }
    let n = if len > MAX_ENTRIES {
        MAX_ENTRIES
    } else {
        len
    };
    let mut out: TextMap<u64> = TextMap::new();
    let mut j: usize = 0;
    while j < n
        invariant
            len == m.keys().len(),
            len == m.values().len(),
            n == at_most(len as int, MAX_ENTRIES as int),
            j <= n,
            out.keys().len() <= j,
            forall|x: Seq<char>| #[trigger] out.lookup(x) == cut_counts_at(*m, x, j as int),
            *truncated == (*old(truncated) || len > MAX_ENTRIES || exists|i: int|
                0 <= i < j && !text_fits(#[trigger] m.keys()[i])),
        decreases n - j,
    {
        let mut k = m.key_at(j).to_owned();
        let v = *m.value_at(j);
        let ghost t0 = *truncated;
        cut_flag(&mut k, truncated);
        let ghost kv = k@;
        let ghost before = out;
        let _ = out.insert_new(k, v);
        proof {
            assert forall|x: Seq<char>| #[trigger] out.lookup(x) == cut_counts_at(*m, x, j + 1) by {
            }
            if *truncated && !t0 {
                assert(!text_fits(m.keys()[j as int]));
            }
        }
        j = j + 1;
    }
    out
}

/// A key the cut text map holds fits, and so does its value.
proof fn lemma_cut_texts_fit(m: TextMap<String>, x: Seq<char>, n: int)
    requires
        cut_texts_at(m, x, n) is Some,
    ensures
        text_fits(x),
        text_fits(cut_texts_at(m, x, n)->0),
    decreases n,
{
    if n > 0 {
        if cut_texts_at(m, x, n - 1) is Some {
            lemma_cut_texts_fit(m, x, n - 1);
        } else {
            lemma_cut256(m.keys()[n - 1]);
            lemma_cut256(m.values()[n - 1]@);
        }
    }
}

/// A key the cut count map holds fits.
proof fn lemma_cut_counts_fit(m: TextMap<u64>, x: Seq<char>, n: int)
    requires
        cut_counts_at(m, x, n) is Some,
    ensures
        text_fits(x),
    decreases n,
{
    if n > 0 {
        if cut_counts_at(m, x, n - 1) is Some {
            lemma_cut_counts_fit(m, x, n - 1);
        } else {
            lemma_cut256(m.keys()[n - 1]);
        }
    }
}

/// The value a map holds at its `i`th key is its `i`th value.
proof fn lemma_lookup_at<V>(m: TextMap<V>, i: int)
    requires
        strictly_sorted(m.keys()),
        0 <= i < m.keys().len(),
    ensures
        m.lookup(m.keys()[i]) == Some(m.values()[i]),
{
    m.lemma_lengths();
    let k = m.keys()[i];
    assert(m.keys()[i] == k);
    let p = m.position(k)->0;
    if p != i {
        lemma_text_lt_order(k, k, k);
        if p < i {
            assert(text_lt(m.keys()[p], m.keys()[i]));
        } else {
            assert(text_lt(m.keys()[i], m.keys()[p]));
        }
    }
}

/// A cut text map is within its bounds.
proof fn lemma_texts_cut_fit(out: TextMap<String>, m: TextMap<String>)
    requires
        texts_cut_from(out, m),
        strictly_sorted(out.keys()),
    ensures
        texts_fit(out),
{
    out.lemma_lengths();
    let n = at_most(m.keys().len() as int, MAX_ENTRIES as int);
    assert forall|i: int| 0 <= i < out.keys().len() implies text_fits(#[trigger] out.keys()[i])
        && text_fits(out.values()[i]@) by {
        lemma_lookup_at(out, i);
        assert(opt_view(out.lookup(out.keys()[i])) == cut_texts_at(m, out.keys()[i], n));
        lemma_cut_texts_fit(m, out.keys()[i], n);
    }
    assert forall|i: int| 0 <= i < out.values().len() implies text_fits(
        (#[trigger] out.values()[i])@,
    ) by {
        assert(text_fits(out.keys()[i]) && text_fits(out.values()[i]@));
    }
}

/// A cut count map is within its bounds.
proof fn lemma_counts_cut_fit(out: TextMap<u64>, m: TextMap<u64>)
    requires
        counts_cut_from(out, m),
        strictly_sorted(out.keys()),
    ensures
        keys_fit(out),
{
    let n = at_most(m.keys().len() as int, MAX_ENTRIES as int);
    assert forall|i: int| 0 <= i < out.keys().len() implies text_fits(#[trigger] out.keys()[i]) by {
        lemma_lookup_at(out, i);
        assert(out.lookup(out.keys()[i]) == cut_counts_at(m, out.keys()[i], n));
        lemma_cut_counts_fit(m, out.keys()[i], n);
    }
}

/// The digest of an output member fits.
pub open spec fn digest_fits(m: ExchangeMember) -> bool {
    match m.outcome {
        MemberOutcome::Output { digest } => text_fits(digest@),
        _ => true,
    }
}

/// A member with its texts cut.
fn cut_member(m: &ExchangeMember, truncated: &mut bool) -> (r: ExchangeMember)
    ensures
        member_cut(r, *m),
        *final(truncated) == (*old(truncated) || member_needs_cut(*m)),
        digest_fits(*m) ==> member_fits(r),
{
    let mut attempt_id = m.attempt_id.clone();
    cut_flag(&mut attempt_id, truncated);
    let outcome = match &m.outcome {
        MemberOutcome::Output { digest } => MemberOutcome::Output { digest: digest.clone() },
        MemberOutcome::Failure { code, detail } => {
            let mut d = detail.clone();
            cut_flag(&mut d, truncated);
            MemberOutcome::Failure { code: *code, detail: d }
        },
    };
    proof {
        lemma_cut256(m.attempt_id@);
        if m.outcome is Failure {
            lemma_cut256(m.outcome->detail@);
        }
    }
    ExchangeMember { attempt_id, outcome, charge: m.charge }
}

/// Whether the members fit when the first [`MAX_ITEMS`] output digests do.
pub open spec fn digests_fit(r: ExchangeRecord) -> bool {
    forall|i: int|
        0 <= i < at_most(r.members@.len() as int, MAX_ITEMS as int) ==> digest_fits(
            #[trigger] r.members@[i],
        )
}

impl ExchangeRecord {
    /// The record cut to its fixed bounds: every text to [`MAX_TEXT_BYTES`]
    /// (an output digest is kept whole), members to [`MAX_ITEMS`], route to
    /// [`MAX_ROUTE`] and each map to [`MAX_ENTRIES`], with `truncated` set
    /// when anything was cut. The schema is set. Whenever the kept output
    /// digests fit, the result is within its bounds.
    pub fn bounded(self) -> (r: Self)
        ensures
            r.schema@ == schema::REMOTE_EXCHANGE@,
            r.protocol@ == cut256(self.protocol@),
            r.binding == self.binding,
            r.members@.len() == at_most(self.members@.len() as int, MAX_ITEMS as int),
            forall|i: int|
                0 <= i < r.members@.len() ==> member_cut(
                    #[trigger] r.members@[i],
                    self.members@[i],
                ),
            opt_cut(r.request_digest, self.request_digest),
            opt_cut(r.response_digest, self.response_digest),
            r.bytes_sent == self.bytes_sent,
            r.status == self.status,
            opt_cut(r.retry_after, self.retry_after),
            opt_cut(r.requested_model, self.requested_model),
            opt_cut(r.served.identity, self.served.identity),
            r.served.disclosure == self.served.disclosure,
            r.route@.len() == at_most(self.route@.len() as int, MAX_ROUTE as int),
            forall|i: int|
                0 <= i < r.route@.len() ==> (#[trigger] r.route@[i])@ == cut256(
                    self.route@[i]@,
                ),
            opt_cut(r.generation_id, self.generation_id),
            counts_cut_from(r.usage, self.usage),
            match self.reported_cost {
                Some(c) => r.reported_cost matches Some(d) && d.amount@ == cut256(c.amount@)
                    && d.currency@ == cut256(c.currency@),
                None => r.reported_cost is None,
            },
            r.exchange_charge == self.exchange_charge,
            r.attribution == self.attribution,
            texts_cut_from(r.privacy_requested, self.privacy_requested),
            texts_cut_from(r.provider_extras, self.provider_extras),
            r.late == self.late,
            r.truncated == (self.truncated || record_needs_cut(self)),
            digests_fit(self) ==> record_fits(r),
    {
        let ghost orig = self;
        let mut t = self.truncated;
        let mut protocol = self.protocol;
        cut_flag(&mut protocol, &mut t);
        let nm = if self.members.len() > MAX_ITEMS {
            t = true;
            MAX_ITEMS
        } else {
            self.members.len()
        };
        let ghost t1 = t;
        let mut members: Vec<ExchangeMember> = Vec::new();
        let mut i: usize = 0;
        while i < nm
            invariant
                nm == at_most(orig.members@.len() as int, MAX_ITEMS as int),
                orig.members == self.members,
                i <= nm,
                members@.len() == i,
                forall|j: int| 0 <= j < i ==> member_cut(#[trigger] members@[j], orig.members@[j]),
                forall|j: int|
                    0 <= j < i ==> digest_fits(orig.members@[j]) ==> member_fits(
                        #[trigger] members@[j],
                    ),
                t == (t1 || exists|j: int|
                    0 <= j < i && member_needs_cut(#[trigger] orig.members@[j])),
            decreases nm - i,
        {
            let ghost t0 = t;
            let m = cut_member(&self.members[i], &mut t);
            members.push(m);
            proof {
                if t && !t0 {
                    assert(member_needs_cut(orig.members@[i as int]));
                }
                if t0 && !t1 {
                    let j = choose|j: int|
                        0 <= j < i && member_needs_cut(#[trigger] orig.members@[j]);
                    assert(0 <= j < i + 1 && member_needs_cut(orig.members@[j]));
                }
                if !t {
                    assert forall|j: int| 0 <= j < i + 1 implies !member_needs_cut(
                        #[trigger] orig.members@[j],
                    ) by {
                        if j < i {
                            assert(!(0 <= j < i && member_needs_cut(orig.members@[j])));
                        }
                    }
                }
            }
            i = i + 1;
        }
        let mut request_digest = self.request_digest;
        cut_opt(&mut request_digest, &mut t);
        let mut response_digest = self.response_digest;
        cut_opt(&mut response_digest, &mut t);
        let mut retry_after = self.retry_after;
        cut_opt(&mut retry_after, &mut t);
        let mut requested_model = self.requested_model;
        cut_opt(&mut requested_model, &mut t);
        let mut identity = self.served.identity;
        cut_opt(&mut identity, &mut t);
        let nr = if self.route.len() > MAX_ROUTE {
            t = true;
            MAX_ROUTE
        } else {
            self.route.len()
        };
        let ghost t2 = t;
        let mut route: Vec<String> = Vec::new();
        let mut k: usize = 0;
        while k < nr
            invariant
                nr == at_most(orig.route@.len() as int, MAX_ROUTE as int),
                orig.route == self.route,
                k <= nr,
                route@.len() == k,
                forall|j: int| 0 <= j < k ==> (#[trigger] route@[j])@ == cut256(orig.route@[j]@),
                t == (t2 || exists|j: int| 0 <= j < k && !text_fits((#[trigger] orig.route@[j])@)),
            decreases nr - k,
        {
            let ghost t0 = t;
            let mut x = self.route[k].clone();
            cut_flag(&mut x, &mut t);
            route.push(x);
            proof {
                if t0 && !t2 {
                    let j = choose|j: int| 0 <= j < k && !text_fits((#[trigger] orig.route@[j])@);
                    assert(0 <= j < k + 1 && !text_fits(orig.route@[j]@));
                }
                if t && !t0 {
                    assert(!text_fits(orig.route@[k as int]@));
                }
                if !t {
                    assert forall|j: int| 0 <= j < k + 1 implies text_fits(
                        (#[trigger] orig.route@[j])@,
                    ) by {
                        if j < k {
                            assert(!(0 <= j < k && !text_fits(orig.route@[j]@)));
                        }
                    }
                }
            }
            k = k + 1;
        }
        let mut generation_id = self.generation_id;
        cut_opt(&mut generation_id, &mut t);
        let usage = cut_counts(&self.usage, &mut t);
        let reported_cost = match self.reported_cost {
            Some(c) => {
                let mut amount = c.amount;
                let mut currency = c.currency;
                cut_flag(&mut amount, &mut t);
                cut_flag(&mut currency, &mut t);
                Some(ReportedCost { amount, currency })
            },
            None => None,
        };
        let privacy_requested = cut_map(&self.privacy_requested, &mut t);
        let provider_extras = cut_map(&self.provider_extras, &mut t);
        let _ = usage.len();
        let _ = privacy_requested.len();
        let _ = provider_extras.len();
        proof {
            lemma_cut256(orig.protocol@);
            if let Some(c) = orig.reported_cost {
                lemma_cut256(c.amount@);
                lemma_cut256(c.currency@);
            }
            if let Some(x) = orig.request_digest { lemma_cut256(x@); }
            if let Some(x) = orig.response_digest { lemma_cut256(x@); }
            if let Some(x) = orig.retry_after { lemma_cut256(x@); }
            if let Some(x) = orig.requested_model { lemma_cut256(x@); }
            if let Some(x) = orig.served.identity { lemma_cut256(x@); }
            if let Some(x) = orig.generation_id { lemma_cut256(x@); }
            assert forall|j: int| 0 <= j < route@.len() implies text_fits(
                (#[trigger] route@[j])@,
            ) by {
                lemma_cut256(orig.route@[j]@);
            }
            lemma_counts_cut_fit(usage, orig.usage);
            lemma_texts_cut_fit(privacy_requested, orig.privacy_requested);
            lemma_texts_cut_fit(provider_extras, orig.provider_extras);
        }
        ExchangeRecord {
            schema: schema::REMOTE_EXCHANGE.to_string(),
            protocol,
            binding: self.binding,
            members,
            request_digest,
            response_digest,
            bytes_sent: self.bytes_sent,
            status: self.status,
            retry_after,
            requested_model,
            served: ServedIdentity { identity, disclosure: self.served.disclosure },
            route,
            generation_id,
            usage,
            reported_cost,
            exchange_charge: self.exchange_charge,
            attribution: self.attribution,
            privacy_requested,
            provider_extras,
            late: self.late,
            truncated: t,
        }
    }
}

} // verus!
