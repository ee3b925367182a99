//! Replay bundles, `rustev.replay/1`.
//!
//! A bundle describes one admitted decision: its scope, lifetimes, the
//! retained plan with every descriptor and calibration needed to recompile
//! it, the snapshot, the delivered run record, the capture status, and one
//! entry per value supplied to the core, in actual supply order. It is
//! evidence of what the host retained, never an attestation of a producer or
//! an authorization token.
use vstd::prelude::*;

use crate::ids::{cut_chars, first_chars, PlanId, RequestId, SnapshotId};
use crate::order::{str_eq, strings_eq, texts};
use crate::retention::{expiry_of, RetentionItem, MAX_BUNDLE_LIFETIME_MS};
use crate::schema;
use crate::text::{debug_quoted, debug_text, decimal_text, join, join3, u64_text, usize_text};
use vstd::string::StringExecFns;
use crate::scope::Scope;
use crate::time::{ms_in_range, DurationMs, Timestamp};

verus! {

/// The most descriptors, calibrations or supplies one bundle carries.
pub const MAX_BUNDLE_ITEMS: usize = 4096;

/// The most resolved bytes of one case, external items included.
pub const MAX_RESOLVED_BYTES: usize = 16_777_216;

/// The most bytes of a decision id.
pub const MAX_DECISION_ID_BYTES: usize = 256;

/// One admitted decision as the host retained it.
#[derive(Debug, Clone, PartialEq, Eq)]
pub struct ReplayBundle {
    pub schema: String,
    pub decision_id: String,
    pub scope: Scope,
    /// Host wall-clock times; copying a bundle resets neither.
    pub created_at_ms: Timestamp,
    pub expires_at_ms: Timestamp,
    /// The domain time the decision was evaluated at.
    pub evaluation_time_ms: Timestamp,
    pub plan_id: PlanId,
    pub plan: RetentionItem,
    /// Every descriptor the plan's bindings name.
    pub descriptors: Vec<RetentionItem>,
    /// Every calibration artifact the plan binds.
    pub calibrations: Vec<RetentionItem>,
    pub snapshot_id: SnapshotId,
    pub snapshot: RetentionItem,
    /// The delivered `rustev.run/1` record; the expected judgment is in it.
    pub run: RetentionItem,
    pub capture: CaptureStatus,
    /// In actual supply order.
    pub supplies: Vec<SupplyEntry>,
}

/// Whether every supplied value was captured. Only `complete` reproduces.
#[derive(Debug, Clone, Copy, PartialEq, Eq)]
pub enum CaptureStatus {
    Complete,
    Disabled,
    /// The byte or request cap was hit; captured payloads were discarded.
    LimitExceeded,
    Cancelled,
    Abandoned,
}

/// One value successfully supplied to the core.
#[derive(Debug, Clone, PartialEq, Eq)]
pub struct SupplyEntry {
    pub step: String,
    pub instance: Vec<String>,
    /// The identity of the request for the producing target; the document is
    /// recomputed from the retained plan and snapshot.
    pub request: RequestId,
    /// Actual `supply` order, contiguous from 0.
    pub sequence: u64,
    /// The attempt that produced the value; none when nothing was dispatched
    /// or a retry or fallback followed the last one.
    pub attempt_id: Option<String>,
    /// The target the value came from (0 is the primary, then declared
    /// fallbacks).
    pub target: u32,
    /// A `rustev.backend-output/1` or `rustev.runtime-reason/1` document.
    pub value: RetentionItem,
}

/// Where in a bundle a problem is.
#[derive(Debug, Clone, Copy, PartialEq, Eq, PartialOrd, Ord, Hash)]
pub enum ItemLocation {
    Bundle,
    Plan,
    Descriptor(usize),
    Calibration(usize),
    Snapshot,
    Run,
    Supply(usize),
}

/// What is wrong with a lifetime.
#[derive(Debug, Clone, Copy, PartialEq, Eq)]
pub enum LifetimeProblem {
    /// An expiry at or before creation.
    NotAfterCreation,
    /// A lifetime beyond the hard or host cap.
    ExceedsCap { cap_ms: u64 },
    /// An item that outlives its bundle.
    OutlivesBundle,
}

/// Why a bundle is structurally invalid, before anything is resolved.
#[derive(Debug, Clone, PartialEq, Eq)]
pub enum BundleError {
    /// The schema string, cut to 80 characters.
    Schema(String),
    /// A decision id is 1 to 256 bytes.
    DecisionId,
    Lifetime { location: ItemLocation, problem: LifetimeProblem },
    TooMany { what: &'static str, count: usize },
    /// Supply sequence numbers are not contiguous from 0 in entry order.
    Sequence { index: usize },
    /// Two entries share a step and instance.
    DuplicateSupply { index: usize },
    /// An item declares a document schema its role does not allow.
    Role { location: ItemLocation },
    /// The plan or snapshot item declares an identity other than the
    /// bundle's.
    Identity { location: ItemLocation },
    /// Supplies are listed under a capture that keeps none.
    Supplies { status: CaptureStatus },
}

/// The lifetime cap in force: the hard cap, or a tighter host cap.
pub open spec fn cap_of(host_cap_ms: Option<u64>) -> u64 {
    match host_cap_ms {
        Some(c) => if c < MAX_BUNDLE_LIFETIME_MS {
            c
        } else {
            MAX_BUNDLE_LIFETIME_MS
        },
        None => MAX_BUNDLE_LIFETIME_MS,
    }
}

/// The document schemas an item at `location` may declare.
pub open spec fn role_allows(location: ItemLocation, s: Seq<char>) -> bool {
    match location {
        ItemLocation::Plan => s == schema::PLAN@,
        ItemLocation::Descriptor(_) => s == schema::BACKEND@,
        ItemLocation::Calibration(_) => s == schema::CALIBRATION@,
        ItemLocation::Snapshot => s == schema::SNAPSHOT@,
        ItemLocation::Run => s == schema::RUN@,
        ItemLocation::Supply(_) => s == schema::BACKEND_OUTPUT@ || s == schema::RUNTIME_REASON@,
        ItemLocation::Bundle => false,
    }
}

/// Every retention item of a bundle with its location, in document order.
pub open spec fn bundle_items(b: ReplayBundle) -> Seq<(ItemLocation, RetentionItem)> {
    seq![(ItemLocation::Plan, b.plan)] + Seq::new(
        b.descriptors@.len(),
        |i: int| (ItemLocation::Descriptor(i as usize), b.descriptors@[i]),
    ) + Seq::new(
        b.calibrations@.len(),
        |i: int| (ItemLocation::Calibration(i as usize), b.calibrations@[i]),
    ) + seq![(ItemLocation::Snapshot, b.snapshot), (ItemLocation::Run, b.run)] + Seq::new(
        b.supplies@.len(),
        |i: int| (ItemLocation::Supply(i as usize), b.supplies@[i].value),
    )
}

/// What is wrong with one item of a bundle created at `created` and
/// expiring at `expires`, if anything: its lifetime, then its role.
pub open spec fn item_problem(
    location: ItemLocation,
    item: RetentionItem,
    created: int,
    expires: int,
) -> Option<BundleError> {
    let exp = expiry_of(item.retention)@;
    if exp <= created {
        Some(BundleError::Lifetime { location, problem: LifetimeProblem::NotAfterCreation })
    } else if exp > expires {
        Some(BundleError::Lifetime { location, problem: LifetimeProblem::OutlivesBundle })
    } else if !role_allows(location, item.document_schema@) {
        Some(BundleError::Role { location })
    } else {
        None
    }
}

/// The problem of the first item, in order, that has one.
pub open spec fn first_item_problem(
    items: Seq<(ItemLocation, RetentionItem)>,
    created: int,
    expires: int,
) -> Option<BundleError>
    decreases items.len(),
{
    if items.len() == 0 {
        None
    } else {
        match item_problem(items[0].0, items[0].1, created, expires) {
            Some(e) => Some(e),
            None => first_item_problem(items.drop_first(), created, expires),
        }
    }
}

/// Two supplies with the same step and instance.
pub open spec fn same_key(a: SupplyEntry, b: SupplyEntry) -> bool {
    a.step@ == b.step@ && texts(a.instance@) == texts(b.instance@)
}

/// The first supply, from index `i` on, out of sequence or repeating an
/// earlier step and instance.
pub open spec fn first_supply_problem(s: Seq<SupplyEntry>, i: int) -> Option<BundleError>
    decreases s.len() - i,
{
    if i < 0 || i >= s.len() {
        None
    } else if s[i].sequence != i {
        Some(BundleError::Sequence { index: i as usize })
    } else if exists|j: int| 0 <= j < i && same_key(#[trigger] s[j], s[i]) {
        Some(BundleError::DuplicateSupply { index: i as usize })
    } else {
        first_supply_problem(s, i + 1)
    }
}

/// A declared identity that is not the expected one.
pub open spec fn identity_differs(item: RetentionItem, expected: Seq<char>) -> bool {
    match item.identity {
        Some(d) => d@ != expected,
        None => false,
    }
}

/// Whether a capture status keeps no supplies.
pub open spec fn keeps_no_supplies(c: CaptureStatus) -> bool {
    c is Disabled || c is LimitExceeded
}

/// The verdict on a bundle whose schema and decision id are valid: its
/// lifetime, its item counts, each item's lifetime and role, the declared
/// plan and snapshot identities, the capture status, and the supply
/// sequence, in that order.
pub open spec fn structure_verdict(b: ReplayBundle, host_cap_ms: Option<u64>) -> Result<
    (),
    BundleError,
> {
    let created = b.created_at_ms@;
    let expires = b.expires_at_ms@;
    let cap = cap_of(host_cap_ms);
    if expires <= created {
        Err(
            BundleError::Lifetime {
                location: ItemLocation::Bundle,
                problem: LifetimeProblem::NotAfterCreation,
            },
        )
    } else if ms_in_range(created + cap) && expires > created + cap {
        Err(
            BundleError::Lifetime {
                location: ItemLocation::Bundle,
                problem: LifetimeProblem::ExceedsCap { cap_ms: cap },
            },
        )
    } else if b.descriptors@.len() > MAX_BUNDLE_ITEMS {
        Err(BundleError::TooMany { what: "descriptors", count: b.descriptors@.len() as usize })
    } else if b.calibrations@.len() > MAX_BUNDLE_ITEMS {
        Err(BundleError::TooMany { what: "calibrations", count: b.calibrations@.len() as usize })
    } else if b.supplies@.len() > MAX_BUNDLE_ITEMS {
        Err(BundleError::TooMany { what: "supplies", count: b.supplies@.len() as usize })
    } else if first_item_problem(bundle_items(b), created, expires) is Some {
        Err(first_item_problem(bundle_items(b), created, expires)->0)
    } else if identity_differs(b.plan, b.plan_id@) {
        Err(BundleError::Identity { location: ItemLocation::Plan })
    } else if identity_differs(b.snapshot, b.snapshot_id@) {
        Err(BundleError::Identity { location: ItemLocation::Snapshot })
    } else if b.supplies@.len() > 0 && keeps_no_supplies(b.capture) {
        Err(BundleError::Supplies { status: b.capture })
    } else if first_supply_problem(b.supplies@, 0) is Some {
        Err(first_supply_problem(b.supplies@, 0)->0)
    } else {
        Ok(())
    }
}

proof fn lemma_first_item_step(
    items: Seq<(ItemLocation, RetentionItem)>,
    k: int,
    created: int,
    expires: int,
)
    requires
        0 <= k < items.len(),
        item_problem(items[k].0, items[k].1, created, expires) is None,
    ensures
        first_item_problem(items.skip(k), created, expires) == first_item_problem(
            items.skip(k + 1),
            created,
            expires,
        ),
{
    assert(items.skip(k).drop_first() =~= items.skip(k + 1));
}

proof fn lemma_first_item_found(
    items: Seq<(ItemLocation, RetentionItem)>,
    k: int,
    created: int,
    expires: int,
)
    requires
        0 <= k < items.len(),
        item_problem(items[k].0, items[k].1, created, expires) is Some,
    ensures
        first_item_problem(items.skip(k), created, expires) == item_problem(
            items[k].0,
            items[k].1,
            created,
            expires,
        ),
{
    assert(items.skip(k)[0] == items[k]);
}

impl ReplayBundle {
    /// Every retention item with its location, in document order.
    pub fn items(&self) -> (r: Vec<(ItemLocation, &RetentionItem)>)
        ensures
            r@.len() == bundle_items(*self).len(),
            forall|k: int|
                0 <= k < r@.len() ==> (#[trigger] r@[k]).0 == bundle_items(*self)[k].0 && *r@[k].1
                    == bundle_items(*self)[k].1,
    {
        let ghost all = bundle_items(*self);
        let nd = self.descriptors.len();
        let nc = self.calibrations.len();
        let ns = self.supplies.len();
        let mut v: Vec<(ItemLocation, &RetentionItem)> = Vec::new();
        v.push((ItemLocation::Plan, &self.plan));
        let mut i: usize = 0;
        while i < nd
            invariant
                all == bundle_items(*self),
                nd == self.descriptors@.len(),
                i <= nd,
                v@.len() == 1 + i,
                forall|k: int|
                    0 <= k < v@.len() ==> (#[trigger] v@[k]).0 == all[k].0 && *v@[k].1 == all[k].1,
            decreases nd - i,
        {
            v.push((ItemLocation::Descriptor(i), &self.descriptors[i]));
            i = i + 1;
        }
        let mut i: usize = 0;
        while i < nc
            invariant
                all == bundle_items(*self),
                nd == self.descriptors@.len(),
                nc == self.calibrations@.len(),
                i <= nc,
                v@.len() == 1 + nd + i,
                forall|k: int|
                    0 <= k < v@.len() ==> (#[trigger] v@[k]).0 == all[k].0 && *v@[k].1 == all[k].1,
            decreases nc - i,
        {
            v.push((ItemLocation::Calibration(i), &self.calibrations[i]));
            i = i + 1;
        }
        v.push((ItemLocation::Snapshot, &self.snapshot));
        v.push((ItemLocation::Run, &self.run));
        let mut i: usize = 0;
        while i < ns
            invariant
                all == bundle_items(*self),
                nd == self.descriptors@.len(),
                nc == self.calibrations@.len(),
                ns == self.supplies@.len(),
                i <= ns,
                v@.len() == 3 + nd + nc + i,
                forall|k: int|
                    0 <= k < v@.len() ==> (#[trigger] v@[k]).0 == all[k].0 && *v@[k].1 == all[k].1,
            decreases ns - i,
        {
            v.push((ItemLocation::Supply(i), &self.supplies[i].value));
            i = i + 1;
        }
        v
    }

    /// Structural checks that need no resolved bytes: schema, decision id,
    /// lifetimes under the hard cap and an optional tighter host cap, item
    /// counts, item roles, declared identities, the capture status, and the
    /// supply sequence.
    pub fn check(&self, host_cap_ms: Option<u64>) -> (r: Result<(), BundleError>)
        ensures
            self.schema@ != schema::REPLAY@ ==> (r matches Err(BundleError::Schema(s)) && s@
                == first_chars(self.schema@, 80)),
            self.schema@ == schema::REPLAY@ && !(1 <= self.decision_id@.len() && crate::order::byte_len(
                self.decision_id@,
            ) <= MAX_DECISION_ID_BYTES) ==> r == Err::<(), BundleError>(BundleError::DecisionId),
            self.schema@ == schema::REPLAY@ && 1 <= self.decision_id@.len()
                && crate::order::byte_len(self.decision_id@) <= MAX_DECISION_ID_BYTES ==> r
                == structure_verdict(*self, host_cap_ms),
    {
        if !str_eq(self.schema.as_str(), schema::REPLAY) {
            return Err(BundleError::Schema(cut_chars(self.schema.as_str(), 80)));
        }
        let id = self.decision_id.as_str();
        let id_len = id.as_bytes().len();
        proof {
            vstd::utf8::encode_utf8_decode_utf8(self.decision_id@);
            if self.decision_id@.len() == 0 {
                assert(crate::order::byte_len(self.decision_id@) == 0);
            }
            if id_len == 0 {
                assert(self.decision_id@ == vstd::utf8::decode_utf8(Seq::<u8>::empty()));
            }
        }
        if id_len == 0 || id_len > MAX_DECISION_ID_BYTES {
            return Err(BundleError::DecisionId);
        }
        self.check_structure(host_cap_ms)
    }

    /// The checks after the schema and the decision id.
    fn check_structure(&self, host_cap_ms: Option<u64>) -> (r: Result<(), BundleError>)
        ensures
            r == structure_verdict(*self, host_cap_ms),
    {
        let cap_ms: u64 = match host_cap_ms {
            Some(c) => if c < MAX_BUNDLE_LIFETIME_MS {
                c
            } else {
                MAX_BUNDLE_LIFETIME_MS
            },
            None => MAX_BUNDLE_LIFETIME_MS,
        };
        let created = self.created_at_ms.as_ms();
        let expires = self.expires_at_ms.as_ms();
        if expires <= created {
            return Err(
                BundleError::Lifetime {
                    location: ItemLocation::Bundle,
                    problem: LifetimeProblem::NotAfterCreation,
                },
            );
        }
        // When creation plus the cap is past the last timestamp, every
        // representable expiry is within the cap.
        let beyond = match self.created_at_ms.checked_add(DurationMs(cap_ms)) {
            Ok(latest) => expires > latest.as_ms(),
            Err(_) => false,
        };
        if beyond {
            return Err(
                BundleError::Lifetime {
                    location: ItemLocation::Bundle,
                    problem: LifetimeProblem::ExceedsCap { cap_ms },
                },
            );
        }
        if self.descriptors.len() > MAX_BUNDLE_ITEMS {
            return Err(BundleError::TooMany { what: "descriptors", count: self.descriptors.len() });
        }
        if self.calibrations.len() > MAX_BUNDLE_ITEMS {
            return Err(
                BundleError::TooMany { what: "calibrations", count: self.calibrations.len() },
            );
        }
        if self.supplies.len() > MAX_BUNDLE_ITEMS {
            return Err(BundleError::TooMany { what: "supplies", count: self.supplies.len() });
        }
        let items = self.items();
        let ghost all = bundle_items(*self);
        let mut k: usize = 0;
        proof {
            assert(all.skip(0) =~= all);
        }
        while k < items.len()
            invariant
                all == bundle_items(*self),
                items@.len() == all.len(),
                forall|m: int|
                    0 <= m < items@.len() ==> (#[trigger] items@[m]).0 == all[m].0 && *items@[m].1
                        == all[m].1,
                k <= items@.len(),
                created == self.created_at_ms@,
                expires == self.expires_at_ms@,
                expires > created,
                !(ms_in_range(created + cap_of(host_cap_ms)) && expires > created + cap_of(
                    host_cap_ms,
                )),
                self.descriptors@.len() <= MAX_BUNDLE_ITEMS,
                self.calibrations@.len() <= MAX_BUNDLE_ITEMS,
                self.supplies@.len() <= MAX_BUNDLE_ITEMS,
                first_item_problem(all, created as int, expires as int) == first_item_problem(
                    all.skip(k as int),
                    created as int,
                    expires as int,
                ),
            decreases items@.len() - k,
        {
            let (location, item) = items[k];
            let exp = item.retention.expires_at().as_ms();
            let problem: Option<BundleError> = if exp <= created {
                Some(
                    BundleError::Lifetime { location, problem: LifetimeProblem::NotAfterCreation },
                )
            } else if exp > expires {
                Some(BundleError::Lifetime { location, problem: LifetimeProblem::OutlivesBundle })
            } else if !Self::role_allows(location, item.document_schema.as_str()) {
                Some(BundleError::Role { location })
            } else {
                None
            };
            proof {
                assert(problem == item_problem(all[k as int].0, all[k as int].1, created as int, expires as int));
            }
            match problem {
                Some(e) => {
                    proof {
                        lemma_first_item_found(all, k as int, created as int, expires as int);
                    }
                    return Err(e);
                },
                None => {
                    proof {
                        lemma_first_item_step(all, k as int, created as int, expires as int);
                    }
                },
            }
            k = k + 1;
        }
        proof {
            assert(all.skip(k as int).len() == 0);
        }
        if let Some(d) = &self.plan.identity {
            if !str_eq(d.as_str(), self.plan_id.as_str()) {
                return Err(BundleError::Identity { location: ItemLocation::Plan });
            }
        }
        if let Some(d) = &self.snapshot.identity {
            if !str_eq(d.as_str(), self.snapshot_id.as_str()) {
                return Err(BundleError::Identity { location: ItemLocation::Snapshot });
            }
        }
        if self.supplies.len() > 0 {
            match self.capture {
                CaptureStatus::Disabled | CaptureStatus::LimitExceeded => {
                    return Err(BundleError::Supplies { status: self.capture });
                },
                _ => {},
            }
        }
        self.check_supplies()
    }

    /// Whether `location` may declare the document schema `s`.
    fn role_allows(location: ItemLocation, s: &str) -> (r: bool)
        ensures
            r == role_allows(location, s@),
    {
        match location {
            ItemLocation::Plan => str_eq(s, schema::PLAN),
            ItemLocation::Descriptor(_) => str_eq(s, schema::BACKEND),
            ItemLocation::Calibration(_) => str_eq(s, schema::CALIBRATION),
            ItemLocation::Snapshot => str_eq(s, schema::SNAPSHOT),
            ItemLocation::Run => str_eq(s, schema::RUN),
            ItemLocation::Supply(_) => str_eq(s, schema::BACKEND_OUTPUT) || str_eq(
                s,
                schema::RUNTIME_REASON,
            ),
            ItemLocation::Bundle => false,
        }
    }

    /// The supply sequence: contiguous from 0 in entry order, and unique by
    /// step and instance together.
    fn check_supplies(&self) -> (r: Result<(), BundleError>)
        requires
            self.supplies@.len() <= MAX_BUNDLE_ITEMS,
        ensures
            r == (match first_supply_problem(self.supplies@, 0) {
                Some(e) => Err(e),
                None => Ok(()),
            }),
    {
        let s = &self.supplies;
        let n = s.len();
        let mut i: usize = 0;
        while i < n
            invariant
                n == s@.len(),
                s == &self.supplies,
                n <= MAX_BUNDLE_ITEMS,
                i <= n,
                first_supply_problem(s@, 0) == first_supply_problem(s@, i as int),
            decreases n - i,
        {
            if s[i].sequence != i as u64 {
                proof {
                    assert(first_supply_problem(s@, i as int) == Some(
                        BundleError::Sequence { index: i },
                    ));
                    assert(first_supply_problem(self.supplies@, 0) == Some(
                        BundleError::Sequence { index: i },
                    ));
                }
                return Err(BundleError::Sequence { index: i });
            }
            let mut j: usize = 0;
            while j < i
                invariant
                    n == s@.len(),
                    j <= i < n,
                    s == &self.supplies,
                    s@[i as int].sequence == i,
                    first_supply_problem(s@, 0) == first_supply_problem(s@, i as int),
                    forall|m: int| 0 <= m < j ==> !same_key(#[trigger] s@[m], s@[i as int]),
                decreases i - j,
            {
                if str_eq(s[j].step.as_str(), s[i].step.as_str()) && strings_eq(
                    &s[j].instance,
                    &s[i].instance,
                ) {
                    proof {
                        assert(same_key(s@[j as int], s@[i as int]));
                        assert(first_supply_problem(s@, i as int) == Some(
                            BundleError::DuplicateSupply { index: i },
                        ));
                    }
                    return Err(BundleError::DuplicateSupply { index: i });
                }
                j = j + 1;
            }
            proof {
                assert(!exists|m: int| 0 <= m < i && same_key(#[trigger] s@[m], s@[i as int]));
                assert(first_supply_problem(s@, i as int) == first_supply_problem(s@, i + 1));
            }
            i = i + 1;
        }
        proof {
            assert(first_supply_problem(s@, n as int) is None);
        }
        Ok(())
    }
}


/// How an item's place in a bundle is named.
pub open spec fn location_text(l: ItemLocation) -> Seq<char> {
    match l {
        ItemLocation::Bundle => "bundle"@,
        ItemLocation::Plan => "plan"@,
        ItemLocation::Descriptor(i) => "descriptors["@ + decimal_text(i as nat) + "]"@,
        ItemLocation::Calibration(i) => "calibrations["@ + decimal_text(i as nat) + "]"@,
        ItemLocation::Snapshot => "snapshot"@,
        ItemLocation::Run => "run"@,
        ItemLocation::Supply(i) => "supplies["@ + decimal_text(i as nat) + "]"@,
    }
}

impl ItemLocation {
    /// The location as text.
    pub fn message(&self) -> (r: String)
        ensures
            r@ == location_text(*self),
    {
        match self {
            ItemLocation::Bundle => String::from_str("bundle"),
            ItemLocation::Plan => String::from_str("plan"),
            ItemLocation::Descriptor(i) => join3("descriptors[", usize_text(*i).as_str(), "]"),
            ItemLocation::Calibration(i) => join3("calibrations[", usize_text(*i).as_str(), "]"),
            ItemLocation::Snapshot => String::from_str("snapshot"),
            ItemLocation::Run => String::from_str("run"),
            ItemLocation::Supply(i) => join3("supplies[", usize_text(*i).as_str(), "]"),
        }
    }
}

/// A lifetime problem as `{:?}` writes it.
pub open spec fn problem_text(p: LifetimeProblem) -> Seq<char> {
    match p {
        LifetimeProblem::NotAfterCreation => "NotAfterCreation"@,
        LifetimeProblem::ExceedsCap { cap_ms } => "ExceedsCap { cap_ms: "@ + decimal_text(cap_ms as nat)
            + " }"@,
        LifetimeProblem::OutlivesBundle => "OutlivesBundle"@,
    }
}

/// What a structurally invalid bundle is told.
pub open spec fn bundle_error_text(e: BundleError) -> Seq<char> {
    match e {
        BundleError::Schema(s) => "bundle schema "@ + debug_text(s@),
        BundleError::DecisionId => "a decision id is 1 to 256 bytes"@,
        BundleError::Lifetime { location, problem } => "lifetime of "@ + location_text(location)
            + ": "@ + problem_text(problem),
        BundleError::TooMany { what, count } => decimal_text(count as nat) + " "@ + what@
            + ", more than 4096"@,
        BundleError::Sequence { index } => "supplies["@ + decimal_text(index as nat)
            + "] breaks the contiguous supply sequence"@,
        BundleError::DuplicateSupply { index } => "supplies["@ + decimal_text(index as nat)
            + "] repeats a step and instance"@,
        BundleError::Role { location } => location_text(location)
            + " declares a schema its role does not allow"@,
        BundleError::Identity { location } => location_text(location)
            + " declares an identity other than the bundle's"@,
        BundleError::Supplies { .. } => "supplies are listed under a capture that keeps none"@,
    }
}

impl BundleError {
    /// The refusal as text.
    pub fn message(&self) -> (r: String)
        ensures
            r@ == bundle_error_text(*self),
    {
        match self {
            BundleError::Schema(s) => join("bundle schema ", debug_quoted(s.as_str()).as_str()),
            BundleError::DecisionId => String::from_str("a decision id is 1 to 256 bytes"),
            BundleError::Lifetime { location, problem } => {
                let mut m = join3("lifetime of ", location.message().as_str(), ": ");
                match problem {
                    LifetimeProblem::NotAfterCreation => m.append("NotAfterCreation"),
                    LifetimeProblem::ExceedsCap { cap_ms } => {
                        m.append("ExceedsCap { cap_ms: ");
                        m.append(u64_text(*cap_ms).as_str());
                        m.append(" }");
                    },
                    LifetimeProblem::OutlivesBundle => m.append("OutlivesBundle"),
                }
                m
            },
            BundleError::TooMany { what, count } => {
                let mut m = join3(usize_text(*count).as_str(), " ", what);
                m.append(", more than 4096");
                m
            },
            BundleError::Sequence { index } => join3(
                "supplies[",
                usize_text(*index).as_str(),
                "] breaks the contiguous supply sequence",
            ),
            BundleError::DuplicateSupply { index } => join3(
                "supplies[",
                usize_text(*index).as_str(),
                "] repeats a step and instance",
            ),
            BundleError::Role { location } => join(
                location.message().as_str(),
                " declares a schema its role does not allow",
            ),
            BundleError::Identity { location } => join(
                location.message().as_str(),
                " declares an identity other than the bundle's",
            ),
            BundleError::Supplies { .. } => String::from_str(
                "supplies are listed under a capture that keeps none",
            ),
        }
    }
}

} // verus!
