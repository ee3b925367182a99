use rustev::ids::ArtifactId;
use rustev::remote::{
    cut_text, cut_to, Attribution, ExchangeMember, ExchangeRecord, MemberOutcome, RemoteCode,
    ReportedCost, ServedIdentity, MAX_ENTRIES, MAX_ITEMS, MAX_ROUTE, MAX_TEXT_BYTES, PROTOCOL,
};
use rustev::run::Charge;
use rustev::schema;
use rustev::text_map::TextMap;

const A: &str = "sha256:00000000000000000000000000000000000000000000000000000000000000aa";

fn exchange() -> ExchangeRecord {
    ExchangeRecord {
        schema: schema::REMOTE_EXCHANGE.into(),
        protocol: PROTOCOL.into(),
        binding: ArtifactId::parse(A).unwrap(),
        members: vec![ExchangeMember {
            attempt_id: "d-1/topic//1".into(),
            outcome: MemberOutcome::Failure {
                code: RemoteCode::RateLimited,
                detail: "remote:rate_limited SYNTHETIC".into(),
            },
            charge: Charge::Observed { units: 0 },
        }],
        request_digest: Some(A.into()),
        response_digest: None,
        bytes_sent: true,
        status: Some(429),
        retry_after: Some("30".into()),
        requested_model: None,
        served: ServedIdentity::unknown(),
        route: vec![],
        generation_id: None,
        usage: TextMap::new(),
        reported_cost: Some(ReportedCost { amount: "0.000125".into(), currency: "SYNTHETIC".into() }),
        exchange_charge: Charge::Observed { units: 0 },
        attribution: Attribution::Single,
        privacy_requested: TextMap::new(),
        provider_extras: TextMap::new(),
        late: false,
        truncated: false,
    }
}

#[test]
fn remote_exchange_records_are_cut_to_a_fixed_maximum_size() {
    // The worst case: every string at the cut and every byte escaped six
    // times over, every collection at its cap.
    let nasty = "\u{1}".repeat(4 * MAX_TEXT_BYTES);
    let s = || nasty.clone();
    let map = |n: usize| -> TextMap<String> {
        let mut m = TextMap::new();
        for i in 0..n {
            m.insert_new(format!("{i:03}{nasty}"), s());
        }
        m
    };
    let mut e = exchange();
    e.protocol = s();
    e.members = (0..MAX_ITEMS + 5)
        .map(|i| ExchangeMember {
            attempt_id: format!("{i:03}{nasty}"),
            outcome: MemberOutcome::Failure { code: RemoteCode::TransportInterrupted, detail: s() },
            charge: Charge::Observed { units: u64::MAX },
        })
        .collect();
    e.request_digest = Some(s());
    e.response_digest = Some(s());
    e.retry_after = Some(s());
    e.requested_model = Some(s());
    e.served.identity = Some(s());
    e.route = vec![s(); MAX_ROUTE + 3];
    e.generation_id = Some(s());
    let mut usage = TextMap::new();
    for i in 0..MAX_ENTRIES + 3 {
        usage.insert_new(format!("{i:03}{nasty}"), u64::MAX);
    }
    e.usage = usage;
    e.reported_cost = Some(ReportedCost { amount: s(), currency: s() });
    e.privacy_requested = map(MAX_ENTRIES + 3);
    e.provider_extras = map(MAX_ENTRIES + 3);
    assert!(!e.is_bounded());
    let b = e.bounded();
    assert!(b.truncated && b.is_bounded());
    assert_eq!(b.members.len(), MAX_ITEMS);
    assert!(b.members.iter().all(|m| m.attempt_id.len() <= MAX_TEXT_BYTES));
    // A record beyond its bounds is found.
    let mut over = exchange();
    over.generation_id = Some("g".repeat(MAX_TEXT_BYTES + 1));
    assert!(!over.is_bounded());
}

#[test]
fn remote_text_is_cut_on_a_character_boundary() {
    let s = "é".repeat(200);
    let c = cut_text(&s);
    assert!(c.len() <= MAX_TEXT_BYTES && c.len() >= MAX_TEXT_BYTES - 1);
    assert!(s.starts_with(&c));
    assert_eq!(cut_text("short"), "short");
}

#[test]
fn a_bounded_record_keeps_what_fits() {
    let e = exchange();
    assert!(e.is_bounded());
    let b = e.clone().bounded();
    assert!(!b.truncated);
    assert_eq!(b, e);
    assert_eq!(cut_to("abcdef", 4), "abcd");
    assert_eq!(cut_to("aé", 2), "a");
    assert_eq!(cut_to("", 0), "");
}

#[test]
fn map_entries_past_the_cap_are_dropped_and_flagged() {
    let mut e = exchange();
    let mut m = TextMap::new();
    for i in 0..MAX_ENTRIES + 1 {
        m.insert_new(format!("k{i:02}"), "v".to_string());
    }
    e.provider_extras = m;
    let b = e.bounded();
    assert!(b.truncated);
    assert_eq!(b.provider_extras.len(), MAX_ENTRIES);
    assert_eq!(b.provider_extras.key_at(0), "k00");
    assert_eq!(b.provider_extras.get("k16"), None);
}

#[test]
fn an_output_digest_is_kept_whole() {
    let mut e = exchange();
    let long = "d".repeat(MAX_TEXT_BYTES + 1);
    e.members[0].outcome = MemberOutcome::Output { digest: long.clone() };
    let b = e.bounded();
    assert_eq!(b.members[0].outcome, MemberOutcome::Output { digest: long });
    assert!(!b.is_bounded());
}
