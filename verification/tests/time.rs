use rustev::time::{DurationMs, Timestamp, MAX_TIMESTAMP_MS};

#[test]
fn range_is_enforced_at_both_ends() {
    assert!(Timestamp::from_ms(0).is_ok());
    assert!(Timestamp::from_ms(MAX_TIMESTAMP_MS).is_ok());
    assert!(Timestamp::from_ms(-1).is_err());
    assert!(Timestamp::from_ms(MAX_TIMESTAMP_MS + 1).is_err());
}

#[test]
fn arithmetic_is_checked() {
    let t = Timestamp::from_ms(1_000).unwrap();
    assert_eq!(
        t.since(Timestamp::from_ms(400).unwrap()),
        Ok(DurationMs(600))
    );
    assert!(t.since(Timestamp::from_ms(1_001).unwrap()).is_err());
    assert!(t.checked_sub(DurationMs(1_001)).is_err());
    assert!(
        Timestamp::from_ms(MAX_TIMESTAMP_MS)
            .unwrap()
            .checked_add(DurationMs(1))
            .is_err()
    );
    assert!(t.checked_add(DurationMs(u64::MAX)).is_err());
}

#[test]
fn exact_arithmetic_within_range() {
    let t = Timestamp::from_ms(1_000).unwrap();
    assert_eq!(t.checked_add(DurationMs(24)).unwrap().as_ms(), 1_024);
    assert_eq!(t.checked_sub(DurationMs(1_000)).unwrap().as_ms(), 0);
    assert!(t.before(Timestamp::from_ms(1_001).unwrap()));
    assert!(!t.before(t));
}
