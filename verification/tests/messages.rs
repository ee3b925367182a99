use rustev::decimal::{ArithError, DecimalError};
use rustev::ids::IdError;
use rustev::judgment::Unresolved;
use rustev::replay::{BundleError, ItemLocation, LifetimeProblem};
use rustev::scope::HandleError;
use rustev::time::TimeRangeError;

#[test]
fn decimal_refusals_read_as_text() {
    assert_eq!(DecimalError::Empty.message(), "empty decimal");
    assert_eq!(DecimalError::Syntax { offset: 3 }.message(), "malformed decimal at byte 3");
    assert_eq!(DecimalError::TooPrecise.message(), "decimal has more than 9 fractional digits");
    assert_eq!(DecimalError::OutOfRange.message(), "decimal out of range");
    assert_eq!(ArithError::Overflow.message(), "decimal arithmetic overflow");
    assert_eq!(ArithError::DivisionByZero.message(), "decimal division by zero");
    assert_eq!(ArithError::InvalidScale.message(), "scale exceeds 9");
}

#[test]
fn identity_handle_and_time_refusals_read_as_text() {
    let e = IdError { value: "sha1:x".to_string() };
    assert_eq!(
        e.message(),
        "not an identity (`sha256:` and 64 lowercase hex digits): \"sha1:x\""
    );
    assert_eq!(HandleError { len: 300 }.message(), "a scope handle is 1 to 256 bytes, not 300");
    assert_eq!(TimeRangeError.message(), "timestamp outside 0..=253402300799999 ms");
}

#[test]
fn unresolved_reasons_read_as_text() {
    let u = Unresolved::MissingEvidence { fields: vec!["a".to_string(), "b".to_string()] };
    assert_eq!(u.message(), "missing_evidence{a,b}");
    let u = Unresolved::InvalidInput { fields: vec!["x".to_string()], detail: "bad".to_string() };
    assert_eq!(u.message(), "invalid_input{x}: bad");
    assert_eq!(Unresolved::DeadlineExceeded.message(), "deadline_exceeded");
    let u = Unresolved::Conflict { facts: vec![] };
    assert_eq!(u.message(), "conflict{}");
}

#[test]
fn bundle_refusals_name_their_location() {
    assert_eq!(ItemLocation::Descriptor(2).message(), "descriptors[2]");
    assert_eq!(ItemLocation::Snapshot.message(), "snapshot");
    let e = BundleError::Lifetime {
        location: ItemLocation::Supply(1),
        problem: LifetimeProblem::ExceedsCap { cap_ms: 5 },
    };
    assert_eq!(e.message(), "lifetime of supplies[1]: ExceedsCap { cap_ms: 5 }");
    assert_eq!(BundleError::Schema("x".to_string()).message(), "bundle schema \"x\"");
    assert_eq!(BundleError::DuplicateSupply { index: 4 }.message(), "supplies[4] repeats a step and instance");
    assert_eq!(
        BundleError::Role { location: ItemLocation::Plan }.message(),
        "plan declares a schema its role does not allow"
    );
}
