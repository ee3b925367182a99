use rustev::ids::{cut_chars, is_digest, ArtifactId, DatasetId, PlanId};

const GOOD: &str = "sha256:0000000000000000000000000000000000000000000000000000000000000abc";

#[test]
fn identities_are_validated() {
    assert!(ArtifactId::parse(GOOD).is_ok());
    for bad in [
        "",
        "sha256:",
        "sha256:ABC0000000000000000000000000000000000000000000000000000000000000",
        "sha512:0000000000000000000000000000000000000000000000000000000000000abc",
        "sha256:000000000000000000000000000000000000000000000000000000000000abc",
        "sha256:00000000000000000000000000000000000000000000000000000000000000abc",
    ] {
        assert!(ArtifactId::parse(bad).is_err(), "{bad:?}");
    }
}

#[test]
fn an_identity_keeps_its_text_and_a_refusal_cuts_it() {
    let id = DatasetId::parse(GOOD).unwrap();
    assert_eq!(id.as_str(), GOOD);
    let long = "x".repeat(100);
    let e = PlanId::parse(&long).unwrap_err();
    assert_eq!(e.value.chars().count(), 80);
    assert!(is_digest(GOOD));
    assert_eq!(cut_chars("éèà", 2), "éè");
}
