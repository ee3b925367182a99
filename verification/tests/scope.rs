use rustev::scope::{Handle, Scope, MAX_HANDLE_BYTES};

fn h(s: &str) -> Handle {
    Handle::new(s.to_string()).unwrap()
}

#[test]
fn handles_are_bounded_and_non_empty() {
    assert!(Handle::new(String::new()).is_err());
    assert!(Handle::new("x".repeat(MAX_HANDLE_BYTES)).is_ok());
    assert!(Handle::new("x".repeat(MAX_HANDLE_BYTES + 1)).is_err());
    assert_eq!(Handle::new(String::new()).unwrap_err().len, 0);
}

#[test]
fn modes_never_compare_equal() {
    assert_ne!(
        Scope::tenant_only(h("t"), h("r")),
        Scope::principal(h("t"), h("r"), h("p"))
    );
}

#[test]
fn scopes_state_their_mode_and_tenant() {
    let s = Scope::principal(h("t"), h("r"), h("p"));
    assert_eq!(s.mode(), "principal");
    assert_eq!(s.tenant().as_str(), "t");
    let s = Scope::tenant_only(h("u"), h("r"));
    assert_eq!(s.mode(), "tenant_only");
    assert_eq!(s.tenant().as_str(), "u");
}
