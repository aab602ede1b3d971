use ryu_rlm::auth::{bearer_ok, gate_opens};

#[test]
fn the_gate_is_fail_closed_without_a_configured_token() {
    assert!(!bearer_ok(Some("anything"), None));
    assert!(!bearer_ok(None, None));
}

#[test]
fn only_the_exact_token_passes() {
    assert!(bearer_ok(Some("s3cret"), Some("s3cret")));
    assert!(!bearer_ok(Some("s3cre"), Some("s3cret")));
    assert!(!bearer_ok(Some("s3cretx"), Some("s3cret")));
    assert!(!bearer_ok(None, Some("s3cret")));
}

#[test]
fn the_header_is_the_word_and_the_token() {
    assert!(gate_opens(Some("Bearer s3cret"), Some("s3cret")));
    assert!(!gate_opens(Some("bearer s3cret"), Some("s3cret")));
    assert!(!gate_opens(Some("s3cret"), Some("s3cret")));
    assert!(!gate_opens(Some("Bearer  s3cret"), Some("s3cret")));
    assert!(!gate_opens(None, Some("s3cret")));
    assert!(!gate_opens(Some("Bearer "), None));
    assert!(gate_opens(Some("Bearer sé"), Some("sé")));
    assert!(!gate_opens(Some("Bearer se"), Some("sé")));
}
