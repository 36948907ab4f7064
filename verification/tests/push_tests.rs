use ddns_core::push::{validate_push, PushDecision};

#[test]
fn malformed_address_with_correct_secret_is_bad_request() {
    let d = validate_push("999.1.1.1", &"hunter2".to_string(), &"hunter2".to_string());
    assert!(matches!(d, PushDecision::BadRequest));
}

#[test]
fn wrong_secret_is_unauthorized_without_propagation() {
    let d = validate_push("1.2.3.4", &"wrong".to_string(), &"hunter2".to_string());
    assert!(matches!(d, PushDecision::Unauthorized));
}

#[test]
fn valid_push_propagates() {
    let d = validate_push("1.2.3.4", &"hunter2".to_string(), &"hunter2".to_string());
    assert!(matches!(d, PushDecision::Propagate));
}

#[test]
fn wrong_secret_wins_over_bad_address() {
    let d = validate_push("not-an-ip", &"wrong".to_string(), &"hunter2".to_string());
    assert!(matches!(d, PushDecision::Unauthorized));
}
