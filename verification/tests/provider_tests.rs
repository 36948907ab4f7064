use ddns_core::provider::{classify_response, update_body, update_url, UpdateError, SUCCESS_STATUS};
use ddns_core::response::parse_ip_response;

#[test]
fn url_addresses_domain_and_record() {
    let url = update_url("example.com", "42");
    assert_eq!(url, "https://www.lima-city.de/usercp/domains/example.com/records/42");
}

#[test]
fn body_carries_address_as_record_content() {
    let body = update_body("1.2.3.4");
    assert_eq!(body, "{\"nameserver_record\":{\"content\":\"1.2.3.4\"}}");
}

#[test]
fn body_escapes_quotes_and_backslashes() {
    let body = update_body("a\"b\\c");
    assert_eq!(body, "{\"nameserver_record\":{\"content\":\"a\\\"b\\\\c\"}}");
}

#[test]
fn body_escapes_control_characters() {
    let body = update_body("a\nb");
    assert_eq!(body, "{\"nameserver_record\":{\"content\":\"a\\u000ab\"}}");
    let body = update_body("\t");
    assert_eq!(body, "{\"nameserver_record\":{\"content\":\"\\u0009\"}}");
    let body = update_body("\u{1f}x");
    assert_eq!(body, "{\"nameserver_record\":{\"content\":\"\\u001fx\"}}");
}

#[test]
fn only_the_success_status_is_ok() {
    assert_eq!(SUCCESS_STATUS, 200);
    assert_eq!(classify_response(Some(200)), Ok(()));
    assert_eq!(classify_response(Some(201)), Err(UpdateError::BadStatus(201)));
    assert_eq!(classify_response(Some(404)), Err(UpdateError::BadStatus(404)));
    assert_eq!(classify_response(None), Err(UpdateError::TransportError));
}

#[test]
fn parses_well_shaped_response() {
    assert_eq!(parse_ip_response("{\"ip\":\"1.2.3.4\"}"), Some("1.2.3.4".to_string()));
    assert_eq!(parse_ip_response("{\"ip\":\"\"}"), Some("".to_string()));
    assert_eq!(parse_ip_response("{\"ip\":\"2001:db8::1\"}"), Some("2001:db8::1".to_string()));
}

#[test]
fn parses_response_with_json_whitespace() {
    assert_eq!(parse_ip_response("{\"ip\": \"1.2.3.4\"}"), Some("1.2.3.4".to_string()));
    assert_eq!(parse_ip_response("{ \"ip\" : \"1.2.3.4\" }"), Some("1.2.3.4".to_string()));
    assert_eq!(parse_ip_response(" \t{\"ip\":\"7.7.7.7\"}\r\n"), Some("7.7.7.7".to_string()));
    assert_eq!(parse_ip_response("{\"ip\":\"1.2.3.4\"} "), Some("1.2.3.4".to_string()));
}

#[test]
fn rejects_other_shapes() {
    assert_eq!(parse_ip_response("not json"), None);
    assert_eq!(parse_ip_response(""), None);
    assert_eq!(parse_ip_response("{\"other\":\"1.2.3.4\"}"), None);
    assert_eq!(parse_ip_response("{\"ip\":\"a\\\"b\"}"), None);
    assert_eq!(parse_ip_response("{\"ip\":\"a\tb\"}"), None);
    assert_eq!(parse_ip_response("{\"ip\":\"1.2.3.4\"}x"), None);
    assert_eq!(parse_ip_response("{\"ip\":\"1.2.3.4\""), None);
    assert_eq!(parse_ip_response("{\"ip \":\"1.2.3.4\"}"), None);
}
