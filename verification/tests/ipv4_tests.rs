use ddns_core::ipv4::check_if_ipv4;

#[test]
fn accepts_dotted_quads() {
    assert!(check_if_ipv4("1.2.3.4"));
    assert!(check_if_ipv4("0.0.0.0"));
    assert!(check_if_ipv4("255.255.255.255"));
    assert!(check_if_ipv4("192.168.0.1"));
}

#[test]
fn rejects_groups_over_255() {
    assert!(!check_if_ipv4("999.1.1.1"));
    assert!(!check_if_ipv4("256.1.1.1"));
    assert!(!check_if_ipv4("1.2.3.256"));
}

#[test]
fn rejects_wrong_group_count() {
    assert!(!check_if_ipv4("1.2.3"));
    assert!(!check_if_ipv4("1.2.3.4.5"));
    assert!(!check_if_ipv4(""));
    assert!(!check_if_ipv4("1.2..3"));
}

#[test]
fn rejects_non_digits_and_long_groups() {
    assert!(!check_if_ipv4("a.b.c.d"));
    assert!(!check_if_ipv4("1.2.3.4 "));
    assert!(!check_if_ipv4("-1.2.3.4"));
    assert!(!check_if_ipv4("0001.2.3.4"));
}
