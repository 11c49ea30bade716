use shh::host::{ip_candidate, is_valid_hostname, validate_host};

#[test]
fn hostnames_are_checked_label_by_label() {
    for ok in ["example.com", "web-01.example.com.", "a", "localhost", "x1.y2"] {
        assert!(is_valid_hostname(ok), "{}", ok);
    }
    let long_label = "a".repeat(64);
    let long_name = format!("{}.com", "a.".repeat(126));
    for bad in ["", "-a.com", "a-.com", "a..b", "a_b.com", "é.com", long_label.as_str(), long_name.as_str(), "."] {
        assert!(!is_valid_hostname(bad), "{}", bad);
    }
}

#[test]
fn hosts_are_validated_with_reasons() {
    assert_eq!(validate_host("me@host", false).as_deref(), Some("don't include user@ — set user in the next step"));
    assert_eq!(validate_host("a b", false).as_deref(), Some("host cannot contain whitespace"));
    assert_eq!(validate_host("a\u{1}", false).as_deref(), Some("host cannot contain whitespace"));
    assert_eq!(validate_host("web1.example.com", false), None);
    assert_eq!(validate_host("10.0.1.42", true), None);
    assert_eq!(validate_host("::1", false).as_deref(), Some("host must be a hostname or IP address"));
}

#[test]
fn bracketed_hosts_give_inner_candidate() {
    assert_eq!(ip_candidate("[::1]"), "::1");
    assert_eq!(ip_candidate("[]"), "");
    assert_eq!(ip_candidate("["), "[");
    assert_eq!(ip_candidate("10.0.0.1"), "10.0.0.1");
}
