use procscan::pid::parse_pid_from_bytes;

#[test]
fn test_parse_pid_valid() {
    assert_eq!(parse_pid_from_bytes(b"1"), Some(1));
    assert_eq!(parse_pid_from_bytes(b"12345"), Some(12345));
    assert_eq!(parse_pid_from_bytes(b"429496729"), Some(429496729));
}

#[test]
fn test_parse_pid_invalid() {
    assert_eq!(parse_pid_from_bytes(b""), None);
    assert_eq!(parse_pid_from_bytes(b"abc"), None);
    assert_eq!(parse_pid_from_bytes(b"0000"), None);
    assert_eq!(parse_pid_from_bytes(b"18446744073"), None);
}

#[test]
fn pid_largest_value_accepted() {
    assert_eq!(parse_pid_from_bytes(b"2147483647"), Some(2147483647));
    assert_eq!(parse_pid_from_bytes(b"0000000001"), Some(1));
}

#[test]
fn pid_overflow_rejected() {
    assert_eq!(parse_pid_from_bytes(b"2147483648"), None);
    assert_eq!(parse_pid_from_bytes(b"9999999999"), None);
}

#[test]
fn pid_rejects_signs_and_mixed_text() {
    assert_eq!(parse_pid_from_bytes(b"-1"), None);
    assert_eq!(parse_pid_from_bytes(b"+1"), None);
    assert_eq!(parse_pid_from_bytes(b"12a"), None);
    assert_eq!(parse_pid_from_bytes(b"self"), None);
    assert_eq!(parse_pid_from_bytes(b"0"), None);
}
