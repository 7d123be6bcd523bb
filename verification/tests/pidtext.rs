use incronrs::pid::parse_pid;

#[test]
fn parses_plain_digits() {
    assert_eq!(parse_pid("1234"), Some(1234));
}

#[test]
fn parses_signed_values() {
    assert_eq!(parse_pid("-17"), Some(-17));
    assert_eq!(parse_pid("+8"), Some(8));
}

#[test]
fn parses_leading_zeros() {
    assert_eq!(parse_pid("007"), Some(7));
}

#[test]
fn parses_the_extremes_of_i32() {
    assert_eq!(parse_pid("2147483647"), Some(i32::MAX));
    assert_eq!(parse_pid("-2147483648"), Some(i32::MIN));
}

#[test]
fn rejects_values_out_of_range() {
    assert_eq!(parse_pid("2147483648"), None);
    assert_eq!(parse_pid("-2147483649"), None);
    assert_eq!(parse_pid("99999999999999999999"), None);
}

#[test]
fn rejects_malformed_texts() {
    assert_eq!(parse_pid(""), None);
    assert_eq!(parse_pid("-"), None);
    assert_eq!(parse_pid("+"), None);
    assert_eq!(parse_pid("12a"), None);
    assert_eq!(parse_pid(" 12"), None);
    assert_eq!(parse_pid("12\n"), None);
}
