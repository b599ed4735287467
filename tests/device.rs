use weather_landscape::device::parse_seconds;

#[test]
fn parses_header_seconds() {
    assert_eq!(parse_seconds("600"), Some(600));
    assert_eq!(parse_seconds("+5"), Some(5));
    assert_eq!(parse_seconds("0"), Some(0));
    assert_eq!(parse_seconds("18446744073709551615"), Some(u64::MAX));
}

#[test]
fn rejects_bad_header_seconds() {
    assert_eq!(parse_seconds(""), None);
    assert_eq!(parse_seconds("+"), None);
    assert_eq!(parse_seconds("-1"), None);
    assert_eq!(parse_seconds("12a"), None);
    assert_eq!(parse_seconds(" 12"), None);
    assert_eq!(parse_seconds("18446744073709551616"), None);
}
