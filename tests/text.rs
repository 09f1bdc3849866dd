use port_scanner::text::{contains_fragment, parse_u16};

#[test]
fn fragments() {
    assert!(contains_fragment("-h", "-h"));
    assert!(contains_fragment("--help", "-h"));
    assert!(contains_fragment("x-jy", "-j"));
    assert!(contains_fragment("abc", ""));
    assert!(!contains_fragment("-", "-h"));
    assert!(!contains_fragment("h-", "-h"));
    assert!(!contains_fragment("", "-j"));
}

#[test]
fn parse_numbers() {
    assert_eq!(parse_u16("0"), Some(0));
    assert_eq!(parse_u16("42"), Some(42));
    assert_eq!(parse_u16("+42"), Some(42));
    assert_eq!(parse_u16("007"), Some(7));
    assert_eq!(parse_u16("65535"), Some(65535));
}

#[test]
fn parse_rejects() {
    assert_eq!(parse_u16(""), None);
    assert_eq!(parse_u16("+"), None);
    assert_eq!(parse_u16("-1"), None);
    assert_eq!(parse_u16("65536"), None);
    assert_eq!(parse_u16("99999999999"), None);
    assert_eq!(parse_u16("12a"), None);
    assert_eq!(parse_u16(" 1"), None);
    assert_eq!(parse_u16("++1"), None);
}

#[test]
fn parse_agrees_with_std() {
    for s in ["0", "1", "+9", "65535", "65536", "", "+", "-0", "1x", "0000065535"] {
        assert_eq!(parse_u16(s), s.parse::<u16>().ok(), "{}", s);
    }
}
