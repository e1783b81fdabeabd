use xray_tester::matcher::{ParseError, SuccessMatcher};

#[test]
fn default_accepts_200_to_400() {
    let m = SuccessMatcher::default();
    assert_eq!(m.ranges, vec![(200, 400)]);
    assert!(m.contains(200));
    assert!(m.contains(301));
    assert!(m.contains(400));
    assert!(!m.contains(199));
    assert!(!m.contains(401));
    assert!(!m.contains(500));
}

#[test]
fn parse_ranges_and_codes() {
    let m = SuccessMatcher::parse("200-299,404").unwrap();
    assert_eq!(m.ranges, vec![(200, 299), (404, 404)]);
    assert!(m.contains(200));
    assert!(m.contains(250));
    assert!(m.contains(299));
    assert!(m.contains(404));
    assert!(!m.contains(300));
    assert!(!m.contains(403));
    assert!(!m.contains(405));
}

#[test]
fn parse_600_fails() {
    assert!(matches!(SuccessMatcher::parse("600"), Err(ParseError::CodeOutOfRange)));
}

#[test]
fn parse_empty_fails() {
    assert!(matches!(SuccessMatcher::parse(""), Err(ParseError::EmptySpec)));
}

#[test]
fn parse_inverted_range_fails() {
    assert!(matches!(SuccessMatcher::parse("100-99"), Err(ParseError::InvalidRange)));
}

#[test]
fn parse_range_end_out_of_range_fails() {
    assert!(matches!(SuccessMatcher::parse("100-600"), Err(ParseError::CodeOutOfRange)));
}

#[test]
fn parse_skips_blank_tokens_and_trims() {
    let m = SuccessMatcher::parse(" 200 , ,301-303,").unwrap();
    assert_eq!(m.ranges, vec![(200, 200), (301, 303)]);
}

#[test]
fn parse_only_blank_tokens_is_empty() {
    assert!(matches!(SuccessMatcher::parse(" , ,"), Err(ParseError::EmptySpec)));
}

#[test]
fn parse_non_numeric_fails() {
    assert!(matches!(SuccessMatcher::parse("abc"), Err(ParseError::InvalidCode)));
    assert!(matches!(SuccessMatcher::parse("2a0"), Err(ParseError::InvalidCode)));
    assert!(matches!(SuccessMatcher::parse("-5"), Err(ParseError::InvalidCode)));
    assert!(matches!(SuccessMatcher::parse("200-"), Err(ParseError::InvalidCode)));
}

#[test]
fn parse_accepts_plus_sign_like_integer_parsing() {
    let m = SuccessMatcher::parse("+204").unwrap();
    assert_eq!(m.ranges, vec![(204, 204)]);
}

#[test]
fn parse_range_endpoints_are_trimmed() {
    let m = SuccessMatcher::parse("200 - 204").unwrap();
    assert_eq!(m.ranges, vec![(200, 204)]);
    assert!(m.contains(202));
}

#[test]
fn parse_huge_number_fails() {
    assert!(matches!(SuccessMatcher::parse("99999999999"), Err(ParseError::InvalidCode)));
}

#[test]
fn parse_boundary_codes() {
    let m = SuccessMatcher::parse("0-599").unwrap();
    assert!(m.contains(0));
    assert!(m.contains(599));
    let m = SuccessMatcher::parse("599").unwrap();
    assert!(m.contains(599));
    assert!(!m.contains(598));
}
