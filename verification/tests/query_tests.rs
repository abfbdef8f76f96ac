use konpac::query::{PackageQuery, ParseError};

#[test]
fn parse_basic_ge() {
    let q = PackageQuery::parse("libfoo>=1.2.0").unwrap();
    assert_eq!(q.name, "libfoo");
    assert_eq!(q.comparison_operator, ">=");
    assert_eq!(q.version, "1.2.0");
}

#[test]
fn parse_two_char_operator_wins() {
    // ">=" must not be misread as ">" followed by "=1.1.1"
    let q = PackageQuery::parse("example>=1.1.1").unwrap();
    assert_eq!(q.comparison_operator, ">=");
    assert_eq!(q.version, "1.1.1");
}

#[test]
fn parse_le_operator() {
    let q = PackageQuery::parse("pkg<=2.0").unwrap();
    assert_eq!(q.comparison_operator, "<=");
    assert_eq!(q.name, "pkg");
    assert_eq!(q.version, "2.0");
}

#[test]
fn parse_single_char_operators() {
    let q = PackageQuery::parse("a=1").unwrap();
    assert_eq!(q.comparison_operator, "=");
    let q = PackageQuery::parse("a<2.0").unwrap();
    assert_eq!(q.comparison_operator, "<");
    let q = PackageQuery::parse("b>3").unwrap();
    assert_eq!(q.comparison_operator, ">");
}

#[test]
fn parse_trims_name_and_version() {
    let q = PackageQuery::parse("  foo <= 2.1  ").unwrap();
    assert_eq!(q.name, "foo");
    assert_eq!(q.version, "2.1");
}

#[test]
fn parse_unicode_name() {
    let q = PackageQuery::parse("пакет>=1.0").unwrap();
    assert_eq!(q.name, "пакет");
    assert_eq!(q.version, "1.0");
}

#[test]
fn parse_no_operator_is_invalid_format() {
    assert_eq!(PackageQuery::parse("plainname").unwrap_err(), ParseError::InvalidFormat);
    assert_eq!(PackageQuery::parse("").unwrap_err(), ParseError::InvalidFormat);
}

#[test]
fn parse_empty_name_is_invalid_format() {
    assert_eq!(PackageQuery::parse(">=1.0").unwrap_err(), ParseError::InvalidFormat);
    assert_eq!(PackageQuery::parse("  =2").unwrap_err(), ParseError::InvalidFormat);
}

#[test]
fn parse_empty_version_is_invalid_format() {
    assert_eq!(PackageQuery::parse("a>=").unwrap_err(), ParseError::InvalidFormat);
    assert_eq!(PackageQuery::parse("a= ").unwrap_err(), ParseError::InvalidFormat);
}

#[test]
fn parse_non_numeric_version_is_invalid_version() {
    assert_eq!(PackageQuery::parse("a>=1.1.1alpha").unwrap_err(), ParseError::InvalidVersion);
    assert_eq!(PackageQuery::parse("a=1..2").unwrap_err(), ParseError::InvalidVersion);
}

#[test]
fn parse_round_trips() {
    for s in ["libfoo>=1.2.0", "  a = 7 ", "x<=0.1", "weird<name>=2.0"] {
        let q = PackageQuery::parse(s).unwrap();
        let rendered = q.to_query_string();
        let q2 = PackageQuery::parse(rendered.as_str()).unwrap();
        assert_eq!(q.name, q2.name);
        assert_eq!(q.comparison_operator, q2.comparison_operator);
        assert_eq!(q.version, q2.version);
    }
}

#[test]
fn evaluate_ge() {
    let q = PackageQuery::parse("pkg>=2.0.0").unwrap();
    assert!(q.evaluate("2.3.1"));
    assert!(q.evaluate("2.0.0"));
    assert!(!q.evaluate("1.5.0"));
}

#[test]
fn evaluate_eq_pads_zero_segments() {
    let q = PackageQuery::parse("pkg=2.0.0").unwrap();
    assert!(q.evaluate("2.0"));
    assert!(q.evaluate("2.0.0.0"));
    assert!(!q.evaluate("2.0.1"));
}

#[test]
fn evaluate_lt_le_gt() {
    let q = PackageQuery::parse("pkg<2.0").unwrap();
    assert!(q.evaluate("1.9.9"));
    assert!(!q.evaluate("2.0"));
    let q = PackageQuery::parse("pkg<=2.0").unwrap();
    assert!(q.evaluate("2.0"));
    assert!(!q.evaluate("2.0.1"));
    let q = PackageQuery::parse("pkg>2.0").unwrap();
    assert!(q.evaluate("2.0.1"));
    assert!(!q.evaluate("2.0"));
}

#[test]
fn evaluate_rejects_invalid_candidate() {
    let q = PackageQuery::parse("pkg>=1.0").unwrap();
    assert!(!q.evaluate("not-a-version"));
    assert!(!q.evaluate(""));
}
