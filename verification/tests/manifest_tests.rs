use konpac::manifest::{parse_manifest, ManifestError};

#[test]
fn parse_full_manifest() {
    let text = "name: hello\nversion: 1.2.3\ndepens:\n  - \"libfoo>=1.0\"\n  - libbar=2\n";
    let m = parse_manifest(text).unwrap();
    assert_eq!(m.name, "hello");
    assert_eq!(m.version, "1.2.3");
    assert_eq!(m.depens, vec!["libfoo>=1.0".to_string(), "libbar=2".to_string()]);
}

#[test]
fn parse_without_dependencies() {
    let m = parse_manifest("name: solo\nversion: 0.1\n").unwrap();
    assert_eq!(m.name, "solo");
    assert_eq!(m.version, "0.1");
    assert!(m.depens.is_empty());
}

#[test]
fn parse_quoted_values() {
    let m = parse_manifest("name: \"quoted\"\nversion: '2.0'\n").unwrap();
    assert_eq!(m.name, "quoted");
    assert_eq!(m.version, "2.0");
}

#[test]
fn parse_skips_comments_and_blanks() {
    let m = parse_manifest("# header\n\nname: a\n\n# mid\nversion: 1\n").unwrap();
    assert_eq!(m.name, "a");
}

#[test]
fn missing_name_is_missing_field() {
    assert_eq!(parse_manifest("version: 1.0\n").unwrap_err(), ManifestError::MissingField);
}

#[test]
fn missing_version_is_missing_field() {
    assert_eq!(parse_manifest("name: a\n").unwrap_err(), ManifestError::MissingField);
}

#[test]
fn empty_value_counts_as_missing() {
    assert_eq!(parse_manifest("name:\nversion: 1\n").unwrap_err(), ManifestError::MissingField);
}

#[test]
fn stray_line_is_invalid_syntax() {
    assert_eq!(
        parse_manifest("name: a\nversion: 1\njust some words\n").unwrap_err(),
        ManifestError::InvalidSyntax,
    );
}

#[test]
fn list_item_outside_list_is_invalid_syntax() {
    assert_eq!(
        parse_manifest("- dangling\nname: a\nversion: 1\n").unwrap_err(),
        ManifestError::InvalidSyntax,
    );
}

#[test]
fn later_key_closes_the_list() {
    let m = parse_manifest("depens:\n- x>=1\nname: a\nversion: 1\n").unwrap();
    assert_eq!(m.depens, vec!["x>=1".to_string()]);
}
