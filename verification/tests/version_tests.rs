use konpac::version::{check_version, compare_versions, version_gt_exec};

#[test]
fn check_version_accepts_dotted_numbers() {
    assert!(check_version("1"));
    assert!(check_version("1.2.3"));
    assert!(check_version("007"));
    assert!(check_version("10.0.0.1"));
}

#[test]
fn check_version_rejects_malformed_strings() {
    assert!(!check_version(""));
    assert!(!check_version("."));
    assert!(!check_version("1."));
    assert!(!check_version(".1"));
    assert!(!check_version("1..2"));
    assert!(!check_version("1.2a"));
    assert!(!check_version("a.b"));
    assert!(!check_version("1 .2"));
}

#[test]
fn compare_orders_numerically_not_lexically() {
    // lexically "10.0" < "9.9"; numerically it is larger
    assert_eq!(compare_versions("10.0", "9.9"), 1);
    assert_eq!(compare_versions("9.9", "10.0"), -1);
}

#[test]
fn compare_exact_results() {
    assert_eq!(compare_versions("1.5.0", "2.0.0"), -1);
    assert_eq!(compare_versions("2.3.1", "2.0.0"), 1);
    assert_eq!(compare_versions("2.0.0", "2.0.0"), 0);
}

#[test]
fn compare_pads_missing_segments_with_zero() {
    assert_eq!(compare_versions("1.2", "1.2.0"), 0);
    assert_eq!(compare_versions("1.2", "1.2.1"), -1);
    assert_eq!(compare_versions("1.2.1", "1.2"), 1);
}

#[test]
fn compare_ignores_leading_zeros() {
    assert_eq!(compare_versions("0001.2", "1.2"), 0);
    assert_eq!(compare_versions("1.010", "1.9"), 1);
}

#[test]
fn compare_handles_long_digit_strings() {
    // longer than any machine integer
    assert_eq!(
        compare_versions("123456789012345678901234567890", "123456789012345678901234567891"),
        -1,
    );
    assert_eq!(
        compare_versions("123456789012345678901234567890", "99999999999999999999"),
        1,
    );
}

#[test]
fn gt_ranks_valid_above_invalid() {
    assert!(version_gt_exec("1.0", "oops"));
    assert!(!version_gt_exec("oops", "1.0"));
    assert!(!version_gt_exec("oops", "worse"));
    assert!(version_gt_exec("2.0", "1.9"));
    assert!(!version_gt_exec("1.9", "2.0"));
}
