use vault_sync::version::{is_newer, parse_version, version_order_of};

fn chars(s: &str) -> Vec<char> {
    s.chars().collect()
}

fn order(a: &str, b: &str) -> i8 {
    version_order_of(&parse_version(a).unwrap(), &parse_version(b).unwrap())
}

#[test]
fn parses_numbers_pre_release_and_build() {
    let v = parse_version("1.2.3-rc.1+build.7").unwrap();
    assert_eq!(v.core, vec![chars("1"), chars("2"), chars("3")]);
    assert_eq!(v.pre, Some(vec![chars("rc"), chars("1")]));

    let v = parse_version("0.6.0").unwrap();
    assert_eq!(v.core, vec![chars("0"), chars("6"), chars("0")]);
    assert_eq!(v.pre, None);

    let v = parse_version("1.0.0+b").unwrap();
    assert_eq!(v.core, vec![chars("1"), chars("0"), chars("0")]);
    assert_eq!(v.pre, None);

    let v = parse_version("0.7.0-rc1").unwrap();
    assert_eq!(v.pre, Some(vec![chars("rc1")]));
}

#[test]
fn refuses_what_is_not_a_version() {
    assert!(parse_version("").is_none());
    assert!(parse_version("1..2").is_none());
    assert!(parse_version("v1.2").is_none());
    assert!(parse_version("latest").is_none());
    assert!(parse_version("1.2-").is_none());
    assert!(parse_version("1.2-rc..1").is_none());
}

#[test]
fn orders_number_by_number() {
    assert_eq!(order("0.5.9", "0.6.0"), -1);
    assert_eq!(order("0.6.0", "0.5.9"), 1);
    assert_eq!(order("0.9", "0.10"), -1);
    assert_eq!(order("1.2", "1.2.0"), 0);
    assert_eq!(order("1.2", "1.2.1"), -1);
    assert_eq!(order("1.02", "1.2"), 0);
}

#[test]
fn numbers_beyond_machine_words_compare_as_numbers() {
    assert_eq!(order("18446744073709551616", "18446744073709551615"), 1);
    assert_eq!(order("1.99999999999999999999999", "2.0"), -1);
    assert!(is_newer("0.100000000000000000000", "0.6.0"));
}

#[test]
fn pre_releases_sort_below_their_release() {
    assert_eq!(order("1.0.0-alpha", "1.0.0"), -1);
    assert_eq!(order("1.0.0-alpha", "1.0.0-alpha.1"), -1);
    assert_eq!(order("1.0.0-alpha.1", "1.0.0-alpha.beta"), -1);
    assert_eq!(order("1.0.0-alpha.beta", "1.0.0-beta"), -1);
    assert_eq!(order("1.0.0-beta", "1.0.0-beta.2"), -1);
    assert_eq!(order("1.0.0-beta.2", "1.0.0-beta.11"), -1);
    assert_eq!(order("1.0.0-beta.11", "1.0.0-rc.1"), -1);
    assert_eq!(order("1.0.0-rc.1", "1.0.0"), -1);
    assert_eq!(order("1.0.0-rc.1", "1.0.0-rc.1"), 0);
}

#[test]
fn build_metadata_does_not_count() {
    assert_eq!(order("1.0.0+a", "1.0.0+b"), 0);
    assert_eq!(order("1.0.0-rc.1+x", "1.0.0-rc.1"), 0);
}

#[test]
fn newer_by_precedence() {
    assert!(is_newer("0.6.1", "0.6.0"));
    assert!(is_newer("0.10.0", "0.9.9"));
    assert!(is_newer("1.0.0+b", "0.6.0"));
    assert!(is_newer("0.7.0-rc1", "0.6.0"));
    assert!(!is_newer("0.6.0", "0.6.0"));
    assert!(!is_newer("0.5.0", "0.6.0"));
    assert!(!is_newer("0.6", "0.6.0"));
    assert!(!is_newer("0.6.0-rc1", "0.6.0"));
    assert!(!is_newer("0.6.0+x", "0.6.0"));
}

#[test]
fn unreadable_versions_fall_back_to_differing() {
    assert!(is_newer("latest", "0.6.0"));
    assert!(is_newer("0.6.0", "nightly"));
    assert!(!is_newer("nightly", "nightly"));
}
