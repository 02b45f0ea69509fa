use phpick::version::{is_newer, numeric_key, reduce_to_major_minor, split_version};

#[test]
fn numeric_key_sorts_versions() {
    // 8.4.14 must rank higher than 8.4.9.
    let a = numeric_key("php-8.4.14-nts-Win32-vs17-x64");
    let b = numeric_key("php-8.4.9-nts-Win32-vs17-x64");
    assert!(a > b, "expected {a:?} > {b:?}");
}

#[test]
fn split_version_handles_patch() {
    assert_eq!(split_version("8.4"), Some((8, 4)));
    assert_eq!(split_version("8.4.15"), Some((8, 4)));
    assert_eq!(split_version("not a version"), None);
}

#[test]
fn reduces_patch_to_major_minor() {
    assert_eq!(reduce_to_major_minor("8.4.15"), Some("8.4".into()));
    assert_eq!(reduce_to_major_minor("8.4"), Some("8.4".into()));
    assert_eq!(reduce_to_major_minor("8"), None);
    assert_eq!(reduce_to_major_minor(""), None);
}

#[test]
fn semver_compare() {
    assert!(is_newer("0.3.0", "0.2.0"));
    assert!(is_newer("0.2.1", "0.2.0"));
    assert!(!is_newer("0.2.0", "0.2.0"));
    assert!(!is_newer("0.1.9", "0.2.0"));
    assert!(is_newer("1.0.0", "0.99.99"));
}

#[test]
fn numeric_key_extracts_every_digit_run() {
    assert_eq!(numeric_key("php-8.4.14-nts-Win32-vs17-x64"), vec![8, 4, 14, 32, 17, 64]);
    assert_eq!(numeric_key(""), Vec::<u32>::new());
    assert_eq!(numeric_key("no digits"), Vec::<u32>::new());
    assert_eq!(numeric_key("007x10"), vec![7, 10]);
}

#[test]
fn numeric_key_drops_runs_too_large_for_u32() {
    assert_eq!(numeric_key("1.99999999999.2"), vec![1, 2]);
    assert_eq!(numeric_key("4294967295.4294967296"), vec![4294967295]);
}

#[test]
fn split_version_reads_like_str_parse() {
    assert_eq!(split_version("+8.+4"), Some((8, 4)));
    assert_eq!(split_version("08.04.x"), Some((8, 4)));
    assert_eq!(split_version("8"), None);
    assert_eq!(split_version("8."), None);
    assert_eq!(split_version(".4"), None);
    assert_eq!(split_version("-8.4"), None);
    assert_eq!(split_version("8.4a"), None);
    assert_eq!(split_version("4294967296.1"), None);
    assert_eq!(split_version("4294967295.0"), Some((4294967295, 0)));
}

#[test]
fn reduce_is_idempotent() {
    let once = reduce_to_major_minor("+08.004.15").unwrap();
    assert_eq!(once, "8.4");
    assert_eq!(reduce_to_major_minor(&once), Some(once.clone()));
    assert_eq!(split_version(&once), split_version("+08.004.15"));
}

#[test]
fn is_newer_pads_missing_parts_with_zero() {
    assert!(!is_newer("1.0", "1"));
    assert!(!is_newer("1", "1.0.0"));
    assert!(is_newer("1.0.1", "1"));
    assert!(!is_newer("1", "1.0.1"));
    assert!(is_newer("v2", "1.9.9"));
}

#[test]
fn is_newer_is_asymmetric_and_transitive() {
    let (a, b, c) = ("3.1.0", "3.0.9", "2.10.0");
    assert!(is_newer(a, b) && is_newer(b, c));
    assert!(!is_newer(b, a));
    assert!(is_newer(a, c));
}
