use phpick::windows_setup::{eq_path, prepend_path_entry};

#[test]
fn path_entries_compare_loosely() {
    assert!(eq_path("C:\\Users\\me\\.phpick\\bin", "c:\\users\\ME\\.phpick\\bin\\"));
    assert!(eq_path("  C:\\bin\\\\ ", "c:\\BIN"));
    assert!(!eq_path("C:\\bin", "C:\\bin2"));
    assert!(eq_path("", "\\"));
    assert!(eq_path("\u{a0}C:\\x\t", "C:\\X"));
    assert!(!eq_path("C:\\É", "C:\\é"));
}

#[test]
fn dir_is_put_first() {
    let dir = "C:\\phpick\\bin";
    assert_eq!(
        prepend_path_entry("C:\\Windows;;c:\\phpick\\bin\\;C:\\Tools", dir),
        Some("C:\\phpick\\bin;C:\\Windows;C:\\Tools".to_string())
    );
    assert_eq!(prepend_path_entry("", dir), Some("C:\\phpick\\bin".to_string()));
    assert_eq!(prepend_path_entry(";;", dir), Some("C:\\phpick\\bin".to_string()));
    assert_eq!(prepend_path_entry("C:\\PHPICK\\bin\\;C:\\Windows", dir), None);
}

#[test]
fn putting_dir_first_twice_changes_nothing() {
    let dir = "C:\\phpick\\bin";
    let once = prepend_path_entry("C:\\a;C:\\phpick\\bin;C:\\b", dir).unwrap();
    assert_eq!(once, "C:\\phpick\\bin;C:\\a;C:\\b");
    assert_eq!(prepend_path_entry(&once, dir), None);
}

#[test]
fn path_comparison_is_an_equivalence() {
    let (a, b, c) = ("C:\\Tools\\", " c:\\tools", "C:\\TOOLS\\\\");
    assert!(eq_path(a, a));
    assert!(eq_path(a, b) && eq_path(b, a));
    assert!(eq_path(b, c) && eq_path(a, c));
}

#[test]
fn surrounding_whitespace_and_case_do_not_matter() {
    assert!(eq_path(" C:\\Tools\\Bin\\ ", "c:\\tools\\bin"));
    assert!(eq_path("\u{3000}C:\\Tools\n", "C:\\TOOLS"));
    assert!(!eq_path("C:\\Tools Bin", "C:\\ToolsBin"));
}
