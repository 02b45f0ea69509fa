use phpick::discover::{
    best_versioned_entry, binary_candidates, brew_formula, find_php, herd_name, list_all,
    patch_dir_prefix, path_extensions, php_binary_names, php_env_key, first_binary_on_path,
    resolve_composer_target, run_search_plan, scan_result, brew_binary, unix_search_plan,
    version_label, version_output_matches, windows_dir_prefixes, windows_search_plan,
    DirEntryInfo, PathSpec, SearchStep, candidate_versions, sorted_versions, version_of_name,
    version_of_override, windows_listing_dirs, unix_listing_dirs,
};
use std::cell::RefCell;

#[test]
fn names_for_a_version() {
    assert_eq!(php_env_key(8, 4), "PHPICK_PHP_8_4");
    assert_eq!(php_binary_names(8, 4), vec!["php8.4", "php84"]);
    assert_eq!(windows_dir_prefixes(8, 4), vec!["php-8.4.", "8.4."]);
    assert_eq!(patch_dir_prefix(7, 10), "7.10.");
    assert_eq!(herd_name(8, 4), "php8.4");
    assert_eq!(brew_formula(8, 4), "php@8.4");
    assert_eq!(version_label(10, 0), "10.0");
}

#[test]
fn php_version_output() {
    assert!(version_output_matches(None, 8, 4));
    assert!(version_output_matches(Some("8.4"), 8, 4));
    assert!(version_output_matches(Some(" 8.4\n"), 8, 4));
    assert!(!version_output_matches(Some("8.3"), 8, 4));
    assert!(!version_output_matches(Some("8.4.1"), 8, 4));
}

#[test]
fn pathext_and_candidates() {
    assert_eq!(path_extensions(None), vec![".com", ".exe", ".bat", ".cmd"]);
    assert_eq!(path_extensions(Some(";.EXE;;.Ps1;")), vec![".exe", ".ps1"]);
    assert_eq!(path_extensions(Some("")), Vec::<String>::new());
    let exts = path_extensions(None);
    assert_eq!(binary_candidates("php", false, false, &exts), vec!["php"]);
    assert_eq!(binary_candidates("php.exe", true, true, &exts), vec!["php.exe"]);
    assert_eq!(
        binary_candidates("php", true, false, &exts),
        vec!["php.com", "php.exe", "php.bat", "php.cmd"]
    );
}

#[test]
fn path_search_order() {
    let names = vec!["php.exe".to_string(), "php.bat".to_string()];
    let asked = RefCell::new(Vec::<String>::new());
    let r = first_binary_on_path(&vec![false, true, false], &names, |d: usize, n: &str| {
        asked.borrow_mut().push(format!("{d}:{n}"));
        if d == 2 && n == "php.bat" { Some(format!("{d}/{n}")) } else { None }
    });
    assert_eq!(r, Some("2/php.bat".to_string()));
    assert_eq!(*asked.borrow(), vec!["0:php.exe", "0:php.bat", "2:php.exe", "2:php.bat"]);
    let r = first_binary_on_path(&vec![false, false], &names, |_d: usize, _n: &str| None::<u8>);
    assert_eq!(r, None);
    let r = first_binary_on_path(&vec![], &names, |_d: usize, _n: &str| Some(1));
    assert_eq!(r, None);
}

fn entry(name: &str, has_binary: bool) -> DirEntryInfo {
    DirEntryInfo { name: name.to_string(), has_binary }
}

#[test]
fn highest_installed_version_wins() {
    let prefixes = vec!["php-8.4.".to_string(), "8.4.".to_string()];
    let entries = vec![
        entry("php-8.4.9-nts-Win32-vs17-x64", true),
        entry("php-8.4.14-nts-Win32-vs17-x64", true),
        entry("php-8.4.20-nts-Win32-vs17-x64", false),
        entry("php-8.3.30", true),
        entry("8.4.14", true),
        entry("8.4.2", true),
    ];
    assert_eq!(best_versioned_entry(&entries, &prefixes), Some(1));
    let none = vec![entry("php-8.3.1", true), entry("8.4.1", false)];
    assert_eq!(best_versioned_entry(&none, &prefixes), None);
    assert_eq!(best_versioned_entry(&vec![], &prefixes), None);
}

#[test]
fn ties_keep_the_first_entry() {
    let prefixes = vec!["8.4.".to_string()];
    let entries = vec![entry("8.4.1", true), entry("8.4.1", true), entry("8.4.0", true)];
    assert_eq!(best_versioned_entry(&entries, &prefixes), Some(0));
}

#[test]
fn find_php_search_order() {
    let asked = RefCell::new(Vec::<String>::new());
    let r = find_php(
        "8.4.15",
        |k: &str| {
            asked.borrow_mut().push(k.to_string());
            None::<String>
        },
        |n: &str| {
            asked.borrow_mut().push(n.to_string());
            if n == "php84" { Some("/usr/bin/php84".to_string()) } else { None }
        },
        |a: u32, b: u32| {
            asked.borrow_mut().push(format!("scan {a}.{b}"));
            None
        },
    );
    assert_eq!(r, Some("/usr/bin/php84".to_string()));
    assert_eq!(*asked.borrow(), vec!["PHPICK_PHP_8_4", "php8.4", "php84"]);
}

#[test]
fn find_php_override_and_scan() {
    let r = find_php("7.4", |_k: &str| Some(1), |_n: &str| Some(2), |_a: u32, _b: u32| Some(3));
    assert_eq!(r, Some(1));
    let r = find_php("7.4", |_k: &str| None, |_n: &str| None, |a: u32, b: u32| Some(a * 10 + b));
    assert_eq!(r, Some(74));
    let r = find_php("seven", |_k: &str| Some(1), |_n: &str| Some(2), |_a: u32, _b: u32| Some(3));
    assert_eq!(r, None);
}

#[test]
fn list_all_asks_each_seen_version_once_in_order() {
    let asked = RefCell::new(Vec::<String>::new());
    let candidates = vec![(8, 4), (5, 6), (8, 4), (10, 0), (8, 10), (7, 4)];
    let found = list_all(&candidates, |v: &str| {
        asked.borrow_mut().push(v.to_string());
        if v == "8.4" || v == "5.6" || v == "10.0" { Some(v.len()) } else { None }
    });
    assert_eq!(found, vec![("5.6".to_string(), 3), ("8.4".to_string(), 3), ("10.0".to_string(), 4)]);
    assert_eq!(*asked.borrow(), vec!["5.6", "7.4", "8.4", "8.10", "10.0"]);
    let none = list_all(&vec![], |_v: &str| Some(1));
    assert!(none.is_empty());
}

#[test]
fn only_a_php_5_6_is_listed() {
    let candidates = candidate_versions(&vec!["php5.6".to_string(), "python3.11".to_string()], &vec![]);
    assert_eq!(candidates, vec![(5, 6)]);
    let found = list_all(&candidates, |v: &str| if v == "5.6" { Some("/usr/bin/php5.6") } else { None });
    assert_eq!(found, vec![("5.6".to_string(), "/usr/bin/php5.6")]);
}

#[test]
fn versions_in_names() {
    assert_eq!(version_of_name("php8.4"), Some((8, 4)));
    assert_eq!(version_of_name("php84"), Some((8, 4)));
    assert_eq!(version_of_name("php84.exe"), Some((8, 4)));
    assert_eq!(version_of_name("php810"), Some((8, 10)));
    assert_eq!(version_of_name("php-8.4.14-nts-Win32-vs17-x64"), Some((8, 4)));
    assert_eq!(version_of_name("php@8.3"), Some((8, 3)));
    assert_eq!(version_of_name("8.4.3"), Some((8, 4)));
    assert_eq!(version_of_name("php"), None);
    assert_eq!(version_of_name("php8"), None);
    assert_eq!(version_of_name("current"), None);
    assert_eq!(version_of_name("python3.11"), None);
    assert_eq!(version_of_override("PHPICK_PHP_8_4"), Some((8, 4)));
    assert_eq!(version_of_override("PHPICK_PHP_8_4_1"), None);
    assert_eq!(version_of_override("PHPICK_PHP_8"), None);
    assert_eq!(version_of_override("PATH"), None);
}

#[test]
fn candidates_and_their_order() {
    let names = vec!["php84".to_string(), "composer".to_string(), "7.4.33".to_string()];
    let keys = vec!["HOME".to_string(), "PHPICK_PHP_5_6".to_string()];
    assert_eq!(candidate_versions(&names, &keys), vec![(8, 4), (7, 4), (5, 6)]);
    assert_eq!(sorted_versions(&vec![(8, 4), (7, 4), (8, 4), (8, 1), (10, 0)]), vec![(7, 4), (8, 1), (8, 4), (10, 0)]);
    assert_eq!(sorted_versions(&vec![]), Vec::<(u32, u32)>::new());
}

#[test]
fn listing_directories() {
    let w: Vec<String> = windows_listing_dirs(None, Some("H".to_string()), Some("L".to_string()), None)
        .iter()
        .map(path_text)
        .collect();
    assert_eq!(
        w,
        vec![
            "C:\\laragon\\bin\\php",
            "D:\\laragon\\bin\\php",
            "E:\\laragon\\bin\\php",
            "F:\\laragon\\bin\\php",
            "H/scoop/apps",
            "H/scoop/apps/php",
            "C:\\tools",
            "C:\\ProgramData\\chocolatey\\lib",
            "L/Herd/bin",
            "C:\\Program Files/PHP",
        ]
    );
    let u: Vec<String> = unix_listing_dirs(Some("/h".to_string()), Some("/opt/homebrew\n".to_string()))
        .iter()
        .map(path_text)
        .collect();
    assert_eq!(
        u,
        vec![
            "/opt/homebrew/opt",
            "/h/.asdf/installs/php",
            "/h/.phpenv/versions",
            "/h/Library/Application Support/Herd/bin",
        ]
    );
    assert!(unix_listing_dirs(None, Some(" ".to_string())).is_empty());
}

#[test]
fn composer_target_choice() {
    let r = resolve_composer_target(|n: &str| Some((n.to_string(), n.split_once('.').map(|(_, e)| e.to_string()))));
    assert_eq!(r, Some("composer.phar".to_string()));
    let r = resolve_composer_target(|n: &str| if n == "composer" { Some((n.to_string(), None)) } else { None });
    assert_eq!(r, Some("composer".to_string()));
    let r = resolve_composer_target(|n: &str| Some((n.to_string(), Some("BAT".to_string()))));
    assert_eq!(r, None);
    let r = resolve_composer_target(|n: &str| Some((n.to_string(), Some("PHAR".to_string()))));
    assert_eq!(r, Some("composer.phar".to_string()));
    let r = resolve_composer_target(|_n: &str| None::<(String, Option<String>)>);
    assert_eq!(r, None);
}

fn path_text(p: &PathSpec) -> String {
    let mut out = p.base.clone();
    for part in &p.parts {
        out.push('/');
        out.push_str(part);
    }
    out
}

fn step_text(s: &SearchStep) -> String {
    match s {
        SearchStep::ScanDir { dir, prefixes } => format!("scan {} {:?}", path_text(dir), prefixes),
        SearchStep::CheckedFile(p) => format!("checked {}", path_text(p)),
        SearchStep::File(p) => format!("file {}", path_text(p)),
        SearchStep::Homebrew(f) => format!("brew {f}"),
    }
}

#[test]
fn windows_search_order() {
    let plan: Vec<String> = windows_search_plan(
        8,
        2,
        Some("X:\\lg".to_string()),
        Some("C:\\Users\\me".to_string()),
        Some("C:\\Local".to_string()),
        None,
    )
    .iter()
    .map(step_text)
    .collect();
    assert_eq!(
        plan,
        vec![
            r#"scan X:\lg/bin/php ["php-8.2.", "8.2."]"#,
            r#"scan C:\laragon\bin\php ["php-8.2.", "8.2."]"#,
            r#"scan D:\laragon\bin\php ["php-8.2.", "8.2."]"#,
            r#"scan E:\laragon\bin\php ["php-8.2.", "8.2."]"#,
            r#"scan F:\laragon\bin\php ["php-8.2.", "8.2."]"#,
            r#"checked C:\Users\me/scoop/apps/php82/current/php.exe"#,
            r#"checked C:\Users\me/scoop/apps/php8.2/current/php.exe"#,
            r#"checked C:\Users\me/scoop/apps/php/current/php.exe"#,
            r#"scan C:\Users\me/scoop/apps/php ["8.2."]"#,
            r#"checked C:\tools\php82\php.exe"#,
            r#"checked C:\tools\php8.2\php.exe"#,
            r#"checked C:\ProgramData\chocolatey\lib\php82\tools\php.exe"#,
            r#"file C:\Local/Herd/bin/php8.2/php.exe"#,
            r#"file C:\Program Files/PHP/8.2/php.exe"#,
        ]
    );
}

#[test]
fn windows_search_without_environment() {
    let plan: Vec<String> = windows_search_plan(7, 4, None, None, None, Some("D:\\PF".to_string()))
        .iter()
        .map(step_text)
        .collect();
    assert_eq!(plan.len(), 8);
    assert_eq!(plan[0], r#"scan C:\laragon\bin\php ["php-7.4.", "7.4."]"#);
    assert_eq!(plan[7], r#"file D:\PF/PHP/7.4/php.exe"#);
}

#[test]
fn unix_search_order() {
    let plan: Vec<String> = unix_search_plan(8, 4, Some("/home/me".to_string())).iter().map(step_text).collect();
    assert_eq!(
        plan,
        vec![
            "brew php@8.4",
            r#"scan /home/me/.asdf/installs/php ["8.4."]"#,
            r#"scan /home/me/.phpenv/versions ["8.4."]"#,
            "file /home/me/Library/Application Support/Herd/bin/php8.4",
        ]
    );
    let plan: Vec<String> = unix_search_plan(8, 4, None).iter().map(step_text).collect();
    assert_eq!(plan, vec!["brew php@8.4"]);
}

fn spec(base: &str, parts: &[&str]) -> PathSpec {
    PathSpec { base: base.to_string(), parts: parts.iter().map(|p| p.to_string()).collect() }
}

#[test]
fn scan_result_takes_the_best_entry() {
    let dir = spec("/h", &[".asdf", "installs", "php"]);
    let prefixes = vec!["8.4.".to_string()];
    let listing = vec![entry("8.4.1", true), entry("8.4.10", true), entry("8.40.1", true), entry("8.4.11", false)];
    let r = scan_result(&dir, &prefixes, Some(listing), false).map(|p| path_text(&p));
    assert_eq!(r, Some("/h/.asdf/installs/php/8.4.10/bin/php".to_string()));
    let r = scan_result(&spec("C:\\lg", &[]), &prefixes, Some(vec![entry("8.4.2", true)]), true).map(|p| path_text(&p));
    assert_eq!(r, Some("C:\\lg/8.4.2/php.exe".to_string()));
    assert!(scan_result(&dir, &prefixes, None, false).is_none());
    assert!(scan_result(&dir, &prefixes, Some(vec![entry("8.3.1", true)]), false).is_none());
}

#[test]
fn brew_prefix_output() {
    let p = brew_binary("  /opt/homebrew/opt/php@8.4\n").map(|p| path_text(&p));
    assert_eq!(p, Some("/opt/homebrew/opt/php@8.4/bin/php".to_string()));
    assert!(brew_binary(" \n").is_none());
    assert!(brew_binary("").is_none());
}

#[test]
fn scoop_version_directory_yields_its_php_exe() {
    let plan = windows_search_plan(8, 4, None, Some("H".to_string()), None, None);
    let r = run_search_plan(
        &plan,
        true,
        8,
        4,
        |d: &PathSpec| {
            if path_text(d) == "H/scoop/apps/php" {
                Some(vec![entry("8.3.9", true), entry("8.4.3", true), entry("current", true)])
            } else {
                None
            }
        },
        |_p: &PathSpec| false,
        |_p: &PathSpec| None,
        |_f: &str| None,
    );
    assert_eq!(r.map(|p| path_text(&p)), Some("H/scoop/apps/php/8.4.3/php.exe".to_string()));
}

#[test]
fn search_stops_at_the_first_hit() {
    let plan = unix_search_plan(8, 4, Some("/h".to_string()));
    let asked = RefCell::new(Vec::<String>::new());
    let r = run_search_plan(
        &plan,
        false,
        8,
        4,
        |d: &PathSpec| {
            asked.borrow_mut().push(format!("list {}", path_text(d)));
            Some(vec![entry("8.4.1", true)])
        },
        |p: &PathSpec| {
            asked.borrow_mut().push(format!("file {}", path_text(p)));
            true
        },
        |_p: &PathSpec| None,
        |f: &str| {
            asked.borrow_mut().push(format!("brew {f}"));
            Some(" /opt/php\n".to_string())
        },
    );
    assert_eq!(r.map(|p| path_text(&p)), Some("/opt/php/bin/php".to_string()));
    assert_eq!(*asked.borrow(), vec!["brew php@8.4", "file /opt/php/bin/php"]);
}

#[test]
fn search_falls_through_to_later_steps() {
    let plan = unix_search_plan(8, 4, Some("/h".to_string()));
    let r = run_search_plan(
        &plan,
        false,
        8,
        4,
        |d: &PathSpec| {
            if path_text(d) == "/h/.phpenv/versions" {
                Some(vec![entry("8.4.2", true), entry("8.4.12", true)])
            } else {
                Some(vec![entry("8.3.2", true)])
            }
        },
        |_p: &PathSpec| true,
        |_p: &PathSpec| None,
        |_f: &str| Some("\n".to_string()),
    );
    assert_eq!(r.map(|p| path_text(&p)), Some("/h/.phpenv/versions/8.4.12/bin/php".to_string()));
    let r = run_search_plan(
        &plan,
        false,
        8,
        4,
        |_d: &PathSpec| None,
        |p: &PathSpec| path_text(p).ends_with("Herd/bin/php8.4"),
        |_p: &PathSpec| None,
        |_f: &str| None,
    );
    assert_eq!(r.map(|p| path_text(&p)), Some("/h/Library/Application Support/Herd/bin/php8.4".to_string()));
    let r = run_search_plan(&plan, false, 8, 4, |_d: &PathSpec| None, |_p: &PathSpec| false, |_p: &PathSpec| None, |_f: &str| None);
    assert!(r.is_none());
}

#[test]
fn checked_files_must_not_report_another_version() {
    let plan = windows_search_plan(8, 2, None, None, None, None);
    let r = run_search_plan(
        &plan,
        true,
        8,
        2,
        |_d: &PathSpec| None,
        |p: &PathSpec| p.base.starts_with("C:\\tools\\"),
        |p: &PathSpec| {
            if p.base == "C:\\tools\\php82\\php.exe" {
                Some("8.1\n".to_string())
            } else {
                Some(" 8.2 ".to_string())
            }
        },
        |_f: &str| None,
    );
    assert_eq!(r.map(|p| path_text(&p)), Some("C:\\tools\\php8.2\\php.exe".to_string()));
    let r = run_search_plan(
        &plan,
        true,
        8,
        2,
        |_d: &PathSpec| None,
        |p: &PathSpec| p.base.starts_with("C:\\tools\\"),
        |_p: &PathSpec| None,
        |_f: &str| None,
    );
    assert_eq!(r.map(|p| path_text(&p)), Some("C:\\tools\\php82\\php.exe".to_string()));
}
