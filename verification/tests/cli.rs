use phpick::cli::{classify_invocation, exit_status_byte, parse_cli, select_php, CliCommand, Invocation};

fn args(v: &[Option<&str>]) -> Vec<Option<String>> {
    v.iter().map(|x| x.map(|s| s.to_string())).collect()
}

#[test]
fn invoked_names() {
    assert!(matches!(classify_invocation(Some("phpick")), Invocation::Phpick));
    assert!(matches!(classify_invocation(Some("PHP")), Invocation::Php));
    assert!(matches!(classify_invocation(Some("Composer")), Invocation::Composer));
    match classify_invocation(Some("PHP8")) {
        Invocation::Unknown(n) => assert_eq!(n, "php8"),
        _ => panic!("expected unknown"),
    }
    match classify_invocation(None) {
        Invocation::Unknown(n) => assert_eq!(n, ""),
        _ => panic!("expected unknown"),
    }
}

#[test]
fn commands() {
    assert!(matches!(parse_cli(&args(&[])), CliCommand::Help));
    assert!(matches!(parse_cli(&args(&[None])), CliCommand::Help));
    assert!(matches!(parse_cli(&args(&[Some("--help")])), CliCommand::Help));
    assert!(matches!(parse_cli(&args(&[Some("-v")])), CliCommand::Version));
    assert!(matches!(parse_cli(&args(&[Some("check-update")])), CliCommand::CheckUpdate));
    assert!(matches!(parse_cli(&args(&[Some("self-update")])), CliCommand::Update));
    assert!(matches!(parse_cli(&args(&[Some("ls")])), CliCommand::List));
    assert!(matches!(parse_cli(&args(&[Some("setup")])), CliCommand::Setup));
    match parse_cli(&args(&[Some("which"), Some("8.4")])) {
        CliCommand::Which(v) => assert_eq!(v.as_deref(), Some("8.4")),
        _ => panic!("expected which"),
    }
    match parse_cli(&args(&[Some("which"), None])) {
        CliCommand::Which(v) => assert_eq!(v, None),
        _ => panic!("expected which"),
    }
    match parse_cli(&args(&[Some("frobnicate")])) {
        CliCommand::Unknown(o) => assert_eq!(o, "frobnicate"),
        _ => panic!("expected unknown"),
    }
}

#[test]
fn exit_statuses() {
    assert_eq!(exit_status_byte(Some(0)), 0);
    assert_eq!(exit_status_byte(Some(3)), 3);
    assert_eq!(exit_status_byte(None), 1);
    assert_eq!(exit_status_byte(Some(256)), 0);
    assert_eq!(exit_status_byte(Some(-1)), 255);
}

#[test]
fn pinned_php_or_default() {
    assert_eq!(select_php("php", None, |_v: &str| Some("php8.4")), ("php", None));
    assert_eq!(select_php("php", Some("8.4".to_string()), |v: &str| if v == "8.4" { Some("php8.4") } else { None }), ("php8.4", None));
    assert_eq!(select_php("php", Some("7.1".to_string()), |_v: &str| None), ("php", Some("7.1".to_string())));
}
