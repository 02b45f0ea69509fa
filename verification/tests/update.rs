use phpick::json::JsonValue;
use phpick::calendar::today_utc;
use phpick::update::{
    asset_name, background_request, check, flag_is_set, release_api_url, release_from_json,
    release_from_doc, release_tag, release_version, repo, update_check_due, update_notice, update_stamp_path, BackgroundRequest,
    TargetArch, TargetOs, UpdateError,
};

fn release(tag: &str) -> Result<(String, String), UpdateError> {
    Ok((tag.to_string(), "https://example.invalid/asset".to_string()))
}

#[test]
fn check_reports_only_newer_releases() {
    assert_eq!(check("0.2.0", release("v0.3.0")).ok(), Some(Some("0.3.0".to_string())));
    assert_eq!(check("0.2.0", release("0.3.0")).ok(), Some(Some("0.3.0".to_string())));
    assert_eq!(check("0.2.0", release("v0.2.0")).ok(), Some(None));
    assert_eq!(check("0.3.0", release("v0.2.9")).ok(), Some(None));
    assert_eq!(check("0.2.0", release("vv0.2.1")).ok(), Some(Some("0.2.1".to_string())));
}

#[test]
fn check_passes_on_a_failed_lookup() {
    let r = check("0.2.0", Err(UpdateError("network down".to_string())));
    match r {
        Err(e) => assert_eq!(e.to_string(), "network down"),
        Ok(_) => panic!("expected an error"),
    }
}

#[test]
fn release_document_is_read() {
    let body = br#"{"tag_name":"v0.4.1","assets":[
        {"name":"phpick-linux-arm64","browser_download_url":"https://x/arm"},
        {"name":"phpick-linux-x86_64"},
        {"name":"phpick-linux-x86_64","browser_download_url":"https://x/amd"},
        {"name":"phpick-linux-x86_64","browser_download_url":"https://x/later"}]}"#;
    let (tag, url) = release_from_json(body, "phpick-linux-x86_64").ok().unwrap();
    assert_eq!(tag, "v0.4.1");
    assert_eq!(url, "https://x/amd");
}

#[test]
fn release_document_errors() {
    let bad = release_from_json(b"{not json", "phpick").err().unwrap().to_string();
    assert!(bad.starts_with("bad release JSON: "), "{bad}");
    assert!(bad.len() > "bad release JSON: ".len());

    let no_tag = release_from_json(br#"{"assets":[]}"#, "phpick").err().unwrap().to_string();
    assert_eq!(no_tag, "release JSON missing tag_name");

    let tag_not_string = release_from_json(br#"{"tag_name":3}"#, "phpick").err().unwrap().to_string();
    assert_eq!(tag_not_string, "release JSON missing tag_name");

    let no_asset = release_from_json(br#"{"tag_name":"v1","assets":[{"name":"other","browser_download_url":"u"}]}"#, "phpick")
        .err()
        .unwrap()
        .to_string();
    assert_eq!(no_asset, "no 'phpick' asset on release v1");

    let assets_not_array = release_from_json(br#"{"tag_name":"v1","assets":{}}"#, "phpick").err().unwrap().to_string();
    assert_eq!(assets_not_array, "no 'phpick' asset on release v1");
}

#[test]
fn asset_names_per_platform() {
    assert_eq!(asset_name(TargetOs::Windows, TargetArch::X86_64), "phpick-windows-x86_64.exe");
    assert_eq!(asset_name(TargetOs::Windows, TargetArch::Aarch64), "phpick-windows-arm64.exe");
    assert_eq!(asset_name(TargetOs::Windows, TargetArch::Other), "phpick");
    assert_eq!(asset_name(TargetOs::MacOs, TargetArch::Aarch64), "phpick-macos-arm64");
    assert_eq!(asset_name(TargetOs::MacOs, TargetArch::X86_64), "phpick-macos-x86_64");
    assert_eq!(asset_name(TargetOs::MacOs, TargetArch::Other), "phpick-macos-x86_64");
    assert_eq!(asset_name(TargetOs::Linux, TargetArch::Aarch64), "phpick-linux-arm64");
    assert_eq!(asset_name(TargetOs::Linux, TargetArch::Other), "phpick-linux-x86_64");
    assert_eq!(asset_name(TargetOs::Other, TargetArch::X86_64), "phpick");
}

#[test]
fn release_urls() {
    assert_eq!(
        release_api_url("phpick/phpick", "latest"),
        "https://api.github.com/repos/phpick/phpick/releases/latest"
    );
    assert_eq!(
        release_api_url("me/fork", "v0.2.0"),
        "https://api.github.com/repos/me/fork/releases/tags/v0.2.0"
    );
    assert_eq!(repo(None), "phpick/phpick");
    assert_eq!(repo(Some("me/fork".to_string())), "me/fork");
    assert_eq!(release_tag(None), "latest");
    assert_eq!(release_tag(Some("v1".to_string())), "v1");
}

#[test]
fn daily_check_gate() {
    assert!(update_check_due(None, None, "2024-01-02"));
    assert!(!update_check_due(Some("1"), None, "2024-01-02"));
    assert!(update_check_due(Some("0"), None, "2024-01-02"));
    assert!(update_check_due(Some("yes"), Some("2024-01-01"), "2024-01-02"));
    assert!(!update_check_due(None, Some("2024-01-02\n"), "2024-01-02"));
    assert!(!update_check_due(None, Some("  2024-01-02 "), "2024-01-02"));
    assert!(update_check_due(None, Some("2024-01-01"), "2024-01-02"));
    assert!(flag_is_set(Some("1")));
    assert!(!flag_is_set(Some(" 1")));
    assert!(!flag_is_set(None));
}

#[test]
fn stamp_path_choices() {
    let s = |v: &str| Some(v.to_string());
    assert_eq!(update_stamp_path(s("/tmp/x"), true, s("L"), s("X"), s("H")), vec!["/tmp/x"]);
    assert_eq!(update_stamp_path(None, true, s("L"), s("X"), s("H")), vec!["L", "phpick", "last-check"]);
    assert_eq!(update_stamp_path(None, false, s("L"), s("X"), s("H")), vec!["X", "phpick", "last-check"]);
    assert_eq!(update_stamp_path(None, false, None, None, s("H")), vec!["H", ".cache", "phpick", "last-check"]);
    assert_eq!(update_stamp_path(None, true, None, None, None), vec![".phpick-last-check"]);
}

#[test]
fn background_marker() {
    let a = |v: &[Option<&str>]| v.iter().map(|x| x.map(|s| s.to_string())).collect::<Vec<_>>();
    assert!(matches!(background_request(&a(&[])), BackgroundRequest::NotRequested));
    assert!(matches!(background_request(&a(&[Some("list")])), BackgroundRequest::NotRequested));
    assert!(matches!(background_request(&a(&[None])), BackgroundRequest::NotRequested));
    match background_request(&a(&[Some("__phpick_bg_check"), Some("0.2.0")])) {
        BackgroundRequest::Requested(v) => assert_eq!(v.as_deref(), Some("0.2.0")),
        BackgroundRequest::NotRequested => panic!("marker not seen"),
    }
    match background_request(&a(&[Some("__phpick_bg_check")])) {
        BackgroundRequest::Requested(v) => assert_eq!(v, None),
        BackgroundRequest::NotRequested => panic!("marker not seen"),
    }
    match background_request(&a(&[Some("__phpick_bg_check"), None])) {
        BackgroundRequest::Requested(v) => assert_eq!(v, None),
        BackgroundRequest::NotRequested => panic!("marker not seen"),
    }
}

#[test]
fn notice_text() {
    assert_eq!(
        update_notice("0.2.0", "0.3.0"),
        "phpick: new version available: 0.2.0 -> 0.3.0 (run `phpick update`)"
    );
}

#[test]
fn a_stamp_written_today_stops_later_checks_today() {
    let written = today_utc(1_700_000_000);
    assert!(!update_check_due(None, Some(&written), &today_utc(1_700_000_000 + 3_600)));
    assert!(update_check_due(None, Some(&written), &today_utc(1_700_000_000 + 86_400)));
}

#[test]
fn release_tags_lose_their_leading_v() {
    assert_eq!(release_version("v0.3.1"), "0.3.1");
    assert_eq!(release_version("vv1.0"), "1.0");
    assert_eq!(release_version("1.0v"), "1.0v");
    assert_eq!(release_version(""), "");
}

#[test]
fn release_of_a_parsed_document() {
    let asset = |name: &str, url: &str| {
        JsonValue::Object(vec![
            ("name".to_string(), JsonValue::Str(name.to_string())),
            ("browser_download_url".to_string(), JsonValue::Str(url.to_string())),
        ])
    };
    let doc = JsonValue::Object(vec![
        ("tag_name".to_string(), JsonValue::Str("v0.4.0".to_string())),
        ("assets".to_string(), JsonValue::Array(vec![asset("other", "u0"), asset("phpick-linux-x86_64", "u1")])),
    ]);
    let r = release_from_doc(&doc, "phpick-linux-x86_64");
    assert!(matches!(r, Ok((ref t, ref u)) if t == "v0.4.0" && u == "u1"));
    let r = release_from_doc(&doc, "phpick.exe");
    assert!(matches!(r, Err(ref e) if e.to_string() == "no 'phpick.exe' asset on release v0.4.0"));
    let r = release_from_doc(&JsonValue::Object(vec![]), "phpick.exe");
    assert!(matches!(r, Err(ref e) if e.to_string() == "release JSON missing tag_name"));
}
