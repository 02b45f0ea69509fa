use phpick::http::{curl_args, get, powershell_script};

#[test]
fn curl_result_is_used_when_present() {
    let r: Result<Vec<u8>, String> = get("u", |_u: &str| Ok(Some(vec![1, 2])), |_u: &str| Ok(vec![9]));
    assert_eq!(r, Ok(vec![1, 2]));
}

#[test]
fn powershell_only_without_curl() {
    let r: Result<Vec<u8>, String> = get("u", |_u: &str| Ok(None), |u: &str| Ok(u.as_bytes().to_vec()));
    assert_eq!(r, Ok(b"u".to_vec()));
    let r: Result<Vec<u8>, String> = get("u", |_u: &str| Err("curl failed".to_string()), |_u: &str| Ok(vec![9]));
    assert_eq!(r, Err("curl failed".to_string()));
}

#[test]
fn curl_arguments() {
    assert_eq!(
        curl_args("https://x/y", "0.2.0"),
        vec!["-fsSL", "--max-time", "30", "--retry", "2", "-A", "phpick/0.2.0", "https://x/y"]
    );
}

#[test]
fn powershell_script_quotes_the_url() {
    let s = powershell_script("https://x/it's", "0.2.0");
    assert!(s.starts_with("$ProgressPreference='SilentlyContinue'; $ErrorActionPreference='Stop'; "));
    assert!(s.contains("[System.Net.WebRequest]::Create('https://x/it''s');"));
    assert!(s.contains("$r.UserAgent='phpick/0.2.0';"));
    assert!(s.ends_with("$stdout.Write($bytes,0,$bytes.Length); $stdout.Flush();"));
}
