//! Fetching a URL: `curl` first, PowerShell only where `curl` is not installed.
use vstd::prelude::*;

use crate::text::{chars_of, concat, string_from_chars};

verus! {

/// Fetches `url` and returns the body: with `curl`, or, where `curl` reports
/// that it is not installed (`Ok(None)`), with PowerShell. An error from
/// `curl` is returned as it is, and PowerShell is then not tried.
pub fn get<E, C, P>(url: &str, curl: C, powershell: P) -> (r: Result<Vec<u8>, E>) where
    C: FnOnce(&str) -> Result<Option<Vec<u8>>, E>,
    P: FnOnce(&str) -> Result<Vec<u8>, E>,

    requires
        curl.requires((url,)),
        powershell.requires((url,)),
    ensures
        exists|c: Result<Option<Vec<u8>>, E>|
            #![trigger curl.ensures((url,), c)]
            curl.ensures((url,), c) && match c {
                Err(e) => r == Err::<Vec<u8>, E>(e),
                Ok(Some(body)) => r == Ok::<Vec<u8>, E>(body),
                Ok(None) => powershell.ensures((url,), r),
            },
{
    match curl(url) {
        Err(e) => Err(e),
        Ok(Some(body)) => Ok(body),
        Ok(None) => powershell(url),
    }
}

/// The arguments given to `curl` to fetch `url`: fail on HTTP errors, stay
/// silent but show errors, follow redirects, give up after 30 s, retry twice,
/// and identify as `phpick/<version>`.
pub fn curl_args(url: &str, version: &str) -> (r: Vec<String>)
    ensures
        r@.len() == 8,
        r@[0]@ == "-fsSL"@,
        r@[1]@ == "--max-time"@,
        r@[2]@ == "30"@,
        r@[3]@ == "--retry"@,
        r@[4]@ == "2"@,
        r@[5]@ == "-A"@,
        r@[6]@ == "phpick/"@ + version@,
        r@[7]@ == url@,
{
    let mut v: Vec<String> = Vec::new();
    v.push("-fsSL".to_string());
    v.push("--max-time".to_string());
    v.push("30".to_string());
    v.push("--retry".to_string());
    v.push("2".to_string());
    v.push("-A".to_string());
    v.push(concat("phpick/", version));
    v.push(url.to_string());
    v
}

/// `s` with each single quote doubled, as a PowerShell single-quoted string needs.
pub open spec fn quote_escaped(s: Seq<char>) -> Seq<char>
    decreases s.len(),
{
    if s.len() == 0 {
        Seq::empty()
    } else {
        let rest = quote_escaped(s.drop_last());
        if s.last() == '\'' {
            rest + seq!['\'', '\'']
        } else {
            rest.push(s.last())
        }
    }
}

fn escape_quotes(s: &str) -> (r: String)
    ensures
        r@ == quote_escaped(s@),
{
    let cs = chars_of(s);
    let mut out: Vec<char> = Vec::new();
    let mut i: usize = 0;
    assert(cs@.take(0) == Seq::<char>::empty());
    while i < cs.len()
        invariant
            i <= cs@.len(),
            out@ == quote_escaped(cs@.take(i as int)),
        decreases cs.len() - i,
    {
        assert(cs@.take(i + 1).drop_last() == cs@.take(i as int));
        assert(cs@.take(i + 1).last() == cs@[i as int]);
        if cs[i] == '\'' {
            out.push('\'');
            out.push('\'');
        } else {
            out.push(cs[i]);
        }
        i = i + 1;
    }
    assert(cs@.take(cs.len() as int) == cs@);
    string_from_chars(out.as_slice())
}

/// The start of the PowerShell fetch script, up to the URL.
pub open spec fn ps_script_head() -> Seq<char> {
    "$ProgressPreference='SilentlyContinue'; $ErrorActionPreference='Stop'; $r=[System.Net.WebRequest]::Create('"@
}

/// The part of the PowerShell fetch script between the URL and the version.
pub open spec fn ps_script_middle() -> Seq<char> {
    "'); $r.UserAgent='phpick/"@
}

/// The end of the PowerShell fetch script, after the version.
pub open spec fn ps_script_tail() -> Seq<char> {
    "'; $resp=$r.GetResponse(); $s=$resp.GetResponseStream(); $out=[System.IO.MemoryStream]::new(); $s.CopyTo($out); $stdout=[Console]::OpenStandardOutput(); $bytes=$out.ToArray(); $stdout.Write($bytes,0,$bytes.Length); $stdout.Flush();"@
}

/// The PowerShell script that fetches `url` and copies the body to standard
/// output, the URL quoted for a single-quoted PowerShell string.
pub fn powershell_script(url: &str, version: &str) -> (r: String)
    ensures
        r@ == ps_script_head() + quote_escaped(url@) + ps_script_middle() + version@ + ps_script_tail(),
{
    let escaped = escape_quotes(url);
    let a = concat(
        "$ProgressPreference='SilentlyContinue'; $ErrorActionPreference='Stop'; $r=[System.Net.WebRequest]::Create('",
        escaped.as_str(),
    );
    let b = concat(a.as_str(), "'); $r.UserAgent='phpick/");
    let c = concat(b.as_str(), version);
    concat(
        c.as_str(),
        "'; $resp=$r.GetResponse(); $s=$resp.GetResponseStream(); $out=[System.IO.MemoryStream]::new(); $s.CopyTo($out); $stdout=[Console]::OpenStandardOutput(); $bytes=$out.ToArray(); $stdout.Write($bytes,0,$bytes.Length); $stdout.Flush();",
    )
}

} // verus!
