//! Self-update: where releases are looked up, which release asset belongs to
//! this platform, what a release document says, whether it is newer, and the
//! once-a-day gate of the background check.
use vstd::prelude::*;

use crate::json::{
    as_array, as_str, field, json_as_array, json_as_str, json_field, json_view,
    parse_json_bytes, serde_json_from_slice, Json, JsonValue,
};
use crate::text::{
    chars_of, concat, opt_view, str_eq, string_from_chars, string_views, strip_leading,
    strip_leading_chars, trim, trim_spec,
};
use crate::calendar::{day_of_instant, day_stamp, lemma_day_stamp_trimmed};
use crate::version::{is_newer, is_newer_spec, lemma_not_newer_than_itself};

verus! {

/// An error of the update machinery, carrying its message.
pub struct UpdateError(pub String);

impl UpdateError {
    /// The message, as `Display` writes it.
    pub fn to_string(&self) -> (r: String)
        ensures
            r@ == self.0@,
    {
        self.0.clone()
    }
}

/// The repository that releases come from when none is configured.
pub open spec fn default_repo() -> Seq<char> {
    "phpick/phpick"@
}

/// `owner/repo` to update from: the configured value, else "phpick/phpick".
pub fn repo(configured: Option<String>) -> (r: String)
    ensures
        r@ == match configured {
            Some(v) => v@,
            None => default_repo(),
        },
{
    match configured {
        Some(v) => v,
        None => "phpick/phpick".to_string(),
    }
}

/// The release tag to install: the configured value, else "latest".
pub fn release_tag(configured: Option<String>) -> (r: String)
    ensures
        r@ == match configured {
            Some(v) => v@,
            None => "latest"@,
        },
{
    match configured {
        Some(v) => v,
        None => "latest".to_string(),
    }
}

/// The GitHub API URL that describes release `tag` of `repo`.
pub open spec fn release_api_url_spec(repo: Seq<char>, tag: Seq<char>) -> Seq<char> {
    if tag == "latest"@ {
        "https://api.github.com/repos/"@ + repo + "/releases/latest"@
    } else {
        "https://api.github.com/repos/"@ + repo + "/releases/tags/"@ + tag
    }
}

/// The GitHub API URL of the configured release: `.../releases/latest` for
/// the tag "latest", `.../releases/tags/<tag>` for any other.
pub fn release_api_url(repo: &str, tag: &str) -> (r: String)
    ensures
        r@ == release_api_url_spec(repo@, tag@),
{
    let base = concat("https://api.github.com/repos/", repo);
    if str_eq(tag, "latest") {
        concat(base.as_str(), "/releases/latest")
    } else {
        let with_path = concat(base.as_str(), "/releases/tags/");
        concat(with_path.as_str(), tag)
    }
}

/// Operating systems that releases are built for.
pub enum TargetOs {
    Windows,
    MacOs,
    Linux,
    Other,
}

/// Processor architectures that releases are built for.
pub enum TargetArch {
    X86_64,
    Aarch64,
    Other,
}

/// The name of the release asset built for `os` and `arch`.
pub open spec fn asset_name_spec(os: TargetOs, arch: TargetArch) -> Seq<char> {
    match (os, arch) {
        (TargetOs::Windows, TargetArch::X86_64) => "phpick-windows-x86_64.exe"@,
        (TargetOs::Windows, TargetArch::Aarch64) => "phpick-windows-arm64.exe"@,
        (TargetOs::MacOs, TargetArch::Aarch64) => "phpick-macos-arm64"@,
        (TargetOs::MacOs, _) => "phpick-macos-x86_64"@,
        (TargetOs::Linux, TargetArch::Aarch64) => "phpick-linux-arm64"@,
        (TargetOs::Linux, _) => "phpick-linux-x86_64"@,
        _ => "phpick"@,
    }
}

/// Each asset is the build for the platform asked about: its name starts
/// with the operating system's (`phpick-windows-`, `phpick-macos-`,
/// `phpick-linux-`) and ends with the architecture's: `-arm64` (`-arm64.exe`
/// on Windows) exactly for arm64, `-x86_64` (`-x86_64.exe`) for x86-64 and,
/// on macOS and Linux, for any other architecture; elsewhere it is `phpick`.
pub proof fn lemma_asset_matches_platform(os: TargetOs, arch: TargetArch)
    ensures
        ({
            let name = asset_name_spec(os, arch);
            &&& os is Linux ==> "phpick-linux-"@.is_prefix_of(name)
            &&& os is MacOs ==> "phpick-macos-"@.is_prefix_of(name)
            &&& (os is Linux || os is MacOs) ==> ("-arm64"@.is_suffix_of(name) <==> arch is Aarch64)
            &&& (os is Linux || os is MacOs) ==> ("-x86_64"@.is_suffix_of(name) <==> !(arch is Aarch64))
            &&& (os is Windows && arch is X86_64) ==> "phpick-windows-"@.is_prefix_of(name)
                && "-x86_64.exe"@.is_suffix_of(name)
            &&& (os is Windows && arch is Aarch64) ==> "phpick-windows-"@.is_prefix_of(name)
                && "-arm64.exe"@.is_suffix_of(name)
            &&& (os is Other || (os is Windows && arch is Other)) ==> name == "phpick"@
        }),
{
    reveal_strlit("phpick-linux-");
    reveal_strlit("phpick-macos-");
    reveal_strlit("phpick-windows-");
    reveal_strlit("-arm64");
    reveal_strlit("-x86_64");
    reveal_strlit("-arm64.exe");
    reveal_strlit("-x86_64.exe");
    reveal_strlit("phpick-windows-x86_64.exe");
    reveal_strlit("phpick-windows-arm64.exe");
    reveal_strlit("phpick-macos-arm64");
    reveal_strlit("phpick-macos-x86_64");
    reveal_strlit("phpick-linux-arm64");
    reveal_strlit("phpick-linux-x86_64");
    let name = asset_name_spec(os, arch);
    assert("phpick-linux-arm64"@.subrange(0, 13) =~= "phpick-linux-"@);
    assert("phpick-linux-x86_64"@.subrange(0, 13) =~= "phpick-linux-"@);
    assert("phpick-macos-arm64"@.subrange(0, 13) =~= "phpick-macos-"@);
    assert("phpick-macos-x86_64"@.subrange(0, 13) =~= "phpick-macos-"@);
    assert("phpick-linux-arm64"@.subrange(12, 18) =~= "-arm64"@);
    assert("phpick-macos-arm64"@.subrange(12, 18) =~= "-arm64"@);
    assert("phpick-linux-x86_64"@.subrange(12, 19) =~= "-x86_64"@);
    assert("phpick-macos-x86_64"@.subrange(12, 19) =~= "-x86_64"@);
    assert("phpick-linux-x86_64"@.subrange(13, 19)[0] != "-arm64"@[0]);
    assert("phpick-macos-x86_64"@.subrange(13, 19)[0] != "-arm64"@[0]);
    assert("phpick-linux-arm64"@.subrange(11, 18)[0] != "-x86_64"@[0]);
    assert("phpick-macos-arm64"@.subrange(11, 18)[0] != "-x86_64"@[0]);
    assert("phpick-windows-x86_64.exe"@.subrange(0, 15) =~= "phpick-windows-"@);
    assert("phpick-windows-arm64.exe"@.subrange(0, 15) =~= "phpick-windows-"@);
    assert("phpick-windows-x86_64.exe"@.subrange(14, 25) =~= "-x86_64.exe"@);
    assert("phpick-windows-arm64.exe"@.subrange(14, 24) =~= "-arm64.exe"@);
}

/// The release asset for this platform: a Windows `.exe` for x86-64 and arm64,
/// macOS and Linux builds for arm64 and (any other architecture) x86-64, and
/// plain "phpick" elsewhere.
pub fn asset_name(os: TargetOs, arch: TargetArch) -> (r: &'static str)
    ensures
        r@ == asset_name_spec(os, arch),
{
    match (os, arch) {
        (TargetOs::Windows, TargetArch::X86_64) => "phpick-windows-x86_64.exe",
        (TargetOs::Windows, TargetArch::Aarch64) => "phpick-windows-arm64.exe",
        (TargetOs::MacOs, TargetArch::Aarch64) => "phpick-macos-arm64",
        (TargetOs::MacOs, _) => "phpick-macos-x86_64",
        (TargetOs::Linux, TargetArch::Aarch64) => "phpick-linux-arm64",
        (TargetOs::Linux, _) => "phpick-linux-x86_64",
        _ => "phpick",
    }
}

/// The string value of member `key`, if it is a string.
pub open spec fn str_field(v: Json, key: Seq<char>) -> Option<Seq<char>> {
    match json_field(v, key) {
        Some(x) => json_as_str(x),
        None => None,
    }
}

/// The download URL of the first asset named `want` that has one.
pub open spec fn asset_url(assets: Seq<Json>, want: Seq<char>) -> Option<Seq<char>>
    decreases assets.len(),
{
    if assets.len() == 0 {
        None
    } else {
        let a = assets[0];
        if str_field(a, "name"@) == Some(want) && str_field(a, "browser_download_url"@) is Some {
            str_field(a, "browser_download_url"@)
        } else {
            asset_url(assets.drop_first(), want)
        }
    }
}

/// What a release document gives: `(tag_name, download URL of asset want)`,
/// or the message that says what is missing.
pub open spec fn release_spec(doc: Json, want: Seq<char>) -> Result<(Seq<char>, Seq<char>), Seq<char>> {
    match str_field(doc, "tag_name"@) {
        None => Err("release JSON missing tag_name"@),
        Some(tag) => {
            let url = match json_field(doc, "assets"@) {
                Some(a) => match json_as_array(a) {
                    Some(items) => asset_url(items, want),
                    None => None,
                },
                None => None,
            };
            match url {
                Some(u) => Ok((tag, u)),
                None => Err("no '"@ + want + "' asset on release "@ + tag),
            }
        },
    }
}

fn str_member(v: &JsonValue, key: &str) -> (r: Option<String>)
    ensures
        match r {
            Some(s) => str_field(v@, key@) == Some(s@),
            None => str_field(v@, key@) is None,
        },
{
    match field(v, key) {
        Some(x) => match as_str(x) {
            Some(s) => Some(s.clone()),
            None => None,
        },
        None => None,
    }
}

fn find_asset_url(items: &Vec<JsonValue>, want: &str) -> (r: Option<String>)
    ensures
        match r {
            Some(u) => asset_url(Seq::new(items@.len(), |i: int| json_view(items@[i])), want@) == Some(u@),
            None => asset_url(Seq::new(items@.len(), |i: int| json_view(items@[i])), want@) is None,
        },
{
    let ghost all = Seq::new(items@.len(), |i: int| json_view(items@[i]));
    assert(all.skip(0) == all);
    let mut i: usize = 0;
    while i < items.len()
        invariant
            i <= items@.len(),
            all == Seq::new(items@.len(), |i: int| json_view(items@[i])),
            asset_url(all, want@) == asset_url(all.skip(i as int), want@),
        decreases items.len() - i,
    {
        let ghost rest = all.skip(i as int);
        assert(rest[0] == items@[i as int]@);
        assert(rest.drop_first() == all.skip(i + 1));
        let name = str_member(&items[i], "name");
        if let Some(n) = name {
            if str_eq(n.as_str(), want) {
                let url = str_member(&items[i], "browser_download_url");
                if let Some(u) = url {
                    return Some(u);
                }
            }
        }
        i = i + 1;
    }
    None
}

/// What a parsed GitHub release document gives: its `tag_name` and the
/// download URL of its first asset named `want` that has one, else the
/// message that says what is missing (see `release_spec`).
pub fn release_from_doc(doc: &JsonValue, want: &str) -> (r: Result<(String, String), UpdateError>)
    ensures
        match release_spec(doc@, want@) {
            Ok((tag, url)) => r matches Ok((t, u)) && t@ == tag && u@ == url,
            Err(msg) => r matches Err(e) && e.0@ == msg,
        },
{
    let tag = match str_member(doc, "tag_name") {
        Some(t) => t,
        None => return Err(UpdateError("release JSON missing tag_name".to_string())),
    };
    let url = match field(doc, "assets") {
        Some(a) => match as_array(a) {
            Some(items) => find_asset_url(items, want),
            None => None,
        },
        None => None,
    };
    match url {
        Some(u) => Ok((tag, u)),
        None => {
            let m1 = concat("no '", want);
            let m2 = concat(m1.as_str(), "' asset on release ");
            let m3 = concat(m2.as_str(), tag.as_str());
            Err(UpdateError(m3))
        },
    }
}

/// Reads a GitHub release document: its `tag_name`, and the download URL of
/// its first asset named `want` that has one.
pub fn release_from_json(body: &[u8], want: &str) -> (r: Result<(String, String), UpdateError>)
    ensures
        match serde_json_from_slice(body@) {
            None => r matches Err(e) && "bad release JSON: "@.is_prefix_of(e.0@),
            Some(doc) => match release_spec(doc, want@) {
                Ok((tag, url)) => r matches Ok((t, u)) && t@ == tag && u@ == url,
                Err(msg) => r matches Err(e) && e.0@ == msg,
            },
        },
{
    match parse_json_bytes(body) {
        Ok(doc) => release_from_doc(&doc, want),
        Err(e) => {
            let text = e.to_string();
            let msg = concat("bad release JSON: ", text.as_str());
            assert("bad release JSON: "@.is_prefix_of(msg@)) by {
                assert(msg@.take("bad release JSON: "@.len() as int) == "bad release JSON: "@);
            }
            Err(UpdateError(msg))
        },
    }
}

/// What a check reports for the published tag `tag` when `current` runs:
/// the published version (the tag without leading `v`s) if it is newer, else nothing.
pub open spec fn check_spec(current: Seq<char>, tag: Seq<char>) -> Option<Seq<char>> {
    let remote = strip_leading(tag, 'v');
    if remote == current {
        None
    } else if is_newer_spec(remote, current) {
        Some(remote)
    } else {
        None
    }
}

/// The version that a release tag names: the tag without its leading `v`s.
pub fn release_version(tag: &str) -> (r: String)
    ensures
        r@ == strip_leading(tag@, 'v'),
{
    let tc = chars_of(tag);
    let rc = strip_leading_chars(tc.as_slice(), 'v');
    string_from_chars(rc.as_slice())
}

/// Returns `Some(remote)` if the looked-up release is newer than `current`,
/// `None` if we are current (or ahead); a failed lookup is passed on.
pub fn check(current: &str, release: Result<(String, String), UpdateError>) -> (r: Result<
    Option<String>,
    UpdateError,
>)
    ensures
        match release {
            Err(e) => r matches Err(e2) && e2.0@ == e.0@,
            Ok((tag, _url)) => match check_spec(current@, tag@) {
                Some(v) => r matches Ok(Some(s)) && s@ == v,
                None => r matches Ok(None),
            },
        },
{
    let (tag, _url) = match release {
        Ok(x) => x,
        Err(e) => return Err(e),
    };
    let remote = release_version(tag.as_str());
    if str_eq(remote.as_str(), current) {
        return Ok(None);
    }
    if is_newer(remote.as_str(), current) {
        Ok(Some(remote))
    } else {
        Ok(None)
    }
}

/// A check reports a release exactly when it is newer than the running version.
pub proof fn lemma_check_reports_newer(current: Seq<char>, tag: Seq<char>)
    ensures
        check_spec(current, tag) == if is_newer_spec(strip_leading(tag, 'v'), current) {
            Some(strip_leading(tag, 'v'))
        } else {
            None
        },
{
    lemma_not_newer_than_itself(current);
}

/// The message that announces a newer release.
pub fn update_notice(current: &str, remote: &str) -> (r: String)
    ensures
        r@ == "phpick: new version available: "@ + current@ + " -> "@ + remote@
            + " (run `phpick update`)"@,
{
    let a = concat("phpick: new version available: ", current);
    let b = concat(a.as_str(), " -> ");
    let c = concat(b.as_str(), remote);
    concat(c.as_str(), " (run `phpick update`)")
}

// ---------------------------------------------------------------------------
// The daily background check

pub open spec fn str_opt_view(v: Option<&str>) -> Option<Seq<char>> {
    match v {
        Some(s) => Some(s@),
        None => None,
    }
}

/// An on/off setting given in the environment is on exactly when it reads "1".
pub fn flag_is_set(value: Option<&str>) -> (r: bool)
    ensures
        r == (str_opt_view(value) == Some("1"@)),
{
    match value {
        Some(v) => str_eq(v, "1"),
        None => false,
    }
}

/// Whether a background check is due on `today`, given the disabling setting
/// and the stamp left by the last check.
pub open spec fn check_due_spec(disable_flag: Option<Seq<char>>, previous_stamp: Option<Seq<char>>, today: Seq<char>) -> bool {
    !(disable_flag == Some("1"@) || (previous_stamp is Some && trim_spec(previous_stamp.unwrap()) == today))
}

/// Once a check has written the day stamp of an instant (`today_utc`), no
/// other check is due at any instant of the same UTC day, whatever the setting.
pub proof fn lemma_checked_once_a_day(disable_flag: Option<Seq<char>>, written_at: u64, now: u64)
    requires
        day_of_instant(written_at) == day_of_instant(now),
    ensures
        !check_due_spec(disable_flag, Some(day_stamp(written_at)), day_stamp(now)),
{
    lemma_day_stamp_trimmed(written_at);
}

/// Unless checks are disabled, a check is due whenever there is no stamp or
/// the stamp, trimmed, is not today's date: a stamp from any other day never
/// holds a check back.
pub proof fn lemma_check_due_unless_stamped_today(
    disable_flag: Option<Seq<char>>,
    previous_stamp: Option<Seq<char>>,
    today: Seq<char>,
)
    requires
        disable_flag != Some("1"@),
        previous_stamp is None || trim_spec(previous_stamp.unwrap()) != today,
    ensures
        check_due_spec(disable_flag, previous_stamp, today),
{
}

/// No check is due once the stamp, trimmed, reads today's date.
pub proof fn lemma_no_check_when_stamped_today(disable_flag: Option<Seq<char>>, previous_stamp: Seq<char>, today: Seq<char>)
    requires
        trim_spec(previous_stamp) == today,
    ensures
        !check_due_spec(disable_flag, Some(previous_stamp), today),
{
}

/// Whatever the stamp, no check is due while checks are disabled.
pub proof fn lemma_no_check_when_disabled(previous_stamp: Option<Seq<char>>, today: Seq<char>)
    ensures
        !check_due_spec(Some("1"@), previous_stamp, today),
{
}

/// Whether today's background check is still due: not when checks are
/// disabled (`PHPICK_NO_UPDATE_CHECK=1`), nor when the stamp left by an
/// earlier check already reads today's date (whitespace aside).
pub fn update_check_due(disable_flag: Option<&str>, previous_stamp: Option<&str>, today: &str) -> (r: bool)
    ensures
        r == check_due_spec(str_opt_view(disable_flag), str_opt_view(previous_stamp), today@),
{
    if flag_is_set(disable_flag) {
        return false;
    }
    match previous_stamp {
        Some(prev) => {
            let t = trim(prev);
            !str_eq(t.as_str(), today)
        },
        None => true,
    }
}

/// Where the stamp of the last check is kept, as the path components to join:
/// an explicit `PHPICK_UPDATE_STAMP` path; else on Windows `%LOCALAPPDATA%`,
/// then `$XDG_CACHE_HOME`, then `$HOME/.cache`, each followed by
/// `phpick/last-check`; else `.phpick-last-check` in the working directory.
pub open spec fn stamp_path_spec(
    explicit: Option<Seq<char>>,
    windows: bool,
    local_app_data: Option<Seq<char>>,
    xdg_cache_home: Option<Seq<char>>,
    home: Option<Seq<char>>,
) -> Seq<Seq<char>> {
    if explicit is Some {
        seq![explicit.unwrap()]
    } else if windows && local_app_data is Some {
        seq![local_app_data.unwrap(), "phpick"@, "last-check"@]
    } else if xdg_cache_home is Some {
        seq![xdg_cache_home.unwrap(), "phpick"@, "last-check"@]
    } else if home is Some {
        seq![home.unwrap(), ".cache"@, "phpick"@, "last-check"@]
    } else {
        seq![".phpick-last-check"@]
    }
}

/// The path of the update stamp, as components to join in order.
pub fn update_stamp_path(
    explicit: Option<String>,
    windows: bool,
    local_app_data: Option<String>,
    xdg_cache_home: Option<String>,
    home: Option<String>,
) -> (r: Vec<String>)
    ensures
        string_views(r@) == stamp_path_spec(
            opt_view(explicit),
            windows,
            opt_view(local_app_data),
            opt_view(xdg_cache_home),
            opt_view(home),
        ),
{
    let ghost e = opt_view(explicit);
    let ghost l = opt_view(local_app_data);
    let ghost x = opt_view(xdg_cache_home);
    let ghost h = opt_view(home);
    let mut out: Vec<String> = Vec::new();
    if let Some(p) = explicit {
        out.push(p);
    } else if windows && local_app_data.is_some() {
        out.push(local_app_data.unwrap());
        out.push("phpick".to_string());
        out.push("last-check".to_string());
    } else if let Some(p) = xdg_cache_home {
        out.push(p);
        out.push("phpick".to_string());
        out.push("last-check".to_string());
    } else if let Some(p) = home {
        out.push(p);
        out.push(".cache".to_string());
        out.push("phpick".to_string());
        out.push("last-check".to_string());
    } else {
        out.push(".phpick-last-check".to_string());
    }
    assert(string_views(out@) == stamp_path_spec(e, windows, l, x, h));
    out
}

/// What the first arguments ask of a run: `__phpick_bg_check` marks the
/// background check, which reads the running version from the next argument.
pub enum BackgroundRequest {
    /// Not a background-check run.
    NotRequested,
    /// A background-check run; the running version, if it was given as valid text.
    Requested(Option<String>),
}

/// The first argument is the background-check marker.
pub open spec fn marks_background_check(args: Seq<Option<String>>) -> bool {
    args.len() > 0 && opt_view(args[0]) == Some("__phpick_bg_check"@)
}

/// Recognises the internal background-check invocation. Arguments are given
/// as text, `None` for one that is not valid Unicode.
pub fn background_request(args: &Vec<Option<String>>) -> (r: BackgroundRequest)
    ensures
        match r {
            BackgroundRequest::NotRequested => !marks_background_check(args@),
            BackgroundRequest::Requested(v) => marks_background_check(args@) && opt_view(v) == (
            if args@.len() > 1 {
                opt_view(args@[1])
            } else {
                None
            }),
        },
{
    if args.len() == 0 {
        return BackgroundRequest::NotRequested;
    }
    let is_marker = match &args[0] {
        Some(a) => str_eq(a.as_str(), "__phpick_bg_check"),
        None => false,
    };
    if !is_marker {
        return BackgroundRequest::NotRequested;
    }
    if args.len() > 1 {
        let v = match &args[1] {
            Some(s) => Some(s.clone()),
            None => None,
        };
        BackgroundRequest::Requested(v)
    } else {
        BackgroundRequest::Requested(None)
    }
}

} // verus!
