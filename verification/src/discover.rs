//! Finding PHP binaries: the order in which places are searched, the names
//! looked for in each, and the choice among installed versions.
use vstd::prelude::*;

use crate::decimal::{decimal, is_digit, parse_u32, parse_u32_spec, push_decimal};
use crate::text::{
    ascii_lower_seq, ascii_lowercase, chars_of, opt_view, split_chars, split_fields, str_eq,
    string_from_chars, string_views, trim, trim_spec, views,
};
use crate::version::{
    key_less, key_lt, lemma_key_less_irreflexive, lemma_key_less_total, lemma_key_less_transitive,
    major_minor_text, numeric_key, numeric_key_spec, split_version, split_version_spec,
};

verus! {

/// `prefix`, `major`, `sep`, `minor`, `suffix`, the numbers in decimal.
pub open spec fn php_label_spec(prefix: Seq<char>, major: u32, sep: Seq<char>, minor: u32, suffix: Seq<char>) -> Seq<char> {
    prefix + decimal(major as nat) + sep + decimal(minor as nat) + suffix
}

fn push_str(out: &mut Vec<char>, s: &str)
    ensures
        final(out)@ == old(out)@ + s@,
{
    let cs = chars_of(s);
    let ghost start = out@;
    let mut i: usize = 0;
    while i < cs.len()
        invariant
            i <= cs@.len(),
            out@ == start + cs@.take(i as int),
        decreases cs.len() - i,
    {
        out.push(cs[i]);
        i = i + 1;
        assert(out@ == start + cs@.take(i as int));
    }
    assert(cs@.take(cs.len() as int) == cs@);
}

/// Builds `prefix{major}sep{minor}suffix`.
pub fn php_label(prefix: &str, major: u32, sep: &str, minor: u32, suffix: &str) -> (r: String)
    ensures
        r@ == php_label_spec(prefix@, major, sep@, minor, suffix@),
{
    let mut out: Vec<char> = Vec::new();
    push_str(&mut out, prefix);
    push_decimal(major, &mut out);
    push_str(&mut out, sep);
    push_decimal(minor, &mut out);
    push_str(&mut out, suffix);
    string_from_chars(out.as_slice())
}

/// The environment variable that overrides the binary for a version:
/// `PHPICK_PHP_{major}_{minor}`.
pub fn php_env_key(major: u32, minor: u32) -> (r: String)
    ensures
        r@ == php_label_spec("PHPICK_PHP_"@, major, "_"@, minor, ""@),
{
    php_label("PHPICK_PHP_", major, "_", minor, "")
}

/// The names looked up on `PATH` for a version, in order: `php{major}.{minor}`
/// (Debian/Ubuntu), then `php{major}{minor}` (RHEL-family).
pub fn php_binary_names(major: u32, minor: u32) -> (r: Vec<String>)
    ensures
        r@.len() == 2,
        r@[0]@ == php_label_spec("php"@, major, "."@, minor, ""@),
        r@[1]@ == php_label_spec("php"@, major, ""@, minor, ""@),
{
    let mut v: Vec<String> = Vec::new();
    v.push(php_label("php", major, ".", minor, ""));
    v.push(php_label("php", major, "", minor, ""));
    v
}

/// The prefix of a version's install directory under asdf, phpenv and scoop: `X.Y.`.
pub fn patch_dir_prefix(major: u32, minor: u32) -> (r: String)
    ensures
        r@ == php_label_spec(""@, major, "."@, minor, "."@),
{
    php_label("", major, ".", minor, ".")
}

/// The Laravel Herd name of a version: `phpX.Y`.
pub fn herd_name(major: u32, minor: u32) -> (r: String)
    ensures
        r@ == php_label_spec("php"@, major, "."@, minor, ""@),
{
    php_label("php", major, ".", minor, "")
}

/// The Homebrew formula of a version: `php@X.Y`.
pub fn brew_formula(major: u32, minor: u32) -> (r: String)
    ensures
        r@ == php_label_spec("php@"@, major, "."@, minor, ""@),
{
    php_label("php@", major, ".", minor, "")
}

/// `X.Y`, the name of a version's directory under `Program Files\PHP`, and
/// what `php -r` prints for it.
pub fn version_label(major: u32, minor: u32) -> (r: String)
    ensures
        r@ == major_minor_text(major, minor),
{
    let r = php_label("", major, ".", minor, "");
    proof {
        reveal_strlit("");
        reveal_strlit(".");
        assert(php_label_spec(""@, major, "."@, minor, ""@) == major_minor_text(major, minor));
    }
    r
}

/// Whether `php -r 'echo PHP_MAJOR_VERSION.".".PHP_MINOR_VERSION;'` confirms
/// the version: a run that failed (`None`) does not reject the binary, and a
/// successful run must print `X.Y`, whitespace aside.
pub fn version_output_matches(output: Option<&str>, major: u32, minor: u32) -> (r: bool)
    ensures
        r == match output {
            None => true,
            Some(o) => trim_spec(o@) == major_minor_text(major, minor),
        },
{
    match output {
        None => true,
        Some(o) => {
            let t = trim(o);
            let want = version_label(major, minor);
            str_eq(t.as_str(), want.as_str())
        },
    }
}

// ---------------------------------------------------------------------------
// Candidate file names on PATH

/// The extensions that Windows tries, when the setting is absent.
pub open spec fn default_pathext() -> Seq<char> {
    ".COM;.EXE;.BAT;.CMD"@
}

/// The non-empty fields, in ASCII lower case.
pub open spec fn lowered_nonempty(fields: Seq<Seq<char>>) -> Seq<Seq<char>>
    decreases fields.len(),
{
    if fields.len() == 0 {
        Seq::empty()
    } else {
        let rest = lowered_nonempty(fields.drop_last());
        if fields.last().len() > 0 {
            rest.push(ascii_lower_seq(fields.last()))
        } else {
            rest
        }
    }
}

/// The executable extensions named by `PATHEXT` (or its default when unset):
/// its non-empty `;`-separated fields, in ASCII lower case.
pub open spec fn path_extensions_spec(pathext: Option<Seq<char>>) -> Seq<Seq<char>> {
    lowered_nonempty(
        split_fields(
            match pathext {
                Some(p) => p,
                None => default_pathext(),
            },
            ';',
        ),
    )
}

/// The executable extensions, from the value of `PATHEXT` (`None` when unset).
pub fn path_extensions(pathext: Option<&str>) -> (r: Vec<String>)
    ensures
        string_views(r@) == path_extensions_spec(
            match pathext {
                Some(p) => Some(p@),
                None => None,
            },
        ),
{
    let text = match pathext {
        Some(p) => chars_of(p),
        None => chars_of(".COM;.EXE;.BAT;.CMD"),
    };
    let fields = split_chars(text.as_slice(), ';');
    let ghost all = views(fields@);
    let mut out: Vec<String> = Vec::new();
    let mut i: usize = 0;
    assert(all.take(0) == Seq::<Seq<char>>::empty());
    while i < fields.len()
        invariant
            i <= fields@.len(),
            all == views(fields@),
            string_views(out@) == lowered_nonempty(all.take(i as int)),
        decreases fields.len() - i,
    {
        assert(all.take(i + 1).drop_last() == all.take(i as int));
        assert(all.take(i + 1).last() == fields@[i as int]@);
        if fields[i].len() > 0 {
            let low = ascii_lowercase(fields[i].as_slice());
            out.push(string_from_chars(low.as_slice()));
            assert(string_views(out@) == lowered_nonempty(all.take(i as int)).push(low@));
        }
        i = i + 1;
    }
    assert(all.take(fields.len() as int) == all);
    out
}

/// The file names tried in each `PATH` directory for `name`: just `name` off
/// Windows or when it has an extension; else `name` with each extension appended.
pub open spec fn binary_candidates_spec(name: Seq<char>, windows: bool, has_extension: bool, exts: Seq<Seq<char>>) -> Seq<Seq<char>> {
    if !windows || has_extension {
        seq![name]
    } else {
        exts.map_values(|e: Seq<char>| name + e)
    }
}

pub fn binary_candidates(name: &str, windows: bool, has_extension: bool, exts: &Vec<String>) -> (r: Vec<String>)
    ensures
        string_views(r@) == binary_candidates_spec(name@, windows, has_extension, string_views(exts@)),
{
    let mut out: Vec<String> = Vec::new();
    if !windows || has_extension {
        out.push(name.to_string());
        assert(string_views(out@) == seq![name@]);
        return out;
    }
    let ghost want = string_views(exts@).map_values(|e: Seq<char>| name@ + e);
    let mut i: usize = 0;
    while i < exts.len()
        invariant
            i <= exts@.len(),
            want == string_views(exts@).map_values(|e: Seq<char>| name@ + e),
            string_views(out@) == want.take(i as int),
        decreases exts.len() - i,
    {
        assert(string_views(exts@)[i as int] == exts@[i as int]@);
        let mut s = name.to_string();
        s.append(exts[i].as_str());
        let ghost prev = out@;
        out.push(s);
        assert(out@ == prev.push(s));
        assert(string_views(out@) == string_views(prev).push(s@));
        assert(want.take(i + 1) == want.take(i as int).push(want[i as int]));
        i = i + 1;
        assert(string_views(out@) == want.take(i as int));
    }
    assert(want.take(exts.len() as int) == want);
    out
}

/// The search of `PATH` from directory `d`, candidate name `k` on: directories
/// with an empty name are skipped, and in each other directory the names are
/// tried in order; `probe(d, name)` yields the file when it exists and is not
/// this program. The first that the probe yields is the result.
pub open spec fn path_search<P, F: Fn(usize, &str) -> Option<P>>(
    probe: F,
    empty: Seq<bool>,
    names: Seq<Seq<char>>,
    d: int,
    k: int,
    r: Option<P>,
) -> bool
    decreases empty.len() - d, names.len() - k,
{
    if d < 0 || k < 0 || d >= empty.len() {
        r is None
    } else if empty[d] || k >= names.len() {
        path_search(probe, empty, names, d + 1, 0, r)
    } else {
        exists|arg: &str, found: Option<P>|
            #![trigger probe.ensures((d as usize, arg), found)]
            arg@ == names[k] && probe.ensures((d as usize, arg), found) && if found is Some {
                r == found
            } else {
                path_search(probe, empty, names, d, k + 1, r)
            }
    }
}

/// Finds an executable on `PATH`: the directories in order (those with an
/// empty name skipped), in each the candidate names in order, the first
/// candidate that `probe` yields.
pub fn first_binary_on_path<P, F: Fn(usize, &str) -> Option<P>>(
    dir_is_empty: &Vec<bool>,
    names: &Vec<String>,
    probe: F,
) -> (r: Option<P>)
    requires
        forall|d: usize, n: &str| #[trigger] probe.requires((d, n)),
    ensures
        path_search(probe, dir_is_empty@, string_views(names@), 0, 0, r),
{
    let ghost nv = string_views(names@);
    let mut d: usize = 0;
    while d < dir_is_empty.len()
        invariant
            d <= dir_is_empty@.len(),
            nv == string_views(names@),
            forall|d: usize, n: &str| #[trigger] probe.requires((d, n)),
            forall|x: Option<P>|
                #[trigger] path_search(probe, dir_is_empty@, nv, d as int, 0, x) ==> path_search(
                    probe,
                    dir_is_empty@,
                    nv,
                    0,
                    0,
                    x,
                ),
        decreases dir_is_empty.len() - d,
    {
        if !dir_is_empty[d] {
            let mut k: usize = 0;
            while k < names.len()
                invariant
                    d < dir_is_empty@.len(),
                    !dir_is_empty@[d as int],
                    k <= names@.len(),
                    nv == string_views(names@),
                    forall|d: usize, n: &str| #[trigger] probe.requires((d, n)),
                    forall|x: Option<P>|
                        #[trigger] path_search(probe, dir_is_empty@, nv, d as int, k as int, x) ==> path_search(
                            probe,
                            dir_is_empty@,
                            nv,
                            0,
                            0,
                            x,
                        ),
                decreases names.len() - k,
            {
                let arg: &str = names[k].as_str();
                assert(arg@ == nv[k as int]);
                let found = probe(d, arg);
                assert(((d as int) as usize) == d);
                assert(probe.ensures(((d as int) as usize, arg), found));
                if found.is_some() {
                    assert(path_search(probe, dir_is_empty@, nv, d as int, k as int, found));
                    return found;
                }
                assert forall|x: Option<P>|
                    #[trigger] path_search(probe, dir_is_empty@, nv, d as int, k + 1, x) implies path_search(
                    probe,
                    dir_is_empty@,
                    nv,
                    0,
                    0,
                    x,
                ) by {
                    assert(probe.ensures(((d as int) as usize, arg), found));
                    assert(path_search(probe, dir_is_empty@, nv, d as int, k as int, x));
                }
                k = k + 1;
            }
            assert forall|x: Option<P>|
                #[trigger] path_search(probe, dir_is_empty@, nv, d + 1, 0, x) implies path_search(
                probe,
                dir_is_empty@,
                nv,
                0,
                0,
                x,
            ) by {
                assert(path_search(probe, dir_is_empty@, nv, d as int, k as int, x));
            }
        } else {
            assert forall|x: Option<P>|
                #[trigger] path_search(probe, dir_is_empty@, nv, d + 1, 0, x) implies path_search(
                probe,
                dir_is_empty@,
                nv,
                0,
                0,
                x,
            ) by {
                assert(path_search(probe, dir_is_empty@, nv, d as int, 0, x));
            }
        }
        d = d + 1;
    }
    assert(path_search(probe, dir_is_empty@, nv, d as int, 0, None::<P>));
    None
}

// ---------------------------------------------------------------------------
// Choosing among installed versions

/// A directory entry seen while scanning an install root: its name and
/// whether it holds the PHP binary.
pub struct DirEntryInfo {
    pub name: String,
    pub has_binary: bool,
}

pub open spec fn starts_with_any(name: Seq<char>, prefixes: Seq<Seq<char>>) -> bool {
    exists|k: int| 0 <= k < prefixes.len() && (#[trigger] prefixes[k]).is_prefix_of(name)
}

/// The entry is a candidate: its name starts with one of the prefixes and it holds the binary.
pub open spec fn is_candidate(e: DirEntryInfo, prefixes: Seq<Seq<char>>) -> bool {
    e.has_binary && starts_with_any(e.name@, prefixes)
}

/// Entry `k` is the one to use: a candidate whose version numbers are the
/// highest of all candidates, and the first of those that tie with it.
pub open spec fn is_best_entry(entries: Seq<DirEntryInfo>, prefixes: Seq<Seq<char>>, k: int) -> bool {
    &&& 0 <= k < entries.len()
    &&& is_candidate(entries[k], prefixes)
    &&& forall|j: int|
        0 <= j < entries.len() && is_candidate(#[trigger] entries[j], prefixes) ==> !key_less(
            numeric_key_spec(entries[k].name@),
            numeric_key_spec(entries[j].name@),
        )
    &&& forall|j: int|
        0 <= j < k && is_candidate(#[trigger] entries[j], prefixes) ==> key_less(
            numeric_key_spec(entries[j].name@),
            numeric_key_spec(entries[k].name@),
        )
}

fn starts_with(s: &[char], p: &[char]) -> (r: bool)
    ensures
        r == p@.is_prefix_of(s@),
{
    if p.len() > s.len() {
        return false;
    }
    let mut i: usize = 0;
    while i < p.len()
        invariant
            i <= p.len() <= s.len(),
            forall|j: int| 0 <= j < i ==> p@[j] == s@[j],
        decreases p.len() - i,
    {
        if p[i] != s[i] {
            return false;
        }
        i = i + 1;
    }
    true
}

fn starts_with_one_of(name: &str, prefixes: &Vec<String>) -> (r: bool)
    ensures
        r == starts_with_any(name@, string_views(prefixes@)),
{
    let cs = chars_of(name);
    let mut i: usize = 0;
    while i < prefixes.len()
        invariant
            i <= prefixes@.len(),
            cs@ == name@,
            forall|k: int| 0 <= k < i ==> !(#[trigger] string_views(prefixes@)[k]).is_prefix_of(name@),
        decreases prefixes.len() - i,
    {
        assert(string_views(prefixes@)[i as int] == prefixes@[i as int]@);
        let pc = chars_of(prefixes[i].as_str());
        if starts_with(cs.as_slice(), pc.as_slice()) {
            assert(string_views(prefixes@)[i as int].is_prefix_of(name@));
            return true;
        }
        i = i + 1;
    }
    false
}

/// Chooses, among the entries whose name starts with one of `prefixes` and
/// that hold the binary, the one with the highest version (numbers compared
/// in order, so that `8.4.14` beats `8.4.9`); of entries that tie, the first.
pub fn best_versioned_entry(entries: &Vec<DirEntryInfo>, prefixes: &Vec<String>) -> (r: Option<usize>)
    ensures
        match r {
            Some(k) => is_best_entry(entries@, string_views(prefixes@), k as int),
            None => forall|j: int|
                0 <= j < entries@.len() ==> !is_candidate(#[trigger] entries@[j], string_views(prefixes@)),
        },
{
    let ghost ps = string_views(prefixes@);
    let mut best: Option<usize> = None;
    let mut best_key: Vec<u32> = Vec::new();
    let mut i: usize = 0;
    while i < entries.len()
        invariant
            i <= entries@.len(),
            ps == string_views(prefixes@),
            match best {
                Some(k) => {
                    &&& k < i
                    &&& best_key@ == numeric_key_spec(entries@[k as int].name@)
                    &&& is_best_entry(entries@.take(i as int), ps, k as int)
                },
                None => forall|j: int| 0 <= j < i ==> !is_candidate(#[trigger] entries@[j], ps),
            },
        decreases entries.len() - i,
    {
        let e = &entries[i];
        let ghost prev = entries@.take(i as int);
        let ghost next = entries@.take(i + 1);
        assert(forall|j: int| 0 <= j < i ==> next[j] == prev[j] && prev[j] == entries@[j]);
        assert(next[i as int] == entries@[i as int]);
        if e.has_binary && starts_with_one_of(e.name.as_str(), prefixes) {
            let key = numeric_key(e.name.as_str());
            match best {
                None => {
                    proof {
                        lemma_key_less_irreflexive(key@);
                    }
                    best = Some(i);
                    best_key = key;
                },
                Some(k) => {
                    if key_lt(best_key.as_slice(), key.as_slice()) {
                        proof {
                            lemma_key_less_irreflexive(key@);
                            assert forall|j: int|
                                0 <= j < next.len() && is_candidate(#[trigger] next[j], ps) implies !key_less(
                                key@,
                                numeric_key_spec(next[j].name@),
                            ) by {
                                if j < i {
                                    let kj = numeric_key_spec(next[j].name@);
                                    lemma_key_less_total(best_key@, kj);
                                    if key_less(key@, kj) {
                                        if key_less(kj, best_key@) {
                                            lemma_key_less_transitive(key@, kj, best_key@);
                                            lemma_key_less_transitive(key@, best_key@, key@);
                                        } else if kj == best_key@ {
                                            lemma_key_less_transitive(key@, best_key@, key@);
                                        }
                                    }
                                }
                            }
                            assert forall|j: int|
                                0 <= j < i && is_candidate(#[trigger] next[j], ps) implies key_less(
                                numeric_key_spec(next[j].name@),
                                key@,
                            ) by {
                                let kj = numeric_key_spec(next[j].name@);
                                lemma_key_less_total(best_key@, kj);
                                if kj == best_key@ {
                                } else if key_less(best_key@, kj) {
                                    assert(!key_less(best_key@, kj));
                                } else {
                                    lemma_key_less_transitive(kj, best_key@, key@);
                                }
                            }
                        }
                        best = Some(i);
                        best_key = key;
                    } else {
                        proof {
                            assert forall|j: int|
                                0 <= j < next.len() && is_candidate(#[trigger] next[j], ps) implies !key_less(
                                best_key@,
                                numeric_key_spec(next[j].name@),
                            ) by {
                                if j < i {
                                    assert(next[j] == prev[j]);
                                }
                            }
                            assert forall|j: int|
                                0 <= j < k && is_candidate(#[trigger] next[j], ps) implies key_less(
                                numeric_key_spec(next[j].name@),
                                best_key@,
                            ) by {
                                assert(next[j] == prev[j]);
                            }
                        }
                    }
                },
            }
        } else {
            proof {
                assert(!is_candidate(next[i as int], ps));
                match best {
                    Some(k) => {
                        assert forall|j: int|
                            0 <= j < next.len() && is_candidate(#[trigger] next[j], ps) implies !key_less(
                            best_key@,
                            numeric_key_spec(next[j].name@),
                        ) by {
                            if j < i {
                                assert(next[j] == prev[j]);
                            }
                        }
                        assert forall|j: int|
                            0 <= j < k && is_candidate(#[trigger] next[j], ps) implies key_less(
                            numeric_key_spec(next[j].name@),
                            best_key@,
                        ) by {
                            assert(next[j] == prev[j]);
                        }
                    },
                    None => {},
                }
            }
        }
        i = i + 1;
    }
    assert(entries@.take(entries.len() as int) == entries@);
    best
}

// ---------------------------------------------------------------------------
// The search

/// The `PATH` lookups of a version, then the platform scan: the first of
/// `php{X.Y}` and `php{XY}` found on `PATH`, else what the scan finds.
pub open spec fn path_then_scan<P, B: Fn(&str) -> Option<P>, S: FnOnce(u32, u32) -> Option<P>>(
    on_path: B,
    platform_scan: S,
    major: u32,
    minor: u32,
    r: Option<P>,
) -> bool {
    exists|n1: &str, p1: Option<P>|
        #![trigger on_path.ensures((n1,), p1)]
        n1@ == php_label_spec("php"@, major, "."@, minor, ""@) && on_path.ensures((n1,), p1) && if p1 is Some {
            r == p1
        } else {
            exists|n2: &str, p2: Option<P>|
                #![trigger on_path.ensures((n2,), p2)]
                n2@ == php_label_spec("php"@, major, ""@, minor, ""@) && on_path.ensures((n2,), p2) && if p2
                    is Some {
                    r == p2
                } else {
                    platform_scan.ensures((major, minor), r)
                }
        }
}

/// Finds a PHP binary for a version such as "8.4" or "8.4.15". Only its
/// `major.minor` counts, and a version without one finds nothing. In order:
/// the `PHPICK_PHP_{major}_{minor}` override (`env_override` is given the
/// variable's name and yields the file it names, if it is one); then
/// `php{major}.{minor}` and `php{major}{minor}` on `PATH` (`on_path`); then
/// the platform's install locations (`platform_scan`). The first found wins.
pub fn find_php<P, E, B, S>(version: &str, env_override: E, on_path: B, platform_scan: S) -> (r: Option<P>) where
    E: FnOnce(&str) -> Option<P>,
    B: Fn(&str) -> Option<P>,
    S: FnOnce(u32, u32) -> Option<P>,

    requires
        forall|k: &str| #[trigger] env_override.requires((k,)),
        forall|n: &str| #[trigger] on_path.requires((n,)),
        forall|a: u32, b: u32| #[trigger] platform_scan.requires((a, b)),
    ensures
        match split_version_spec(version@) {
            None => r is None,
            Some((major, minor)) => exists|k: &str, e: Option<P>|
                #![trigger env_override.ensures((k,), e)]
                k@ == php_label_spec("PHPICK_PHP_"@, major, "_"@, minor, ""@) && env_override.ensures((k,), e)
                    && if e is Some {
                    r == e
                } else {
                    path_then_scan(on_path, platform_scan, major, minor, r)
                },
        },
{
    let (major, minor) = match split_version(version) {
        Some(v) => v,
        None => return None,
    };
    let key = php_env_key(major, minor);
    let e = env_override(key.as_str());
    if e.is_some() {
        return e;
    }
    let names = php_binary_names(major, minor);
    let p1 = on_path(names[0].as_str());
    if p1.is_some() {
        assert(path_then_scan(on_path, platform_scan, major, minor, p1));
        return p1;
    }
    let p2 = on_path(names[1].as_str());
    if p2.is_some() {
        assert(path_then_scan(on_path, platform_scan, major, minor, p2));
        return p2;
    }
    let p3 = platform_scan(major, minor);
    assert(path_then_scan(on_path, platform_scan, major, minor, p3));
    p3
}

// ---------------------------------------------------------------------------
// Versions seen in names

/// Number of characters of `s` before its first ASCII digit.
pub open spec fn leading_nondigits(s: Seq<char>) -> nat
    decreases s.len(),
{
    if s.len() > 0 && !is_digit(s[0]) {
        1 + leading_nondigits(s.drop_first())
    } else {
        0
    }
}

/// Number of ASCII digits at the start of `s`.
pub open spec fn leading_digits(s: Seq<char>) -> nat
    decreases s.len(),
{
    if s.len() > 0 && is_digit(s[0]) {
        1 + leading_digits(s.drop_first())
    } else {
        0
    }
}

/// The version that text starting at a number writes: `X.Y` as its first two
/// dot-separated fields (`8.4`, `8.4.14-nts`, `84.exe` aside), else a run of
/// two or more digits read as one digit of major version and the rest as the
/// minor (`84` is 8.4, as in the names `php84` and `php84.exe`).
pub open spec fn version_from_digits(rest: Seq<char>) -> Option<(u32, u32)> {
    match split_version_spec(rest) {
        Some(v) => Some(v),
        None => {
            let run = rest.take(leading_digits(rest) as int);
            if run.len() >= 2 && parse_u32_spec(run.take(1)) is Some && parse_u32_spec(run.skip(1)) is Some {
                Some((parse_u32_spec(run.take(1)).unwrap(), parse_u32_spec(run.skip(1)).unwrap()))
            } else {
                None
            }
        },
    }
}

/// The version a file or directory name stands for: a name that starts with
/// `php` (`php8.4`, `php84`, `php-8.4.14-Win32`, `php@8.4`) or with a digit
/// (`8.4.3`), read from its first digit on (see `version_from_digits`).
pub open spec fn name_version(name: Seq<char>) -> Option<(u32, u32)> {
    if (name.len() >= 3 && name[0] == 'p' && name[1] == 'h' && name[2] == 'p') || (name.len() > 0 && is_digit(
        name[0],
    )) {
        version_from_digits(name.skip(leading_nondigits(name) as int))
    } else {
        None
    }
}

/// The version an override variable is for: `PHPICK_PHP_X_Y`.
pub open spec fn override_version(key: Seq<char>) -> Option<(u32, u32)> {
    let prefix = "PHPICK_PHP_"@;
    if prefix.is_prefix_of(key) {
        let f = split_fields(key.skip(prefix.len() as int), '_');
        if f.len() == 2 && parse_u32_spec(f[0]) is Some && parse_u32_spec(f[1]) is Some {
            Some((parse_u32_spec(f[0]).unwrap(), parse_u32_spec(f[1]).unwrap()))
        } else {
            None
        }
    } else {
        None
    }
}

fn count_leading(s: &[char], digits: bool, from: usize) -> (r: usize)
    requires
        from <= s.len(),
    ensures
        from <= r <= s.len(),
        r - from == if digits {
            leading_digits(s@.skip(from as int))
        } else {
            leading_nondigits(s@.skip(from as int))
        },
{
    let mut i: usize = from;
    while i < s.len() && (('0' <= s[i] && s[i] <= '9') == digits)
        invariant
            from <= i <= s.len(),
            (if digits {
                leading_digits(s@.skip(from as int))
            } else {
                leading_nondigits(s@.skip(from as int))
            }) == (i - from) + (if digits {
                leading_digits(s@.skip(i as int))
            } else {
                leading_nondigits(s@.skip(i as int))
            }),
        decreases s.len() - i,
    {
        assert(s@.skip(i as int).drop_first() =~= s@.skip(i + 1));
        i = i + 1;
    }
    i
}

fn chars_between(s: &[char], a: usize, b: usize) -> (r: Vec<char>)
    requires
        a <= b <= s.len(),
    ensures
        r@ == s@.subrange(a as int, b as int),
{
    let mut out: Vec<char> = Vec::new();
    let mut i: usize = a;
    while i < b
        invariant
            a <= i <= b <= s.len(),
            out@ == s@.subrange(a as int, i as int),
        decreases b - i,
    {
        out.push(s[i]);
        i = i + 1;
    }
    out
}

/// Reads a version from text that starts at a number (see `version_from_digits`).
fn read_version_from_digits(rest: &[char]) -> (r: Option<(u32, u32)>)
    ensures
        r == version_from_digits(rest@),
{
    let s = string_from_chars(rest);
    match split_version(s.as_str()) {
        Some(v) => Some(v),
        None => {
            let n = count_leading(rest, true, 0);
            assert(rest@.skip(0) =~= rest@);
            if n < 2 {
                return None;
            }
            let run = chars_between(rest, 0, n);
            let ghost rs = rest@.take(n as int);
            assert(run@ =~= rs);
            let first = chars_between(run.as_slice(), 0, 1);
            let others = chars_between(run.as_slice(), 1, n);
            assert(first@ =~= rs.take(1));
            assert(others@ =~= rs.skip(1));
            match (parse_u32(first.as_slice()), parse_u32(others.as_slice())) {
                (Some(a), Some(b)) => Some((a, b)),
                _ => None,
            }
        },
    }
}

/// The version a file or directory name stands for (see `name_version`).
pub fn version_of_name(name: &str) -> (r: Option<(u32, u32)>)
    ensures
        r == name_version(name@),
{
    let cs = chars_of(name);
    let starts_php = cs.len() >= 3 && cs[0] == 'p' && cs[1] == 'h' && cs[2] == 'p';
    let starts_digit = cs.len() > 0 && '0' <= cs[0] && cs[0] <= '9';
    if !(starts_php || starts_digit) {
        return None;
    }
    let k = count_leading(cs.as_slice(), false, 0);
    assert(cs@.skip(0) =~= cs@);
    let rest = chars_between(cs.as_slice(), k, cs.len());
    assert(rest@ =~= name@.skip(k as int));
    read_version_from_digits(rest.as_slice())
}

/// The version an override variable's name is for (see `override_version`).
pub fn version_of_override(key: &str) -> (r: Option<(u32, u32)>)
    ensures
        r == override_version(key@),
{
    let cs = chars_of(key);
    let pc = chars_of("PHPICK_PHP_");
    proof {
        reveal_strlit("PHPICK_PHP_");
    }
    if !starts_with(cs.as_slice(), pc.as_slice()) {
        return None;
    }
    let rest = chars_between(cs.as_slice(), pc.len(), cs.len());
    assert(rest@ =~= key@.skip(pc.len() as int));
    let fields = split_chars(rest.as_slice(), '_');
    if fields.len() != 2 {
        return None;
    }
    assert(fields@[0]@ == split_fields(rest@, '_')[0]);
    assert(fields@[1]@ == split_fields(rest@, '_')[1]);
    match (parse_u32(fields[0].as_slice()), parse_u32(fields[1].as_slice())) {
        (Some(a), Some(b)) => Some((a, b)),
        _ => None,
    }
}

/// The versions that `read` finds in the texts `xs`, in their order.
pub open spec fn versions_read(xs: Seq<Seq<char>>, read: spec_fn(Seq<char>) -> Option<(u32, u32)>) -> Seq<(u32, u32)>
    decreases xs.len(),
{
    if xs.len() == 0 {
        Seq::empty()
    } else {
        let rest = versions_read(xs.drop_last(), read);
        match read(xs.last()) {
            Some(v) => rest.push(v),
            None => rest,
        }
    }
}

/// The versions to ask about when listing: those that the names of the files
/// and directories in the places searched stand for (`name_version`), then
/// those that override variables are for (`override_version`).
pub fn candidate_versions(names: &Vec<String>, env_keys: &Vec<String>) -> (r: Vec<(u32, u32)>)
    ensures
        r@ == versions_read(string_views(names@), |n: Seq<char>| name_version(n)) + versions_read(
            string_views(env_keys@),
            |k: Seq<char>| override_version(k),
        ),
{
    let ghost nf = |n: Seq<char>| name_version(n);
    let ghost kf = |k: Seq<char>| override_version(k);
    let mut out: Vec<(u32, u32)> = Vec::new();
    let mut i: usize = 0;
    while i < names.len()
        invariant
            i <= names@.len(),
            nf == (|n: Seq<char>| name_version(n)),
            out@ == versions_read(string_views(names@).take(i as int), nf),
        decreases names.len() - i,
    {
        let ghost before = string_views(names@).take(i as int);
        assert(string_views(names@).take(i + 1).drop_last() =~= before);
        assert(string_views(names@).take(i + 1).last() == names@[i as int]@);
        match version_of_name(names[i].as_str()) {
            Some(v) => out.push(v),
            None => {},
        }
        i = i + 1;
    }
    assert(string_views(names@).take(names@.len() as int) =~= string_views(names@));
    let ghost first = out@;
    let mut j: usize = 0;
    while j < env_keys.len()
        invariant
            j <= env_keys@.len(),
            kf == (|k: Seq<char>| override_version(k)),
            out@ == first + versions_read(string_views(env_keys@).take(j as int), kf),
        decreases env_keys.len() - j,
    {
        let ghost before = string_views(env_keys@).take(j as int);
        assert(string_views(env_keys@).take(j + 1).drop_last() =~= before);
        assert(string_views(env_keys@).take(j + 1).last() == env_keys@[j as int]@);
        match version_of_override(env_keys[j].as_str()) {
            Some(v) => {
                out.push(v);
                assert(out@ =~= first + versions_read(string_views(env_keys@).take(j + 1), kf));
            },
            None => {},
        }
        j = j + 1;
    }
    assert(string_views(env_keys@).take(env_keys@.len() as int) =~= string_views(env_keys@));
    out
}

/// `a` is an earlier version than `b`.
pub open spec fn version_less(a: (u32, u32), b: (u32, u32)) -> bool {
    a.0 < b.0 || (a.0 == b.0 && a.1 < b.1)
}

/// Each version comes before the ones after it, so none occurs twice.
pub open spec fn strictly_ascending(s: Seq<(u32, u32)>) -> bool {
    forall|i: int, j: int| 0 <= i < j < s.len() ==> version_less(#[trigger] s[i], #[trigger] s[j])
}

/// The versions of `vs`, each once, in ascending order.
pub fn sorted_versions(vs: &Vec<(u32, u32)>) -> (r: Vec<(u32, u32)>)
    ensures
        strictly_ascending(r@),
        forall|v: (u32, u32)| r@.contains(v) <==> vs@.contains(v),
{
    let mut out: Vec<(u32, u32)> = Vec::new();
    let mut i: usize = 0;
    while i < vs.len()
        invariant
            i <= vs@.len(),
            strictly_ascending(out@),
            forall|v: (u32, u32)| out@.contains(v) <==> vs@.take(i as int).contains(v),
        decreases vs.len() - i,
    {
        let c = vs[i];
        let mut p: usize = 0;
        while p < out.len() && (out[p].0 < c.0 || (out[p].0 == c.0 && out[p].1 < c.1))
            invariant
                p <= out@.len(),
                forall|k: int| 0 <= k < p ==> version_less(#[trigger] out@[k], c),
            decreases out.len() - p,
        {
            p = p + 1;
        }
        assert(vs@.take(i + 1) =~= vs@.take(i as int).push(c));
        if p < out.len() && out[p].0 == c.0 && out[p].1 == c.1 {
            assert(out@[p as int] == c);
        } else {
            let ghost old_out = out@;
            proof {
                if p < old_out.len() {
                    assert(version_less(c, old_out[p as int]));
                    assert forall|k: int| p <= k < old_out.len() implies version_less(c, #[trigger] old_out[k]) by {
                        if k > p {
                            assert(version_less(old_out[p as int], old_out[k]));
                        }
                    }
                }
            }
            out.insert(p, c);
            assert(out@ == old_out.insert(p as int, c));
            assert forall|a: int, b: int| 0 <= a < b < out@.len() implies version_less(#[trigger] out@[a], #[trigger] out@[b]) by {
                if b < p {
                    assert(out@[a] == old_out[a] && out@[b] == old_out[b]);
                } else if b == p {
                    assert(out@[a] == old_out[a]);
                } else if a < p {
                    assert(out@[a] == old_out[a] && out@[b] == old_out[b - 1]);
                    assert(version_less(old_out[a], c));
                } else if a == p {
                    assert(out@[b] == old_out[b - 1]);
                } else {
                    assert(out@[a] == old_out[a - 1] && out@[b] == old_out[b - 1]);
                }
            }
            assert forall|v: (u32, u32)| out@.contains(v) <==> vs@.take(i + 1).contains(v) by {
                if out@.contains(v) {
                    let k = choose|k: int| 0 <= k < out@.len() && out@[k] == v;
                    if k < p {
                        assert(old_out[k] == v);
                        assert(old_out.contains(v));
                    } else if k > p {
                        assert(old_out[k - 1] == v);
                        assert(old_out.contains(v));
                    } else {
                        assert(vs@.take(i + 1)[i as int] == v);
                    }
                }
                if vs@.take(i + 1).contains(v) {
                    if v == c {
                        assert(out@[p as int] == c);
                    } else {
                        assert(vs@.take(i as int).contains(v));
                        assert(old_out.contains(v));
                        let k = choose|k: int| 0 <= k < old_out.len() && old_out[k] == v;
                        if k < p {
                            assert(out@[k] == v);
                        } else {
                            assert(out@[k + 1] == v);
                        }
                    }
                }
            }
        }
        i = i + 1;
    }
    assert(vs@.take(vs@.len() as int) =~= vs@);
    out
}

/// Versions in ascending order, each once, are fixed by which versions they
/// are: two such sequences with the same versions are the same sequence.
pub proof fn lemma_ascending_unique(a: Seq<(u32, u32)>, b: Seq<(u32, u32)>)
    requires
        strictly_ascending(a),
        strictly_ascending(b),
        forall|v: (u32, u32)| a.contains(v) <==> b.contains(v),
    ensures
        a == b,
    decreases a.len(),
{
    if a.len() == 0 {
        if b.len() > 0 {
            assert(b.contains(b[0]));
        }
        assert(a =~= b);
    } else {
        assert(a.contains(a[0]));
        let k = choose|k: int| 0 <= k < b.len() && b[k] == a[0];
        assert(b.contains(b[0]));
        let j = choose|j: int| 0 <= j < a.len() && a[j] == b[0];
        if k > 0 {
            assert(version_less(b[0], b[k]));
            if j > 0 {
                assert(version_less(a[0], a[j]));
            }
        }
        assert(a[0] == b[0]);
        let a1 = a.drop_first();
        let b1 = b.drop_first();
        assert forall|v: (u32, u32)| a1.contains(v) implies b1.contains(v) by {
            let x = choose|x: int| 0 <= x < a1.len() && a1[x] == v;
            assert(version_less(a[0], a[x + 1]));
            assert(a.contains(v));
            let y = choose|y: int| 0 <= y < b.len() && b[y] == v;
            assert(y != 0);
            assert(b1[y - 1] == v);
        }
        assert forall|v: (u32, u32)| b1.contains(v) implies a1.contains(v) by {
            let x = choose|x: int| 0 <= x < b1.len() && b1[x] == v;
            assert(version_less(b[0], b[x + 1]));
            assert(b.contains(v));
            let y = choose|y: int| 0 <= y < a.len() && a[y] == v;
            assert(y != 0);
            assert(a1[y - 1] == v);
        }
        assert(strictly_ascending(a1)) by {
            assert forall|i: int, j: int| 0 <= i < j < a1.len() implies version_less(#[trigger] a1[i], #[trigger] a1[j]) by {
                assert(a1[i] == a[i + 1] && a1[j] == a[j + 1]);
            }
        }
        assert(strictly_ascending(b1)) by {
            assert forall|i: int, j: int| 0 <= i < j < b1.len() implies version_less(#[trigger] b1[i], #[trigger] b1[j]) by {
                assert(b1[i] == b[i + 1] && b1[j] == b[j + 1]);
            }
        }
        lemma_ascending_unique(a1, b1);
        assert(a =~= seq![a[0]] + a1);
        assert(b =~= seq![b[0]] + b1);
    }
}

/// The entries of a listing: for each version asked about, in order, its
/// `major.minor` and what was found, where something was.
pub open spec fn found_entries<P>(asked: Seq<(u32, u32)>, results: Seq<Option<P>>) -> Seq<(Seq<char>, P)>
    decreases results.len(),
{
    if results.len() == 0 {
        Seq::empty()
    } else {
        let rest = found_entries(asked, results.drop_last());
        let v = asked[results.len() - 1];
        match results.last() {
            Some(p) => rest.push((major_minor_text(v.0, v.1), p)),
            None => rest,
        }
    }
}

pub open spec fn listing_view<P>(v: Seq<(String, P)>) -> Seq<(Seq<char>, P)> {
    v.map_values(|e: (String, P)| (e.0@, e.1))
}

/// Lists every PHP that can be found, as (major.minor, binary): each version
/// among `candidates` (those seen in the places searched, see
/// `candidate_versions`) is asked about once, in ascending order, and those
/// that `find_php` finds are listed with what it found.
pub fn list_all<P, F: Fn(&str) -> Option<P>>(candidates: &Vec<(u32, u32)>, find_php: F) -> (r: Vec<(String, P)>)
    requires
        forall|v: &str| #[trigger] find_php.requires((v,)),
    ensures
        exists|asked: Seq<(u32, u32)>, args: Seq<&str>, results: Seq<Option<P>>|
            #![trigger found_entries(asked, results), args.len()]
            strictly_ascending(asked) && (forall|v: (u32, u32)| asked.contains(v) <==> candidates@.contains(v))
                && args.len() == asked.len() && results.len() == asked.len() && (forall|i: int|
                0 <= i < asked.len() ==> (#[trigger] args[i])@ == major_minor_text(asked[i].0, asked[i].1)
                    && find_php.ensures((args[i],), results[i])) && listing_view(r@) == found_entries(asked, results),
{
    let versions = sorted_versions(candidates);
    let mut out: Vec<(String, P)> = Vec::new();
    let ghost mut args: Seq<&str> = Seq::empty();
    let ghost mut results: Seq<Option<P>> = Seq::empty();
    let mut i: usize = 0;
    while i < versions.len()
        invariant
            i <= versions@.len(),
            forall|v: &str| #[trigger] find_php.requires((v,)),
            args.len() == i,
            results.len() == i,
            forall|k: int|
                0 <= k < i ==> (#[trigger] args[k])@ == major_minor_text(versions@[k].0, versions@[k].1)
                    && find_php.ensures((args[k],), results[k]),
            listing_view(out@) == found_entries(versions@, results),
        decreases versions.len() - i,
    {
        let (major, minor) = versions[i];
        let label = version_label(major, minor);
        let arg: &str = label.as_str();
        let found = find_php(arg);
        let ghost prev_results = results;
        proof {
            args = args.push(arg);
            results = results.push(found);
            assert(results.drop_last() == prev_results);
        }
        match found {
            Some(p) => {
                let ghost before = out@;
                let item = (version_label(major, minor), p);
                out.push(item);
                assert(listing_view(out@) == listing_view(before).push((item.0@, item.1)));
            },
            None => {},
        }
        i = i + 1;
    }
    out
}

/// Whether a composer candidate can be run directly by PHP: its extension,
/// in ASCII lower case, is `phar` or empty (no extension counts as empty).
pub open spec fn direct_composer_extension(ext: Option<Seq<char>>) -> bool {
    match ext {
        Some(e) => ascii_lower_seq(e) == "phar"@ || e.len() == 0,
        None => true,
    }
}

/// The files beside a `composer` wrapper that PHP can run directly, in order.
pub open spec fn composer_target_name(i: int) -> Seq<char> {
    if i == 0 {
        "composer.phar"@
    } else {
        "composer"@
    }
}

pub fn is_direct_composer_extension(ext: Option<&str>) -> (r: bool)
    ensures
        r == direct_composer_extension(
            match ext {
                Some(e) => Some(e@),
                None => None,
            },
        ),
{
    match ext {
        Some(e) => {
            let cs = chars_of(e);
            let low = ascii_lowercase(cs.as_slice());
            let s = string_from_chars(low.as_slice());
            str_eq(s.as_str(), "phar") || cs.len() == 0
        },
        None => true,
    }
}

/// What a probe of a sibling file gives: the file's path and its extension,
/// or nothing when there is no such file.
pub open spec fn composer_choice<P, F: Fn(&str) -> Option<(P, Option<String>)>>(probe: F, i: int, r: Option<P>) -> bool
    decreases 2 - i,
{
    if i >= 2 {
        r is None
    } else {
        exists|n: &str, found: Option<(P, Option<String>)>|
            #![trigger probe.ensures((n,), found)]
            n@ == composer_target_name(i) && probe.ensures((n,), found) && match found {
                Some((path, ext)) => if direct_composer_extension(
                    match ext {
                        Some(e) => Some(e@),
                        None => None,
                    },
                ) {
                    r == Some(path)
                } else {
                    composer_choice(probe, i + 1, r)
                },
                None => composer_choice(probe, i + 1, r),
            }
    }
}

/// If `composer` is a `.bat`/`.cmd` wrapper, finds the sibling that PHP can
/// run directly: `composer.phar`, then `composer`, whichever is first a file
/// with extension `phar` or none. `probe` is given each name and yields the
/// file beside the wrapper with its extension, when it is a file.
pub fn resolve_composer_target<P, F: Fn(&str) -> Option<(P, Option<String>)>>(probe: F) -> (r: Option<P>)
    requires
        forall|n: &str| #[trigger] probe.requires((n,)),
    ensures
        composer_choice(probe, 0, r),
{
    let first = probe("composer.phar");
    let ghost g1 = first;
    if let Some((path, ext)) = first {
        let ok = match &ext {
            Some(e) => is_direct_composer_extension(Some(e.as_str())),
            None => is_direct_composer_extension(None),
        };
        if ok {
            let r = Some(path);
            assert(composer_choice(probe, 0, r));
            return r;
        }
    }
    let second = probe("composer");
    let ghost g2 = second;
    let r = match second {
        Some((path, ext)) => {
            let ok = match &ext {
                Some(e) => is_direct_composer_extension(Some(e.as_str())),
                None => is_direct_composer_extension(None),
            };
            if ok {
                Some(path)
            } else {
                None
            }
        },
        None => None,
    };
    proof {
        if r is None {
            assert(composer_choice(probe, 2, r));
        }
        assert(probe.ensures(("composer",), g2));
        assert(composer_choice(probe, 1, r));
        assert(probe.ensures(("composer.phar",), g1));
        assert(composer_choice(probe, 0, r));
    }
    r
}

// ---------------------------------------------------------------------------
// Platform install locations

/// A path: a base, then components joined onto it in order.
pub struct PathSpec {
    pub base: String,
    pub parts: Vec<String>,
}

/// A place to look for a version's binary.
pub enum SearchStep {
    /// The binary in the highest-versioned subdirectory of `dir` whose name
    /// starts with one of `prefixes` (`php.exe` on Windows, `bin/php` elsewhere).
    ScanDir { dir: PathSpec, prefixes: Vec<String> },
    /// The file, if it is one and `php -r` does not contradict the version.
    CheckedFile(PathSpec),
    /// The file, if it is one.
    File(PathSpec),
    /// `bin/php` under the prefix that `brew --prefix <formula>` prints, if it is a file.
    Homebrew(String),
}

/// The view of a path: its base and components.
pub open spec fn path_view(p: PathSpec) -> (Seq<char>, Seq<Seq<char>>) {
    (p.base@, string_views(p.parts@))
}

/// The view of a search step.
pub enum StepView {
    ScanDir((Seq<char>, Seq<Seq<char>>), Seq<Seq<char>>),
    CheckedFile((Seq<char>, Seq<Seq<char>>)),
    File((Seq<char>, Seq<Seq<char>>)),
    Homebrew(Seq<char>),
}

pub open spec fn step_view(s: SearchStep) -> StepView {
    match s {
        SearchStep::ScanDir { dir, prefixes } => StepView::ScanDir(path_view(dir), string_views(prefixes@)),
        SearchStep::CheckedFile(p) => StepView::CheckedFile(path_view(p)),
        SearchStep::File(p) => StepView::File(path_view(p)),
        SearchStep::Homebrew(f) => StepView::Homebrew(f@),
    }
}

pub open spec fn plan_view(v: Seq<SearchStep>) -> Seq<StepView> {
    v.map_values(|s: SearchStep| step_view(s))
}

fn path_of(base: String, parts: Vec<String>) -> (r: PathSpec)
    ensures
        r.base == base,
        r.parts == parts,
{
    PathSpec { base, parts }
}

fn strings1(a: &str) -> (r: Vec<String>)
    ensures
        string_views(r@) == seq![a@],
{
    let mut v: Vec<String> = Vec::new();
    v.push(a.to_string());
    assert(string_views(v@) == seq![a@]);
    v
}

/// Where the Windows installers put a version, in the order they are searched:
/// the Laragon roots (`LARAGON_ROOT\bin\php` when set, then the defaults on
/// drives C to F), each scanned for `php-X.Y.*` or `X.Y.*`; Scoop under
/// `%USERPROFILE%` (the apps `phpXY`, `phpX.Y`, `php`, then the `X.Y.*`
/// version directories of `php`, whose `php.exe` the scan yields); Chocolatey; Laravel Herd under `%LOCALAPPDATA%`; and
/// `PHP\X.Y\php.exe` under `%ProgramFiles%` (default `C:\Program Files`).
pub open spec fn windows_plan_spec(
    major: u32,
    minor: u32,
    laragon_root: Option<Seq<char>>,
    user_profile: Option<Seq<char>>,
    local_app_data: Option<Seq<char>>,
    program_files: Option<Seq<char>>,
) -> Seq<StepView> {
    let prefixes = seq![
        php_label_spec("php-"@, major, "."@, minor, "."@),
        php_label_spec(""@, major, "."@, minor, "."@),
    ];
    let laragon = match laragon_root {
        Some(r) => seq![StepView::ScanDir((r, seq!["bin"@, "php"@]), prefixes)],
        None => Seq::empty(),
    };
    let defaults = seq![
        StepView::ScanDir(("C:\\laragon\\bin\\php"@, Seq::empty()), prefixes),
        StepView::ScanDir(("D:\\laragon\\bin\\php"@, Seq::empty()), prefixes),
        StepView::ScanDir(("E:\\laragon\\bin\\php"@, Seq::empty()), prefixes),
        StepView::ScanDir(("F:\\laragon\\bin\\php"@, Seq::empty()), prefixes),
    ];
    let scoop = match user_profile {
        Some(h) => seq![
            StepView::CheckedFile(
                (h, seq!["scoop"@, "apps"@, php_label_spec("php"@, major, ""@, minor, ""@), "current"@, "php.exe"@]),
            ),
            StepView::CheckedFile(
                (h, seq!["scoop"@, "apps"@, php_label_spec("php"@, major, "."@, minor, ""@), "current"@, "php.exe"@]),
            ),
            StepView::CheckedFile((h, seq!["scoop"@, "apps"@, "php"@, "current"@, "php.exe"@])),
            StepView::ScanDir(
                (h, seq!["scoop"@, "apps"@, "php"@]),
                seq![php_label_spec(""@, major, "."@, minor, "."@)],
            ),
        ],
        None => Seq::empty(),
    };
    let choco = seq![
        StepView::CheckedFile((php_label_spec("C:\\tools\\php"@, major, ""@, minor, "\\php.exe"@), Seq::empty())),
        StepView::CheckedFile((php_label_spec("C:\\tools\\php"@, major, "."@, minor, "\\php.exe"@), Seq::empty())),
        StepView::CheckedFile(
            (
                php_label_spec("C:\\ProgramData\\chocolatey\\lib\\php"@, major, ""@, minor, "\\tools\\php.exe"@),
                Seq::empty(),
            ),
        ),
    ];
    let herd = match local_app_data {
        Some(l) => seq![
            StepView::File((l, seq!["Herd"@, "bin"@, php_label_spec("php"@, major, "."@, minor, ""@), "php.exe"@])),
        ],
        None => Seq::empty(),
    };
    let pf = match program_files {
        Some(p) => p,
        None => "C:\\Program Files"@,
    };
    let program = seq![StepView::File((pf, seq!["PHP"@, major_minor_text(major, minor), "php.exe"@]))];
    laragon + defaults + scoop + choco + herd + program
}

fn no_parts() -> (r: Vec<String>)
    ensures
        string_views(r@) == Seq::<Seq<char>>::empty(),
{
    let v: Vec<String> = Vec::new();
    assert(string_views(v@) =~= Seq::<Seq<char>>::empty());
    v
}

fn push_part(v: &mut Vec<String>, s: String)
    ensures
        string_views(final(v)@) == string_views(old(v)@).push(s@),
{
    let ghost before = v@;
    v.push(s);
    assert(v@ == before.push(s));
    assert(string_views(v@) =~= string_views(before).push(s@));
}

fn push_step(plan: &mut Vec<SearchStep>, step: SearchStep)
    ensures
        plan_view(final(plan)@) == plan_view(old(plan)@).push(step_view(step)),
{
    let ghost before = plan@;
    plan.push(step);
    assert(plan@ == before.push(step));
    assert(plan_view(plan@) =~= plan_view(before).push(step_view(step)));
}

fn append_steps(plan: &mut Vec<SearchStep>, more: Vec<SearchStep>)
    ensures
        plan_view(final(plan)@) == plan_view(old(plan)@) + plan_view(more@),
{
    let ghost before = plan@;
    let ghost added = more@;
    let mut more = more;
    plan.append(&mut more);
    assert(plan@ == before + added);
    assert(plan_view(plan@) =~= plan_view(before) + plan_view(added));
}

fn empty_plan() -> (r: Vec<SearchStep>)
    ensures
        plan_view(r@) == Seq::<StepView>::empty(),
{
    let v: Vec<SearchStep> = Vec::new();
    assert(plan_view(v@) =~= Seq::<StepView>::empty());
    v
}

/// Prefixes of the install directories of a version, on Windows: `php-X.Y.`
/// (Laragon and zip installs) and `X.Y.`.
pub fn windows_dir_prefixes(major: u32, minor: u32) -> (r: Vec<String>)
    ensures
        string_views(r@) == seq![
            php_label_spec("php-"@, major, "."@, minor, "."@),
            php_label_spec(""@, major, "."@, minor, "."@),
        ],
{
    let mut v = no_parts();
    push_part(&mut v, php_label("php-", major, ".", minor, "."));
    push_part(&mut v, php_label("", major, ".", minor, "."));
    assert(string_views(v@) =~= seq![
        php_label_spec("php-"@, major, "."@, minor, "."@),
        php_label_spec(""@, major, "."@, minor, "."@),
    ]);
    v
}

fn laragon_step(base: &str, major: u32, minor: u32) -> (r: SearchStep)
    ensures
        step_view(r) == StepView::ScanDir(
            (base@, Seq::<Seq<char>>::empty()),
            seq![php_label_spec("php-"@, major, "."@, minor, "."@), php_label_spec(""@, major, "."@, minor, "."@)],
        ),
{
    SearchStep::ScanDir { dir: path_of(base.to_string(), no_parts()), prefixes: windows_dir_prefixes(major, minor) }
}

fn windows_laragon_steps(major: u32, minor: u32, laragon_root: Option<String>) -> (r: Vec<SearchStep>)
    ensures
        ({
            let prefixes = seq![
                php_label_spec("php-"@, major, "."@, minor, "."@),
                php_label_spec(""@, major, "."@, minor, "."@),
            ];
            plan_view(r@) == (match opt_view(laragon_root) {
                Some(root) => seq![StepView::ScanDir((root, seq!["bin"@, "php"@]), prefixes)],
                None => Seq::<StepView>::empty(),
            }) + seq![
                StepView::ScanDir(("C:\\laragon\\bin\\php"@, Seq::empty()), prefixes),
                StepView::ScanDir(("D:\\laragon\\bin\\php"@, Seq::empty()), prefixes),
                StepView::ScanDir(("E:\\laragon\\bin\\php"@, Seq::empty()), prefixes),
                StepView::ScanDir(("F:\\laragon\\bin\\php"@, Seq::empty()), prefixes),
            ]
        }),
{
    let mut plan = empty_plan();
    if let Some(r) = laragon_root {
        let mut parts = no_parts();
        push_part(&mut parts, "bin".to_string());
        push_part(&mut parts, "php".to_string());
        assert(string_views(parts@) =~= seq!["bin"@, "php"@]);
        push_step(&mut plan, SearchStep::ScanDir { dir: path_of(r, parts), prefixes: windows_dir_prefixes(major, minor) });
    }
    let ghost first = plan_view(plan@);
    push_step(&mut plan, laragon_step("C:\\laragon\\bin\\php", major, minor));
    push_step(&mut plan, laragon_step("D:\\laragon\\bin\\php", major, minor));
    push_step(&mut plan, laragon_step("E:\\laragon\\bin\\php", major, minor));
    push_step(&mut plan, laragon_step("F:\\laragon\\bin\\php", major, minor));
    let ghost prefixes = seq![
        php_label_spec("php-"@, major, "."@, minor, "."@),
        php_label_spec(""@, major, "."@, minor, "."@),
    ];
    assert(plan_view(plan@) =~= first + seq![
        StepView::ScanDir(("C:\\laragon\\bin\\php"@, Seq::empty()), prefixes),
        StepView::ScanDir(("D:\\laragon\\bin\\php"@, Seq::empty()), prefixes),
        StepView::ScanDir(("E:\\laragon\\bin\\php"@, Seq::empty()), prefixes),
        StepView::ScanDir(("F:\\laragon\\bin\\php"@, Seq::empty()), prefixes),
    ]);
    plan
}

fn scoop_file_step(home: &String, app: String) -> (r: SearchStep)
    ensures
        step_view(r) == StepView::CheckedFile((home@, seq!["scoop"@, "apps"@, app@, "current"@, "php.exe"@])),
{
    let mut parts = no_parts();
    push_part(&mut parts, "scoop".to_string());
    push_part(&mut parts, "apps".to_string());
    push_part(&mut parts, app);
    push_part(&mut parts, "current".to_string());
    push_part(&mut parts, "php.exe".to_string());
    assert(string_views(parts@) =~= seq!["scoop"@, "apps"@, app@, "current"@, "php.exe"@]);
    SearchStep::CheckedFile(path_of(home.clone(), parts))
}

fn windows_scoop_steps(major: u32, minor: u32, user_profile: Option<String>) -> (r: Vec<SearchStep>)
    ensures
        plan_view(r@) == match opt_view(user_profile) {
            Some(h) => seq![
                StepView::CheckedFile(
                    (h, seq!["scoop"@, "apps"@, php_label_spec("php"@, major, ""@, minor, ""@), "current"@, "php.exe"@]),
                ),
                StepView::CheckedFile(
                    (h, seq!["scoop"@, "apps"@, php_label_spec("php"@, major, "."@, minor, ""@), "current"@, "php.exe"@]),
                ),
                StepView::CheckedFile((h, seq!["scoop"@, "apps"@, "php"@, "current"@, "php.exe"@])),
                StepView::ScanDir(
                    (h, seq!["scoop"@, "apps"@, "php"@]),
                    seq![php_label_spec(""@, major, "."@, minor, "."@)],
                ),
            ],
            None => Seq::empty(),
        },
{
    let mut plan = empty_plan();
    if let Some(h) = user_profile {
        push_step(&mut plan, scoop_file_step(&h, php_label("php", major, "", minor, "")));
        push_step(&mut plan, scoop_file_step(&h, php_label("php", major, ".", minor, "")));
        push_step(&mut plan, scoop_file_step(&h, "php".to_string()));
        let mut parts = no_parts();
        push_part(&mut parts, "scoop".to_string());
        push_part(&mut parts, "apps".to_string());
        push_part(&mut parts, "php".to_string());
        let mut pre = no_parts();
        push_part(&mut pre, patch_dir_prefix(major, minor));
        assert(string_views(parts@) =~= seq!["scoop"@, "apps"@, "php"@]);
        assert(string_views(pre@) =~= seq![php_label_spec(""@, major, "."@, minor, "."@)]);
        let ghost hv = h@;
        push_step(&mut plan, SearchStep::ScanDir { dir: path_of(h, parts), prefixes: pre });
        assert(plan_view(plan@) =~= seq![
            StepView::CheckedFile(
                (hv, seq!["scoop"@, "apps"@, php_label_spec("php"@, major, ""@, minor, ""@), "current"@, "php.exe"@]),
            ),
            StepView::CheckedFile(
                (hv, seq!["scoop"@, "apps"@, php_label_spec("php"@, major, "."@, minor, ""@), "current"@, "php.exe"@]),
            ),
            StepView::CheckedFile((hv, seq!["scoop"@, "apps"@, "php"@, "current"@, "php.exe"@])),
            StepView::ScanDir(
                (hv, seq!["scoop"@, "apps"@, "php"@]),
                seq![php_label_spec(""@, major, "."@, minor, "."@)],
            ),
        ]);
    }
    plan
}

fn bare_file_step(path: String) -> (r: SearchStep)
    ensures
        step_view(r) == StepView::CheckedFile((path@, Seq::<Seq<char>>::empty())),
{
    SearchStep::CheckedFile(path_of(path, no_parts()))
}

fn windows_tail_steps(
    major: u32,
    minor: u32,
    local_app_data: Option<String>,
    program_files: Option<String>,
) -> (r: Vec<SearchStep>)
    ensures
        plan_view(r@) == seq![
            StepView::CheckedFile((php_label_spec("C:\\tools\\php"@, major, ""@, minor, "\\php.exe"@), Seq::empty())),
            StepView::CheckedFile((php_label_spec("C:\\tools\\php"@, major, "."@, minor, "\\php.exe"@), Seq::empty())),
            StepView::CheckedFile(
                (
                    php_label_spec("C:\\ProgramData\\chocolatey\\lib\\php"@, major, ""@, minor, "\\tools\\php.exe"@),
                    Seq::empty(),
                ),
            ),
        ] + (match opt_view(local_app_data) {
            Some(l) => seq![
                StepView::File((l, seq!["Herd"@, "bin"@, php_label_spec("php"@, major, "."@, minor, ""@), "php.exe"@])),
            ],
            None => Seq::<StepView>::empty(),
        }) + seq![
            StepView::File(
                (
                    match opt_view(program_files) {
                        Some(p) => p,
                        None => "C:\\Program Files"@,
                    },
                    seq!["PHP"@, major_minor_text(major, minor), "php.exe"@],
                ),
            ),
        ],
{
    let mut plan = empty_plan();
    push_step(&mut plan, bare_file_step(php_label("C:\\tools\\php", major, "", minor, "\\php.exe")));
    push_step(&mut plan, bare_file_step(php_label("C:\\tools\\php", major, ".", minor, "\\php.exe")));
    push_step(
        &mut plan,
        bare_file_step(php_label("C:\\ProgramData\\chocolatey\\lib\\php", major, "", minor, "\\tools\\php.exe")),
    );
    let ghost choco = plan_view(plan@);
    assert(choco =~= seq![
        StepView::CheckedFile((php_label_spec("C:\\tools\\php"@, major, ""@, minor, "\\php.exe"@), Seq::empty())),
        StepView::CheckedFile((php_label_spec("C:\\tools\\php"@, major, "."@, minor, "\\php.exe"@), Seq::empty())),
        StepView::CheckedFile(
            (
                php_label_spec("C:\\ProgramData\\chocolatey\\lib\\php"@, major, ""@, minor, "\\tools\\php.exe"@),
                Seq::empty(),
            ),
        ),
    ]);
    let mut herd = empty_plan();
    if let Some(l) = local_app_data {
        let mut parts = no_parts();
        push_part(&mut parts, "Herd".to_string());
        push_part(&mut parts, "bin".to_string());
        push_part(&mut parts, herd_name(major, minor));
        push_part(&mut parts, "php.exe".to_string());
        assert(string_views(parts@) =~= seq!["Herd"@, "bin"@, php_label_spec("php"@, major, "."@, minor, ""@), "php.exe"@]);
        push_step(&mut herd, SearchStep::File(path_of(l, parts)));
    }
    append_steps(&mut plan, herd);
    let pf = match program_files {
        Some(p) => p,
        None => "C:\\Program Files".to_string(),
    };
    let mut parts = no_parts();
    push_part(&mut parts, "PHP".to_string());
    push_part(&mut parts, version_label(major, minor));
    push_part(&mut parts, "php.exe".to_string());
    assert(string_views(parts@) =~= seq!["PHP"@, major_minor_text(major, minor), "php.exe"@]);
    let mut last = empty_plan();
    push_step(&mut last, SearchStep::File(path_of(pf, parts)));
    append_steps(&mut plan, last);
    plan
}

/// The places to look for a version on Windows, in order (see `windows_plan_spec`).
pub fn windows_search_plan(
    major: u32,
    minor: u32,
    laragon_root: Option<String>,
    user_profile: Option<String>,
    local_app_data: Option<String>,
    program_files: Option<String>,
) -> (r: Vec<SearchStep>)
    ensures
        plan_view(r@) == windows_plan_spec(
            major,
            minor,
            opt_view(laragon_root),
            opt_view(user_profile),
            opt_view(local_app_data),
            opt_view(program_files),
        ),
{
    let mut plan = windows_laragon_steps(major, minor, laragon_root);
    append_steps(&mut plan, windows_scoop_steps(major, minor, user_profile));
    append_steps(&mut plan, windows_tail_steps(major, minor, local_app_data, program_files));
    plan
}

/// Where the Unix installers put a version, in the order they are searched:
/// Homebrew's `php@X.Y`; then, under `$HOME`, the asdf and phpenv install
/// trees scanned for `X.Y.*`, and Laravel Herd's `phpX.Y` on macOS.
pub open spec fn unix_plan_spec(major: u32, minor: u32, home: Option<Seq<char>>) -> Seq<StepView> {
    let prefix = seq![php_label_spec(""@, major, "."@, minor, "."@)];
    seq![StepView::Homebrew(php_label_spec("php@"@, major, "."@, minor, ""@))] + match home {
        Some(h) => seq![
            StepView::ScanDir((h, seq![".asdf"@, "installs"@, "php"@]), prefix),
            StepView::ScanDir((h, seq![".phpenv"@, "versions"@]), prefix),
            StepView::File(
                (h, seq!["Library"@, "Application Support"@, "Herd"@, "bin"@, php_label_spec("php"@, major, "."@, minor, ""@)]),
            ),
        ],
        None => Seq::empty(),
    }
}

/// The places to look for a version on Unix, in order (see `unix_plan_spec`).
pub fn unix_search_plan(major: u32, minor: u32, home: Option<String>) -> (r: Vec<SearchStep>)
    ensures
        plan_view(r@) == unix_plan_spec(major, minor, opt_view(home)),
{
    let mut plan = empty_plan();
    push_step(&mut plan, SearchStep::Homebrew(brew_formula(major, minor)));
    let ghost first = plan_view(plan@);
    let ghost prefix = seq![php_label_spec(""@, major, "."@, minor, "."@)];
    if let Some(h) = home {
        let ghost hv = h@;
        let mut asdf = no_parts();
        push_part(&mut asdf, ".asdf".to_string());
        push_part(&mut asdf, "installs".to_string());
        push_part(&mut asdf, "php".to_string());
        assert(string_views(asdf@) =~= seq![".asdf"@, "installs"@, "php"@]);
        let mut pre1 = no_parts();
        push_part(&mut pre1, patch_dir_prefix(major, minor));
        assert(string_views(pre1@) =~= prefix);
        push_step(&mut plan, SearchStep::ScanDir { dir: path_of(h.clone(), asdf), prefixes: pre1 });
        let mut phpenv = no_parts();
        push_part(&mut phpenv, ".phpenv".to_string());
        push_part(&mut phpenv, "versions".to_string());
        assert(string_views(phpenv@) =~= seq![".phpenv"@, "versions"@]);
        let mut pre2 = no_parts();
        push_part(&mut pre2, patch_dir_prefix(major, minor));
        assert(string_views(pre2@) =~= prefix);
        push_step(&mut plan, SearchStep::ScanDir { dir: path_of(h.clone(), phpenv), prefixes: pre2 });
        let mut herd = no_parts();
        push_part(&mut herd, "Library".to_string());
        push_part(&mut herd, "Application Support".to_string());
        push_part(&mut herd, "Herd".to_string());
        push_part(&mut herd, "bin".to_string());
        push_part(&mut herd, herd_name(major, minor));
        assert(string_views(herd@) =~= seq![
            "Library"@,
            "Application Support"@,
            "Herd"@,
            "bin"@,
            php_label_spec("php"@, major, "."@, minor, ""@),
        ]);
        push_step(&mut plan, SearchStep::File(path_of(h, herd)));
        assert(plan_view(plan@) =~= first + seq![
            StepView::ScanDir((hv, seq![".asdf"@, "installs"@, "php"@]), prefix),
            StepView::ScanDir((hv, seq![".phpenv"@, "versions"@]), prefix),
            StepView::File(
                (hv, seq!["Library"@, "Application Support"@, "Herd"@, "bin"@, php_label_spec("php"@, major, "."@, minor, ""@)]),
            ),
        ]);
    } else {
        assert(plan_view(plan@) =~= first + Seq::<StepView>::empty());
    }
    plan
}


// ---------------------------------------------------------------------------
// Where a listing looks for versions

pub open spec fn paths_view(v: Seq<PathSpec>) -> Seq<(Seq<char>, Seq<Seq<char>>)> {
    v.map_values(|p: PathSpec| path_view(p))
}

/// The directories whose entries' names tell which versions are installed on
/// Windows: the Laragon roots, Scoop's apps and the versions of its `php`
/// app, Chocolatey's `C:\tools` and `lib`, Herd's `bin`, and `PHP` under
/// `%ProgramFiles%` (default `C:\Program Files`).
pub open spec fn windows_listing_dirs_spec(
    laragon_root: Option<Seq<char>>,
    user_profile: Option<Seq<char>>,
    local_app_data: Option<Seq<char>>,
    program_files: Option<Seq<char>>,
) -> Seq<(Seq<char>, Seq<Seq<char>>)> {
    let laragon = match laragon_root {
        Some(r) => seq![(r, seq!["bin"@, "php"@])],
        None => Seq::empty(),
    };
    let scoop = match user_profile {
        Some(h) => seq![(h, seq!["scoop"@, "apps"@]), (h, seq!["scoop"@, "apps"@, "php"@])],
        None => Seq::empty(),
    };
    let herd = match local_app_data {
        Some(l) => seq![(l, seq!["Herd"@, "bin"@])],
        None => Seq::empty(),
    };
    let pf = match program_files {
        Some(p) => p,
        None => "C:\\Program Files"@,
    };
    laragon + seq![
        ("C:\\laragon\\bin\\php"@, Seq::<Seq<char>>::empty()),
        ("D:\\laragon\\bin\\php"@, Seq::<Seq<char>>::empty()),
        ("E:\\laragon\\bin\\php"@, Seq::<Seq<char>>::empty()),
        ("F:\\laragon\\bin\\php"@, Seq::<Seq<char>>::empty()),
    ] + scoop + seq![
        ("C:\\tools"@, Seq::<Seq<char>>::empty()),
        ("C:\\ProgramData\\chocolatey\\lib"@, Seq::<Seq<char>>::empty()),
    ] + herd + seq![(pf, seq!["PHP"@])]
}

/// The directories whose entries' names tell which versions are installed
/// elsewhere: Homebrew's `opt` under the prefix that `brew --prefix` printed
/// (trimmed, when not empty), then under `$HOME` the asdf and phpenv trees
/// and Herd's `bin`.
pub open spec fn unix_listing_dirs_spec(home: Option<Seq<char>>, brew_printed: Option<Seq<char>>) -> Seq<
    (Seq<char>, Seq<Seq<char>>),
> {
    let brew = match brew_printed {
        Some(o) => if trim_spec(o).len() > 0 {
            seq![(trim_spec(o), seq!["opt"@])]
        } else {
            Seq::empty()
        },
        None => Seq::empty(),
    };
    brew + match home {
        Some(h) => seq![
            (h, seq![".asdf"@, "installs"@, "php"@]),
            (h, seq![".phpenv"@, "versions"@]),
            (h, seq!["Library"@, "Application Support"@, "Herd"@, "bin"@]),
        ],
        None => Seq::empty(),
    }
}

fn push_path(v: &mut Vec<PathSpec>, p: PathSpec)
    ensures
        paths_view(final(v)@) == paths_view(old(v)@).push(path_view(p)),
{
    let ghost before = v@;
    v.push(p);
    assert(paths_view(v@) =~= paths_view(before).push(path_view(p)));
}

fn parts_of(a: &str, b: Option<&str>, c: Option<&str>, d: Option<&str>) -> (r: Vec<String>)
    ensures
        string_views(r@) == seq![a@] + (match b {
            Some(x) => seq![x@],
            None => Seq::empty(),
        }) + (match c {
            Some(x) => seq![x@],
            None => Seq::empty(),
        }) + (match d {
            Some(x) => seq![x@],
            None => Seq::empty(),
        }),
{
    let mut v = no_parts();
    push_part(&mut v, a.to_string());
    let ghost s1 = string_views(v@);
    if let Some(x) = b {
        push_part(&mut v, x.to_string());
    }
    let ghost s2 = string_views(v@);
    if let Some(x) = c {
        push_part(&mut v, x.to_string());
    }
    let ghost s3 = string_views(v@);
    if let Some(x) = d {
        push_part(&mut v, x.to_string());
    }
    assert(string_views(v@) =~= seq![a@] + (match b {
        Some(x) => seq![x@],
        None => Seq::<Seq<char>>::empty(),
    }) + (match c {
        Some(x) => seq![x@],
        None => Seq::<Seq<char>>::empty(),
    }) + (match d {
        Some(x) => seq![x@],
        None => Seq::<Seq<char>>::empty(),
    }));
    v
}

/// The directories to look in for installed versions on Windows (see `windows_listing_dirs_spec`).
pub fn windows_listing_dirs(
    laragon_root: Option<String>,
    user_profile: Option<String>,
    local_app_data: Option<String>,
    program_files: Option<String>,
) -> (r: Vec<PathSpec>)
    ensures
        paths_view(r@) == windows_listing_dirs_spec(
            opt_view(laragon_root),
            opt_view(user_profile),
            opt_view(local_app_data),
            opt_view(program_files),
        ),
{
    let mut v: Vec<PathSpec> = Vec::new();
    assert(paths_view(v@) =~= Seq::<(Seq<char>, Seq<Seq<char>>)>::empty());
    if let Some(r) = laragon_root {
        push_path(&mut v, path_of(r, parts_of("bin", Some("php"), None, None)));
    }
    let ghost a = paths_view(v@);
    assert(a =~~= match opt_view(laragon_root) {
        Some(r) => seq![(r, seq!["bin"@, "php"@])],
        None => Seq::empty(),
    });
    push_path(&mut v, path_of("C:\\laragon\\bin\\php".to_string(), no_parts()));
    push_path(&mut v, path_of("D:\\laragon\\bin\\php".to_string(), no_parts()));
    push_path(&mut v, path_of("E:\\laragon\\bin\\php".to_string(), no_parts()));
    push_path(&mut v, path_of("F:\\laragon\\bin\\php".to_string(), no_parts()));
    let ghost b = paths_view(v@);
    assert(b =~= a + seq![
        ("C:\\laragon\\bin\\php"@, Seq::<Seq<char>>::empty()),
        ("D:\\laragon\\bin\\php"@, Seq::<Seq<char>>::empty()),
        ("E:\\laragon\\bin\\php"@, Seq::<Seq<char>>::empty()),
        ("F:\\laragon\\bin\\php"@, Seq::<Seq<char>>::empty()),
    ]);
    if let Some(h) = user_profile {
        push_path(&mut v, path_of(h.clone(), parts_of("scoop", Some("apps"), None, None)));
        push_path(&mut v, path_of(h, parts_of("scoop", Some("apps"), Some("php"), None)));
    }
    let ghost c = paths_view(v@);
    assert(c =~~= b + match opt_view(user_profile) {
        Some(h) => seq![(h, seq!["scoop"@, "apps"@]), (h, seq!["scoop"@, "apps"@, "php"@])],
        None => Seq::empty(),
    });
    push_path(&mut v, path_of("C:\\tools".to_string(), no_parts()));
    push_path(&mut v, path_of("C:\\ProgramData\\chocolatey\\lib".to_string(), no_parts()));
    let ghost d = paths_view(v@);
    assert(d =~= c + seq![
        ("C:\\tools"@, Seq::<Seq<char>>::empty()),
        ("C:\\ProgramData\\chocolatey\\lib"@, Seq::<Seq<char>>::empty()),
    ]);
    if let Some(l) = local_app_data {
        push_path(&mut v, path_of(l, parts_of("Herd", Some("bin"), None, None)));
    }
    let ghost e = paths_view(v@);
    assert(e =~~= d + match opt_view(local_app_data) {
        Some(l) => seq![(l, seq!["Herd"@, "bin"@])],
        None => Seq::empty(),
    });
    let pf = match program_files {
        Some(p) => p,
        None => "C:\\Program Files".to_string(),
    };
    let ghost pfv = pf@;
    push_path(&mut v, path_of(pf, parts_of("PHP", None, None, None)));
    assert(paths_view(v@) =~~= e + seq![(pfv, seq!["PHP"@])]);
    v
}

/// The directories to look in for installed versions elsewhere than on
/// Windows (see `unix_listing_dirs_spec`); `brew_printed` is what
/// `brew --prefix` printed, when it succeeded.
pub fn unix_listing_dirs(home: Option<String>, brew_printed: Option<String>) -> (r: Vec<PathSpec>)
    ensures
        paths_view(r@) == unix_listing_dirs_spec(opt_view(home), opt_view(brew_printed)),
{
    let mut v: Vec<PathSpec> = Vec::new();
    assert(paths_view(v@) =~= Seq::<(Seq<char>, Seq<Seq<char>>)>::empty());
    if let Some(o) = brew_printed {
        let prefix = trim(o.as_str());
        if chars_of(prefix.as_str()).len() > 0 {
            push_path(&mut v, path_of(prefix, parts_of("opt", None, None, None)));
        }
    }
    let ghost a = paths_view(v@);
    assert(a =~= match opt_view(brew_printed) {
        Some(o) => if trim_spec(o).len() > 0 {
            seq![(trim_spec(o), seq!["opt"@])]
        } else {
            Seq::empty()
        },
        None => Seq::empty(),
    });
    if let Some(h) = home {
        push_path(&mut v, path_of(h.clone(), parts_of(".asdf", Some("installs"), Some("php"), None)));
        push_path(&mut v, path_of(h.clone(), parts_of(".phpenv", Some("versions"), None, None)));
        push_path(&mut v, path_of(h, parts_of("Library", Some("Application Support"), Some("Herd"), Some("bin"))));
    }
    assert(paths_view(v@) =~~= a + match opt_view(home) {
        Some(h) => seq![
            (h, seq![".asdf"@, "installs"@, "php"@]),
            (h, seq![".phpenv"@, "versions"@]),
            (h, seq!["Library"@, "Application Support"@, "Herd"@, "bin"@]),
        ],
        None => Seq::empty(),
    });
    v
}

// ---------------------------------------------------------------------------
// Running a plan

/// The view of an optional path.
pub open spec fn opt_path_view(p: Option<PathSpec>) -> Option<(Seq<char>, Seq<Seq<char>>)> {
    match p {
        Some(q) => Some(path_view(q)),
        None => None,
    }
}

/// Where the binary sits inside an install directory: `php.exe` on Windows,
/// `bin/php` elsewhere.
pub open spec fn binary_parts(windows: bool) -> Seq<Seq<char>> {
    if windows {
        seq!["php.exe"@]
    } else {
        seq!["bin"@, "php"@]
    }
}

/// What a scan of `dir` yields from its listing `entries`: the binary inside
/// the best entry, or nothing when no entry is a candidate.
pub open spec fn scan_hit(
    dir: (Seq<char>, Seq<Seq<char>>),
    entries: Seq<DirEntryInfo>,
    prefixes: Seq<Seq<char>>,
    windows: bool,
    r: Option<(Seq<char>, Seq<Seq<char>>)>,
) -> bool {
    match r {
        None => forall|j: int| 0 <= j < entries.len() ==> !is_candidate(#[trigger] entries[j], prefixes),
        Some(p) => exists|k: int|
            is_best_entry(entries, prefixes, k) && p == (dir.0, dir.1.push(entries[k].name@) + binary_parts(windows)),
    }
}

/// At most one entry of a listing is the best one, so a scan has one result.
pub proof fn lemma_best_entry_unique(entries: Seq<DirEntryInfo>, prefixes: Seq<Seq<char>>, k1: int, k2: int)
    requires
        is_best_entry(entries, prefixes, k1),
        is_best_entry(entries, prefixes, k2),
    ensures
        k1 == k2,
{
    if k1 < k2 {
        assert(key_less(numeric_key_spec(entries[k1].name@), numeric_key_spec(entries[k2].name@)));
    } else if k2 < k1 {
        assert(key_less(numeric_key_spec(entries[k2].name@), numeric_key_spec(entries[k1].name@)));
    }
}

/// Whether the output of `php -r` lets a binary stand (see `version_output_matches`).
pub open spec fn version_output_ok(output: Option<Seq<char>>, major: u32, minor: u32) -> bool {
    match output {
        None => true,
        Some(o) => trim_spec(o) == major_minor_text(major, minor),
    }
}

/// `dir` with the components `more` joined on.
fn extend_path(dir: &PathSpec, more: Vec<String>) -> (r: PathSpec)
    ensures
        path_view(r) == (dir.base@, string_views(dir.parts@) + string_views(more@)),
{
    let mut parts: Vec<String> = Vec::new();
    let mut i: usize = 0;
    while i < dir.parts.len()
        invariant
            i <= dir.parts@.len(),
            string_views(parts@) == string_views(dir.parts@).take(i as int),
        decreases dir.parts.len() - i,
    {
        let ghost before = parts@;
        parts.push(dir.parts[i].clone());
        assert(string_views(parts@) =~= string_views(before).push(dir.parts@[i as int]@));
        assert(string_views(dir.parts@).take(i + 1) =~= string_views(dir.parts@).take(i as int).push(
            dir.parts@[i as int]@,
        ));
        i = i + 1;
    }
    assert(string_views(dir.parts@).take(dir.parts@.len() as int) =~= string_views(dir.parts@));
    let ghost first = parts@;
    let ghost added = more@;
    let mut more = more;
    parts.append(&mut more);
    assert(parts@ == first + added);
    assert(string_views(parts@) =~= string_views(first) + string_views(added));
    PathSpec { base: dir.base.clone(), parts }
}

/// The components of the binary inside an install directory.
fn binary_parts_of(windows: bool) -> (r: Vec<String>)
    ensures
        string_views(r@) == binary_parts(windows),
{
    let mut v = no_parts();
    if windows {
        push_part(&mut v, "php.exe".to_string());
        assert(string_views(v@) =~= seq!["php.exe"@]);
    } else {
        push_part(&mut v, "bin".to_string());
        push_part(&mut v, "php".to_string());
        assert(string_views(v@) =~= seq!["bin"@, "php"@]);
    }
    v
}

/// The result of scanning `dir` for `prefixes`, given its listing (`None`
/// when it could not be read): the binary inside the highest-versioned entry
/// that has one (see `best_versioned_entry`).
pub fn scan_result(dir: &PathSpec, prefixes: &Vec<String>, listing: Option<Vec<DirEntryInfo>>, windows: bool) -> (r: Option<
    PathSpec,
>)
    ensures
        match listing {
            None => r is None,
            Some(es) => scan_hit(path_view(*dir), es@, string_views(prefixes@), windows, opt_path_view(r)),
        },
{
    match listing {
        None => None,
        Some(es) => match best_versioned_entry(&es, prefixes) {
            None => None,
            Some(k) => {
                let mut more = no_parts();
                push_part(&mut more, es[k].name.clone());
                let bin = binary_parts_of(windows);
                append_parts(&mut more, bin);
                let r = extend_path(dir, more);
                assert(string_views(dir.parts@) + (seq![es@[k as int].name@] + binary_parts(windows)) =~= string_views(
                    dir.parts@,
                ).push(es@[k as int].name@) + binary_parts(windows));
                Some(r)
            },
        },
    }
}

fn append_parts(v: &mut Vec<String>, more: Vec<String>)
    ensures
        string_views(final(v)@) == string_views(old(v)@) + string_views(more@),
{
    let ghost before = v@;
    let ghost added = more@;
    let mut more = more;
    v.append(&mut more);
    assert(v@ == before + added);
    assert(string_views(v@) =~= string_views(before) + string_views(added));
}

/// A copy of a path.
fn same_path_of(p: &PathSpec) -> (r: PathSpec)
    ensures
        path_view(r) == path_view(*p),
{
    let r = extend_path(p, no_parts());
    assert(string_views(p.parts@) + Seq::<Seq<char>>::empty() =~= string_views(p.parts@));
    r
}

/// `bin/php` under the prefix that `brew --prefix` printed: `None` when the
/// printed text is whitespace only.
pub fn brew_binary(printed: &str) -> (r: Option<PathSpec>)
    ensures
        match r {
            None => trim_spec(printed@).len() == 0,
            Some(p) => trim_spec(printed@).len() > 0 && path_view(p) == (trim_spec(printed@), seq!["bin"@, "php"@]),
        },
{
    let prefix = trim(printed);
    if chars_of(prefix.as_str()).len() == 0 {
        return None;
    }
    let mut parts = no_parts();
    push_part(&mut parts, "bin".to_string());
    push_part(&mut parts, "php".to_string());
    assert(string_views(parts@) =~= seq!["bin"@, "php"@]);
    Some(path_of(prefix, parts))
}

/// What one step of a plan finds. `list_dir` gives a directory's entries
/// (`None` when it cannot be read), `is_file` whether a path is a file,
/// `php_output` what `php -r` printed when it ran successfully, and
/// `brew_prefix` what `brew --prefix <formula>` printed when it succeeded.
/// - a scan gives the binary of the best entry of the listing (`scan_hit`);
/// - a checked file gives the path when it is a file and the output of
///   `php -r` does not contradict the version (`php -r` runs only on a file);
/// - a file gives the path when it is a file;
/// - Homebrew gives `bin/php` under the trimmed prefix when that is not empty
///   and the binary is a file.
pub open spec fn step_found<L, F, V, B>(
    step: SearchStep,
    windows: bool,
    major: u32,
    minor: u32,
    list_dir: L,
    is_file: F,
    php_output: V,
    brew_prefix: B,
    res: Option<(Seq<char>, Seq<Seq<char>>)>,
) -> bool where
    L: Fn(&PathSpec) -> Option<Vec<DirEntryInfo>>,
    F: Fn(&PathSpec) -> bool,
    V: Fn(&PathSpec) -> Option<String>,
    B: Fn(&str) -> Option<String>,
 {
    match step {
        SearchStep::ScanDir { dir, prefixes } => exists|listing: Option<Vec<DirEntryInfo>>|
            #![trigger list_dir.ensures((&dir,), listing)]
            list_dir.ensures((&dir,), listing) && match listing {
                None => res is None,
                Some(es) => scan_hit(path_view(dir), es@, string_views(prefixes@), windows, res),
            },
        SearchStep::CheckedFile(p) => exists|f: bool|
            #![trigger is_file.ensures((&p,), f)]
            is_file.ensures((&p,), f) && if f {
                exists|out: Option<String>|
                    #![trigger php_output.ensures((&p,), out)]
                    php_output.ensures((&p,), out) && res == (if version_output_ok(opt_view(out), major, minor) {
                        Some(path_view(p))
                    } else {
                        None
                    })
            } else {
                res is None
            },
        SearchStep::File(p) => exists|f: bool|
            #![trigger is_file.ensures((&p,), f)]
            is_file.ensures((&p,), f) && res == (if f {
                Some(path_view(p))
            } else {
                None
            }),
        SearchStep::Homebrew(formula) => exists|arg: &str, out: Option<String>|
            #![trigger brew_prefix.ensures((arg,), out)]
            arg@ == formula@ && brew_prefix.ensures((arg,), out) && match out {
                None => res is None,
                Some(o) => if trim_spec(o@).len() == 0 {
                    res is None
                } else {
                    exists|bin: PathSpec, f: bool|
                        #![trigger is_file.ensures((&bin,), f)]
                        path_view(bin) == (trim_spec(o@), seq!["bin"@, "php"@]) && is_file.ensures((&bin,), f)
                            && res == (if f {
                            Some(path_view(bin))
                        } else {
                            None
                        })
                },
            },
    }
}

/// Runs one step of a plan (see `step_found`).
fn run_step<L, F, V, B>(
    step: &SearchStep,
    windows: bool,
    major: u32,
    minor: u32,
    list_dir: &L,
    is_file: &F,
    php_output: &V,
    brew_prefix: &B,
) -> (r: Option<PathSpec>) where
    L: Fn(&PathSpec) -> Option<Vec<DirEntryInfo>>,
    F: Fn(&PathSpec) -> bool,
    V: Fn(&PathSpec) -> Option<String>,
    B: Fn(&str) -> Option<String>,

    requires
        forall|p: &PathSpec| #[trigger] list_dir.requires((p,)),
        forall|p: &PathSpec| #[trigger] is_file.requires((p,)),
        forall|p: &PathSpec| #[trigger] php_output.requires((p,)),
        forall|f: &str| #[trigger] brew_prefix.requires((f,)),
    ensures
        step_found(*step, windows, major, minor, *list_dir, *is_file, *php_output, *brew_prefix, opt_path_view(r)),
{
    match step {
        SearchStep::ScanDir { dir, prefixes } => {
            let listing = list_dir(dir);
            scan_result(dir, prefixes, listing, windows)
        },
        SearchStep::CheckedFile(p) => {
            if !is_file(p) {
                return None;
            }
            let out = php_output(p);
            let ok = match &out {
                None => version_output_matches(None, major, minor),
                Some(o) => version_output_matches(Some(o.as_str()), major, minor),
            };
            assert(ok == version_output_ok(opt_view(out), major, minor));
            if ok {
                Some(same_path_of(p))
            } else {
                None
            }
        },
        SearchStep::File(p) => {
            if is_file(p) {
                Some(same_path_of(p))
            } else {
                None
            }
        },
        SearchStep::Homebrew(formula) => {
            let arg: &str = formula.as_str();
            let out = brew_prefix(arg);
            match out {
                None => None,
                Some(o) => match brew_binary(o.as_str()) {
                    None => None,
                    Some(bin) => {
                        if is_file(&bin) {
                            Some(bin)
                        } else {
                            None
                        }
                    },
                },
            }
        },
    }
}

/// The search of a plan from step `i` on: the steps in order, and the first
/// that finds a binary gives the result (`None` when none does).
pub open spec fn plan_search<L, F, V, B>(
    plan: Seq<SearchStep>,
    windows: bool,
    major: u32,
    minor: u32,
    list_dir: L,
    is_file: F,
    php_output: V,
    brew_prefix: B,
    i: int,
    r: Option<(Seq<char>, Seq<Seq<char>>)>,
) -> bool where
    L: Fn(&PathSpec) -> Option<Vec<DirEntryInfo>>,
    F: Fn(&PathSpec) -> bool,
    V: Fn(&PathSpec) -> Option<String>,
    B: Fn(&str) -> Option<String>,
    decreases plan.len() - i,
{
    if i < 0 || i >= plan.len() {
        r is None
    } else {
        exists|res: Option<(Seq<char>, Seq<Seq<char>>)>|
            #![trigger step_found(plan[i], windows, major, minor, list_dir, is_file, php_output, brew_prefix, res)]
            step_found(plan[i], windows, major, minor, list_dir, is_file, php_output, brew_prefix, res) && if res is Some {
                r == res
            } else {
                plan_search(plan, windows, major, minor, list_dir, is_file, php_output, brew_prefix, i + 1, r)
            }
    }
}

/// Runs a search plan (from `windows_search_plan` or `unix_search_plan`):
/// the steps in order, stopping at the first that finds a binary for
/// `major.minor`, whose path is the result. What each kind of step finds is
/// `step_found`; `windows` says where the binary sits in an install directory.
pub fn run_search_plan<L, F, V, B>(
    plan: &Vec<SearchStep>,
    windows: bool,
    major: u32,
    minor: u32,
    list_dir: L,
    is_file: F,
    php_output: V,
    brew_prefix: B,
) -> (r: Option<PathSpec>) where
    L: Fn(&PathSpec) -> Option<Vec<DirEntryInfo>>,
    F: Fn(&PathSpec) -> bool,
    V: Fn(&PathSpec) -> Option<String>,
    B: Fn(&str) -> Option<String>,

    requires
        forall|p: &PathSpec| #[trigger] list_dir.requires((p,)),
        forall|p: &PathSpec| #[trigger] is_file.requires((p,)),
        forall|p: &PathSpec| #[trigger] php_output.requires((p,)),
        forall|f: &str| #[trigger] brew_prefix.requires((f,)),
    ensures
        plan_search(plan@, windows, major, minor, list_dir, is_file, php_output, brew_prefix, 0, opt_path_view(r)),
{
    let mut i: usize = 0;
    while i < plan.len()
        invariant
            i <= plan@.len(),
            forall|p: &PathSpec| #[trigger] list_dir.requires((p,)),
            forall|p: &PathSpec| #[trigger] is_file.requires((p,)),
            forall|p: &PathSpec| #[trigger] php_output.requires((p,)),
            forall|f: &str| #[trigger] brew_prefix.requires((f,)),
            forall|x: Option<(Seq<char>, Seq<Seq<char>>)>|
                #[trigger] plan_search(plan@, windows, major, minor, list_dir, is_file, php_output, brew_prefix, i as int, x)
                    ==> plan_search(plan@, windows, major, minor, list_dir, is_file, php_output, brew_prefix, 0, x),
        decreases plan.len() - i,
    {
        let found = run_step(&plan[i], windows, major, minor, &list_dir, &is_file, &php_output, &brew_prefix);
        let ghost res = opt_path_view(found);
        if found.is_some() {
            assert(plan_search(plan@, windows, major, minor, list_dir, is_file, php_output, brew_prefix, i as int, res));
            return found;
        }
        assert forall|x: Option<(Seq<char>, Seq<Seq<char>>)>|
            #[trigger] plan_search(plan@, windows, major, minor, list_dir, is_file, php_output, brew_prefix, i + 1, x)
                implies plan_search(plan@, windows, major, minor, list_dir, is_file, php_output, brew_prefix, 0, x) by {
            assert(step_found(plan@[i as int], windows, major, minor, list_dir, is_file, php_output, brew_prefix, res));
            assert(plan_search(plan@, windows, major, minor, list_dir, is_file, php_output, brew_prefix, i as int, x));
        }
        i = i + 1;
    }
    assert(plan_search(plan@, windows, major, minor, list_dir, is_file, php_output, brew_prefix, i as int, None));
    None
}

} // verus!
