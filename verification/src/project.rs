//! The PHP version a project pins: `config.platform.php` in its
//! `composer.json`, reduced to `major.minor`.
use vstd::prelude::*;

use crate::json::{as_str, field, json_as_str, json_field, parse_json_text, serde_json_from_str, Json, JsonValue};
use crate::version::{major_minor_text, reduce_to_major_minor, split_version_spec};

verus! {

/// `major.minor` of a version string, when its first two fields are numbers.
pub open spec fn reduced_version(s: Seq<char>) -> Option<Seq<char>> {
    match split_version_spec(s) {
        Some((major, minor)) => Some(major_minor_text(major, minor)),
        None => None,
    }
}

/// The string at `config.platform.php` of a composer document.
pub open spec fn platform_php(doc: Json) -> Option<Seq<char>> {
    match json_field(doc, "config"@) {
        Some(config) => match json_field(config, "platform"@) {
            Some(platform) => match json_field(platform, "php"@) {
                Some(php) => json_as_str(php),
                None => None,
            },
            None => None,
        },
        None => None,
    }
}

/// The `major.minor` pinned by the composer document `raw`, if it parses and
/// pins a version whose first two fields are numbers.
pub open spec fn pinned_version_spec(raw: Seq<char>) -> Option<Seq<char>> {
    match serde_json_from_str(raw) {
        Some(doc) => match platform_php(doc) {
            Some(v) => reduced_version(v),
            None => None,
        },
        None => None,
    }
}

/// The `major.minor` that a parsed composer document pins: its
/// `config.platform.php` string, reduced to `major.minor`.
pub fn pinned_from_doc(doc: &JsonValue) -> (r: Option<String>)
    ensures
        match r {
            Some(v) => match platform_php(doc@) {
                Some(p) => reduced_version(p) == Some(v@),
                None => false,
            },
            None => match platform_php(doc@) {
                Some(p) => reduced_version(p) is None,
                None => true,
            },
        },
{
    let config = match field(doc, "config") {
        Some(c) => c,
        None => return None,
    };
    let platform = match field(config, "platform") {
        Some(p) => p,
        None => return None,
    };
    let php = match field(platform, "php") {
        Some(p) => p,
        None => return None,
    };
    let pinned = match as_str(php) {
        Some(s) => s,
        None => return None,
    };
    reduce_to_major_minor(pinned.as_str())
}

/// Reads `config.platform.php` from the text of a `composer.json` and reduces
/// it to `major.minor`.
pub fn pinned_version(raw: &str) -> (r: Option<String>)
    ensures
        match r {
            Some(v) => pinned_version_spec(raw@) == Some(v@),
            None => pinned_version_spec(raw@) is None,
        },
{
    match parse_json_text(raw) {
        Ok(doc) => pinned_from_doc(&doc),
        Err(_) => None,
    }
}

/// The search for the project root from directory `i` on (0 is the working
/// directory, each next one the parent of the one before): the first of the
/// `levels` directories for which `has_manifest` reports a `composer.json`.
pub open spec fn root_search<F: Fn(usize) -> bool>(has_manifest: F, levels: int, i: int, r: Option<usize>) -> bool
    decreases levels - i,
{
    if i < 0 || i >= levels {
        r is None
    } else {
        exists|b: bool|
            #![trigger has_manifest.ensures((i as usize,), b)]
            has_manifest.ensures((i as usize,), b) && if b {
                r == Some(i as usize)
            } else {
                root_search(has_manifest, levels, i + 1, r)
            }
    }
}

/// Finds the project root: walking up from the working directory (0) through
/// its `levels` directories in all, the nearest that holds a `composer.json`
/// (`has_manifest(i)` tells whether directory `i` does); `None` when none does.
pub fn find_project_root<F: Fn(usize) -> bool>(levels: usize, has_manifest: F) -> (r: Option<usize>)
    requires
        forall|i: usize| #[trigger] has_manifest.requires((i,)),
    ensures
        root_search(has_manifest, levels as int, 0, r),
{
    let mut i: usize = 0;
    while i < levels
        invariant
            i <= levels,
            forall|i: usize| #[trigger] has_manifest.requires((i,)),
            forall|x: Option<usize>|
                #[trigger] root_search(has_manifest, levels as int, i as int, x) ==> root_search(
                    has_manifest,
                    levels as int,
                    0,
                    x,
                ),
        decreases levels - i,
    {
        let b = has_manifest(i);
        assert(((i as int) as usize) == i);
        assert(has_manifest.ensures(((i as int) as usize,), b));
        if b {
            assert(root_search(has_manifest, levels as int, i as int, Some(i)));
            return Some(i);
        }
        assert forall|x: Option<usize>|
            #[trigger] root_search(has_manifest, levels as int, i + 1, x) implies root_search(
            has_manifest,
            levels as int,
            0,
            x,
        ) by {
            assert(has_manifest.ensures(((i as int) as usize,), b));
            assert(root_search(has_manifest, levels as int, i as int, x));
        }
        i = i + 1;
    }
    assert(root_search(has_manifest, levels as int, i as int, None));
    None
}

} // verus!
