//! The user `PATH` edit made when shims are installed: put the shim directory
//! first, drop any other entry that names it, and leave the rest in order.
use vstd::prelude::*;

use crate::text::{
    ascii_lower, ascii_lower_seq, ascii_lowercase, chars_of, chars_eq, join_fields, lemma_split_fields_nonempty,
    lemma_split_fields_no_sep, lemma_split_join, split_chars, split_fields,
    lemma_trim_ascii_lower, lemma_trim_surrounding, string_from_chars, strip_trailing,
    strip_trailing_chars, trim_spec, unicode_white_space, views,
};

verus! {

/// What two path entries are compared by: trimmed, without trailing
/// backslashes, ASCII letters in lower case.
pub open spec fn path_key(s: Seq<char>) -> Seq<char> {
    ascii_lower_seq(strip_trailing(trim_spec(s), '\\'))
}

/// Two `PATH` entries name the same directory.
pub open spec fn same_path(a: Seq<char>, b: Seq<char>) -> bool {
    path_key(a) == path_key(b)
}

fn path_key_chars(s: &str) -> (r: Vec<char>)
    ensures
        r@ == path_key(s@),
{
    let t = crate::text::trim(s);
    let tc = chars_of(t.as_str());
    let stripped = strip_trailing_chars(tc.as_slice(), '\\');
    ascii_lowercase(stripped.as_slice())
}

/// Whether two `PATH` entries name the same directory: compared after
/// trimming whitespace and trailing backslashes, ignoring ASCII case.
pub fn eq_path(a: &str, b: &str) -> (r: bool)
    ensures
        r == same_path(a@, b@),
{
    let x = path_key_chars(a);
    let y = path_key_chars(b);
    chars_eq(x.as_slice(), y.as_slice())
}

proof fn lemma_strip_trailing_ascii_lower(s: Seq<char>)
    ensures
        strip_trailing(ascii_lower_seq(s), '\\') == ascii_lower_seq(strip_trailing(s, '\\')),
    decreases s.len(),
{
    if s.len() > 0 {
        let l = ascii_lower_seq(s);
        assert(l.last() == ascii_lower(s.last()));
        assert(l.drop_last() =~= ascii_lower_seq(s.drop_last()));
        lemma_strip_trailing_ascii_lower(s.drop_last());
    } else {
        assert(ascii_lower_seq(s) =~= s);
    }
}

proof fn lemma_ascii_lower_twice(s: Seq<char>)
    ensures
        ascii_lower_seq(ascii_lower_seq(s)) == ascii_lower_seq(s),
{
    assert(ascii_lower_seq(ascii_lower_seq(s)) =~= ascii_lower_seq(s));
}

/// Path entries are compared without regard to the whitespace around them or
/// the case of ASCII letters: an entry names the same directory as itself
/// with whitespace put around it, and as itself in lower case.
pub proof fn lemma_same_path_ignores_whitespace_and_case(s: Seq<char>, w1: Seq<char>, w2: Seq<char>)
    requires
        forall|i: int| 0 <= i < w1.len() ==> unicode_white_space(#[trigger] w1[i]),
        forall|i: int| 0 <= i < w2.len() ==> unicode_white_space(#[trigger] w2[i]),
    ensures
        same_path(w1 + s + w2, s),
        same_path(ascii_lower_seq(s), s),
{
    lemma_trim_surrounding(w1, s, w2);
    lemma_trim_ascii_lower(s);
    lemma_strip_trailing_ascii_lower(trim_spec(s));
    lemma_ascii_lower_twice(strip_trailing(trim_spec(s), '\\'));
}

/// The entries kept behind the new first entry: those that are not empty
/// and do not name `dir`, in their order.
pub open spec fn kept_entries(fields: Seq<Seq<char>>, dir: Seq<char>) -> Seq<Seq<char>>
    decreases fields.len(),
{
    if fields.len() == 0 {
        Seq::empty()
    } else {
        let rest = kept_entries(fields.drop_last(), dir);
        let f = fields.last();
        if f.len() > 0 && !same_path(f, dir) {
            rest.push(f)
        } else {
            rest
        }
    }
}

/// The new user `PATH` with `dir` first, or `None` when `dir` already is its
/// first entry and nothing is to be written.
pub open spec fn prepended_path(current: Seq<char>, dir: Seq<char>) -> Option<Seq<char>> {
    let fields = split_fields(current, ';');
    if same_path(fields[0], dir) {
        None
    } else {
        Some(join_fields(seq![dir] + kept_entries(fields, dir), ';'))
    }
}

/// Computes the user `PATH` that puts `dir` first: `None` if `dir` already is
/// the first entry; else `dir`, then the other non-empty entries that do not
/// name `dir`, in their order, joined with `;`.
pub fn prepend_path_entry(current: &str, dir: &str) -> (r: Option<String>)
    ensures
        r is Some <==> prepended_path(current@, dir@) is Some,
        r matches Some(p) ==> p@ == prepended_path(current@, dir@).unwrap(),
{
    let cs = chars_of(current);
    let fields = split_chars(cs.as_slice(), ';');
    proof {
        lemma_split_fields_nonempty(current@, ';');
    }
    let first = string_from_chars(fields[0].as_slice());
    if eq_path(first.as_str(), dir) {
        return None;
    }
    let ghost all = split_fields(current@, ';');
    let dcs = chars_of(dir);
    let mut out: Vec<char> = dcs.clone();
    let ghost mut kept: Seq<Seq<char>> = Seq::empty();
    let mut i: usize = 0;
    assert(all.take(0) == Seq::<Seq<char>>::empty());
    assert(join_fields(seq![dir@], ';') == dir@);
    while i < fields.len()
        invariant
            i <= fields.len(),
            views(fields@) == all,
            all == split_fields(current@, ';'),
            kept == kept_entries(all.take(i as int), dir@),
            out@ == join_fields(seq![dir@] + kept, ';'),
        decreases fields.len() - i,
    {
        let seg = string_from_chars(fields[i].as_slice());
        assert(all[i as int] == fields@[i as int]@);
        assert(all.take(i + 1).drop_last() == all.take(i as int));
        assert(all.take(i + 1).last() == all[i as int]);
        if fields[i].len() > 0 && !eq_path(seg.as_str(), dir) {
            out.push(';');
            let mut j: usize = 0;
            let ghost base = out@;
            while j < fields[i].len()
                invariant
                    j <= fields@[i as int]@.len(),
                    i < fields@.len(),
                    out@ == base + fields@[i as int]@.take(j as int),
                decreases fields@[i as int]@.len() - j,
            {
                out.push(fields[i][j]);
                j = j + 1;
                assert(out@ == base + fields@[i as int]@.take(j as int));
            }
            assert(fields@[i as int]@.take(j as int) == fields@[i as int]@);
            proof {
                let nk = kept.push(all[i as int]);
                assert((seq![dir@] + nk).drop_last() == seq![dir@] + kept);
                assert((seq![dir@] + nk).last() == all[i as int]);
                kept = nk;
            }
        }
        i = i + 1;
    }
    assert(all.take(fields.len() as int) == all);
    Some(string_from_chars(out.as_slice()))
}

/// `eq_path` is an equivalence: reflexive, symmetric and transitive.
pub proof fn lemma_same_path_equivalence(a: Seq<char>, b: Seq<char>, c: Seq<char>)
    ensures
        same_path(a, a),
        same_path(a, b) ==> same_path(b, a),
        same_path(a, b) && same_path(b, c) ==> same_path(a, c),
{
}

/// The entries kept are those of the input that are non-empty and do not name `dir`.
proof fn lemma_kept_entries(fields: Seq<Seq<char>>, dir: Seq<char>)
    ensures
        forall|k: int|
            0 <= k < kept_entries(fields, dir).len() ==> {
                let e = #[trigger] kept_entries(fields, dir)[k];
                &&& e.len() > 0
                &&& !same_path(e, dir)
                &&& fields.contains(e)
            },
    decreases fields.len(),
{
    if fields.len() > 0 {
        lemma_kept_entries(fields.drop_last(), dir);
        let rest = kept_entries(fields.drop_last(), dir);
        let ks = kept_entries(fields, dir);
        assert forall|k: int| 0 <= k < ks.len() implies {
            let e = #[trigger] ks[k];
            &&& e.len() > 0
            &&& !same_path(e, dir)
            &&& fields.contains(e)
        } by {
            if k < rest.len() {
                assert(ks[k] == rest[k]);
                let e = rest[k];
                let j = choose|j: int| 0 <= j < fields.drop_last().len() && fields.drop_last()[j] == e;
                assert(fields[j] == e);
            } else {
                assert(fields[fields.len() - 1] == ks[k]);
            }
        }
    }
}

/// After the edit, `dir` is the first entry of the user `PATH`, every other
/// entry is non-empty and names another directory, and making the edit again
/// changes nothing. (Where `dir` itself holds a `;`, its own text splits into
/// several entries, so the edit is stated for directories without one.)
pub proof fn lemma_prepend_puts_dir_first(current: Seq<char>, dir: Seq<char>)
    requires
        !dir.contains(';'),
        prepended_path(current, dir) is Some,
    ensures
        ({
            let new_path = prepended_path(current, dir).unwrap();
            let entries = split_fields(new_path, ';');
            &&& entries[0] == dir
            &&& forall|k: int|
                1 <= k < entries.len() ==> (#[trigger] entries[k]).len() > 0 && !same_path(entries[k], dir)
            &&& prepended_path(new_path, dir) is None
        }),
{
    let fields = split_fields(current, ';');
    let kept = kept_entries(fields, dir);
    let all = seq![dir] + kept;
    lemma_kept_entries(fields, dir);
    lemma_split_fields_no_sep(current, ';');
    assert forall|k: int| 0 <= k < all.len() implies !(#[trigger] all[k]).contains(';') by {
        if k > 0 {
            assert(all[k] == kept[k - 1]);
            let e = kept[k - 1];
            let j = choose|j: int| 0 <= j < fields.len() && fields[j] == e;
        }
    }
    lemma_split_join(all, ';');
    let entries = split_fields(join_fields(all, ';'), ';');
    assert(entries == all);
    assert forall|k: int| 1 <= k < entries.len() implies (#[trigger] entries[k]).len() > 0 && !same_path(
        entries[k],
        dir,
    ) by {
        assert(entries[k] == kept[k - 1]);
    }
}

/// Whether an entry of the old `PATH` stays behind `dir`: it is not empty and
/// names another directory.
pub open spec fn stays_behind(dir: Seq<char>) -> spec_fn(Seq<char>) -> bool {
    |f: Seq<char>| f.len() > 0 && !same_path(f, dir)
}

proof fn lemma_kept_entries_filter(fields: Seq<Seq<char>>, dir: Seq<char>)
    ensures
        kept_entries(fields, dir) == fields.filter(stays_behind(dir)),
    decreases fields.len(),
{
    reveal(Seq::filter);
    if fields.len() > 0 {
        lemma_kept_entries_filter(fields.drop_last(), dir);
    }
}

/// Putting `dir` first keeps every other entry: the new `PATH` is `dir`
/// followed by every non-empty entry of the old one that does not name `dir`,
/// each in its old order, none dropped. Where `dir` holds no `;`, these are
/// exactly the entries of the new `PATH`.
pub proof fn lemma_prepend_keeps_other_entries(current: Seq<char>, dir: Seq<char>)
    requires
        prepended_path(current, dir) is Some,
    ensures
        prepended_path(current, dir).unwrap() == join_fields(
            seq![dir] + split_fields(current, ';').filter(stays_behind(dir)),
            ';',
        ),
        !dir.contains(';') ==> split_fields(prepended_path(current, dir).unwrap(), ';') == seq![dir]
            + split_fields(current, ';').filter(stays_behind(dir)),
{
    let fields = split_fields(current, ';');
    lemma_kept_entries_filter(fields, dir);
    if !dir.contains(';') {
        let kept = kept_entries(fields, dir);
        let all = seq![dir] + kept;
        lemma_kept_entries(fields, dir);
        lemma_split_fields_no_sep(current, ';');
        assert forall|k: int| 0 <= k < all.len() implies !(#[trigger] all[k]).contains(';') by {
            if k > 0 {
                assert(all[k] == kept[k - 1]);
                let e = kept[k - 1];
                let j = choose|j: int| 0 <= j < fields.len() && fields[j] == e;
            }
        }
        lemma_split_join(all, ';');
    }
}

} // verus!
