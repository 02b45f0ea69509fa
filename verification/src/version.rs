//! Version strings: the `major.minor` that a project pins, the numbers that
//! order directory names and release tags, and the comparison of releases.
use vstd::prelude::*;

use crate::decimal::{
    decimal, is_digit, lemma_decimal, lemma_parse_decimal, parse_u32, parse_u32_spec, push_decimal,
};
use crate::text::{
    chars_of, lemma_split_fields_concat, lemma_split_fields_nonempty, lemma_split_fields_single,
    split_chars, split_fields, string_from_chars,
};

verus! {

/// `(major, minor)` of a version string such as "8.4" or "8.4.15": its first
/// two dot-separated fields, each read as a `u32`.
pub open spec fn split_version_spec(v: Seq<char>) -> Option<(u32, u32)> {
    let f = split_fields(v, '.');
    if f.len() >= 2 && parse_u32_spec(f[0]) is Some && parse_u32_spec(f[1]) is Some {
        Some((parse_u32_spec(f[0]).unwrap(), parse_u32_spec(f[1]).unwrap()))
    } else {
        None
    }
}

/// `major.minor`, each number written in decimal.
pub open spec fn major_minor_text(major: u32, minor: u32) -> Seq<char> {
    decimal(major as nat) + seq!['.'] + decimal(minor as nat)
}

/// Returns `(major, minor)` from a version string like "8.4" or "8.4.15".
pub fn split_version(v: &str) -> (r: Option<(u32, u32)>)
    ensures
        r == split_version_spec(v@),
{
    let cs = chars_of(v);
    let fields = split_chars(cs.as_slice(), '.');
    proof {
        lemma_split_fields_nonempty(v@, '.');
    }
    assert(fields@[0]@ == split_fields(v@, '.')[0]);
    let major = match parse_u32(fields[0].as_slice()) {
        Some(x) => x,
        None => return None,
    };
    if fields.len() < 2 {
        return None;
    }
    assert(fields@[1]@ == split_fields(v@, '.')[1]);
    let minor = match parse_u32(fields[1].as_slice()) {
        Some(x) => x,
        None => return None,
    };
    Some((major, minor))
}

/// `major.minor` as characters.
pub fn major_minor_chars(major: u32, minor: u32) -> (r: Vec<char>)
    ensures
        r@ == major_minor_text(major, minor),
{
    let mut out: Vec<char> = Vec::new();
    push_decimal(major, &mut out);
    out.push('.');
    push_decimal(minor, &mut out);
    out
}

/// Reduces a pinned PHP version such as "8.4.15" to "8.4"; `None` unless
/// its first two dot-separated fields are numbers.
pub fn reduce_to_major_minor(s: &str) -> (r: Option<String>)
    ensures
        r is Some <==> split_version_spec(s@) is Some,
        r matches Some(t) ==> t@ == major_minor_text(
            split_version_spec(s@).unwrap().0,
            split_version_spec(s@).unwrap().1,
        ),
{
    match split_version(s) {
        Some((major, minor)) => {
            let cs = major_minor_chars(major, minor);
            Some(string_from_chars(cs.as_slice()))
        },
        None => None,
    }
}

/// Reading `major.minor` written out gives the same pair back.
pub proof fn lemma_split_major_minor(major: u32, minor: u32)
    ensures
        split_version_spec(major_minor_text(major, minor)) == Some((major, minor)),
{
    let a = decimal(major as nat);
    let b = decimal(minor as nat);
    lemma_decimal(major as nat);
    lemma_decimal(minor as nat);
    assert(!a.contains('.')) by {
        if a.contains('.') {
            let k = choose|k: int| 0 <= k < a.len() && a[k] == '.';
            assert(is_digit(a[k]));
        }
    }
    assert(!b.contains('.')) by {
        if b.contains('.') {
            let k = choose|k: int| 0 <= k < b.len() && b[k] == '.';
            assert(is_digit(b[k]));
        }
    }
    lemma_split_fields_concat(a, b, '.');
    lemma_split_fields_single(a, '.');
    lemma_split_fields_single(b, '.');
    lemma_parse_decimal(major);
    lemma_parse_decimal(minor);
    let f = split_fields(major_minor_text(major, minor), '.');
    assert(f == seq![a, b]);
}

/// Reducing a reduced version changes nothing, and the reduced version names
/// the same `(major, minor)`.
pub proof fn lemma_reduce_idempotent(s: Seq<char>)
    requires
        split_version_spec(s) is Some,
    ensures
        ({
            let (major, minor) = split_version_spec(s).unwrap();
            split_version_spec(major_minor_text(major, minor)) == split_version_spec(s)
        }),
{
    let (major, minor) = split_version_spec(s).unwrap();
    lemma_split_major_minor(major, minor);
}

// ---------------------------------------------------------------------------
// Numeric keys

/// The fields of `s` between characters that are not ASCII digits.
pub open spec fn digit_fields(s: Seq<char>) -> Seq<Seq<char>>
    decreases s.len(),
{
    if s.len() == 0 {
        seq![Seq::<char>::empty()]
    } else {
        let f = digit_fields(s.drop_last());
        if !is_digit(s.last()) {
            f.push(Seq::<char>::empty())
        } else {
            f.update(f.len() - 1, f.last().push(s.last()))
        }
    }
}

/// The fields that read as `u32`, read, in order.
pub open spec fn parsed_numbers(fields: Seq<Seq<char>>) -> Seq<u32>
    decreases fields.len(),
{
    if fields.len() == 0 {
        Seq::empty()
    } else {
        let rest = parsed_numbers(fields.drop_last());
        match parse_u32_spec(fields.last()) {
            Some(n) => rest.push(n),
            None => rest,
        }
    }
}

/// The numbers written in `s`: each maximal run of ASCII digits that fits in
/// a `u32`, in order (a run too large for a `u32` is left out).
pub open spec fn numeric_key_spec(s: Seq<char>) -> Seq<u32> {
    parsed_numbers(digit_fields(s))
}

/// Extracts the numeric components of a string for version-aware ordering:
/// `"php-8.4.14-nts-Win32-vs17-x64"` gives `[8, 4, 14, 32, 17, 64]`.
pub fn numeric_key(s: &str) -> (r: Vec<u32>)
    ensures
        r@ == numeric_key_spec(s@),
{
    let cs = chars_of(s);
    let mut done: Vec<u32> = Vec::new();
    let mut cur: Vec<char> = Vec::new();
    let mut i: usize = 0;
    assert(cs@.take(0) == Seq::<char>::empty());
    while i < cs.len()
        invariant
            i <= cs.len(),
            digit_fields(cs@.take(i as int)).len() >= 1,
            done@ == parsed_numbers(digit_fields(cs@.take(i as int)).drop_last()),
            cur@ == digit_fields(cs@.take(i as int)).last(),
        decreases cs.len() - i,
    {
        let c = cs[i];
        let ghost f = digit_fields(cs@.take(i as int));
        assert(cs@.take(i + 1).drop_last() == cs@.take(i as int));
        assert(cs@.take(i + 1).last() == c);
        if !('0' <= c && c <= '9') {
            assert(f.push(Seq::<char>::empty()).drop_last() == f);
            assert(f.drop_last().push(f.last()) == f);
            match parse_u32(cur.as_slice()) {
                Some(n) => done.push(n),
                None => {},
            }
            cur = Vec::new();
        } else {
            let ghost g = f.update(f.len() - 1, f.last().push(c));
            assert(g.drop_last() == f.drop_last());
            cur.push(c);
        }
        i = i + 1;
    }
    assert(cs@.take(cs.len() as int) == cs@);
    let ghost f = digit_fields(cs@);
    assert(f.drop_last().push(f.last()) == f);
    match parse_u32(cur.as_slice()) {
        Some(n) => done.push(n),
        None => {},
    }
    done
}

/// Lexicographic order of number lists, the order of `Vec<u32>`: the first
/// differing number decides, and a proper prefix comes first.
pub open spec fn key_less(a: Seq<u32>, b: Seq<u32>) -> bool
    decreases a.len(),
{
    if b.len() == 0 {
        false
    } else if a.len() == 0 {
        true
    } else if a[0] != b[0] {
        a[0] < b[0]
    } else {
        key_less(a.drop_first(), b.drop_first())
    }
}

/// `a < b` for number lists.
pub fn key_lt(a: &[u32], b: &[u32]) -> (r: bool)
    ensures
        r == key_less(a@, b@),
{
    let mut i: usize = 0;
    assert(a@.skip(0) == a@ && b@.skip(0) == b@);
    while i < a.len() && i < b.len()
        invariant
            i <= a.len(),
            i <= b.len(),
            key_less(a@, b@) == key_less(a@.skip(i as int), b@.skip(i as int)),
        decreases a.len() - i,
    {
        let ghost x = a@.skip(i as int);
        let ghost y = b@.skip(i as int);
        assert(x[0] == a@[i as int] && y[0] == b@[i as int]);
        if a[i] != b[i] {
            return a[i] < b[i];
        }
        assert(x.drop_first() == a@.skip(i + 1));
        assert(y.drop_first() == b@.skip(i + 1));
        i = i + 1;
    }
    i < b.len()
}

/// The key order is a strict total order.
pub proof fn lemma_key_less_irreflexive(a: Seq<u32>)
    ensures
        !key_less(a, a),
    decreases a.len(),
{
    if a.len() > 0 {
        lemma_key_less_irreflexive(a.drop_first());
    }
}

pub proof fn lemma_key_less_transitive(a: Seq<u32>, b: Seq<u32>, c: Seq<u32>)
    requires
        key_less(a, b),
        key_less(b, c),
    ensures
        key_less(a, c),
    decreases a.len(),
{
    if a.len() > 0 && b.len() > 0 && c.len() > 0 && a[0] == b[0] && b[0] == c[0] {
        lemma_key_less_transitive(a.drop_first(), b.drop_first(), c.drop_first());
    }
}

pub proof fn lemma_key_less_total(a: Seq<u32>, b: Seq<u32>)
    ensures
        key_less(a, b) || key_less(b, a) || a == b,
    decreases a.len(),
{
    if a.len() > 0 && b.len() > 0 && a[0] == b[0] {
        lemma_key_less_total(a.drop_first(), b.drop_first());
        if a.drop_first() == b.drop_first() {
            assert(a == seq![a[0]] + a.drop_first());
            assert(b == seq![b[0]] + b.drop_first());
        }
    } else if a.len() == 0 && b.len() == 0 {
        assert(a == b);
    }
}

// ---------------------------------------------------------------------------
// Release comparison

/// The `i`-th number of a version, `0` past its end.
pub open spec fn component(v: Seq<u32>, i: int) -> int {
    if 0 <= i < v.len() {
        v[i] as int
    } else {
        0
    }
}

/// `r` is newer than `l`: at the first position where they differ (missing
/// numbers count as `0`), `r`'s number is larger.
pub open spec fn newer_components(r: Seq<u32>, l: Seq<u32>) -> bool {
    exists|i: int|
        #![trigger component(r, i), component(l, i)]
        0 <= i && (forall|j: int| 0 <= j < i ==> component(r, j) == component(l, j)) && component(r, i)
            > component(l, i)
}

/// Release `remote` is newer than `local`, comparing their numbers in order
/// and padding the shorter with zeros.
pub open spec fn is_newer_spec(remote: Seq<char>, local: Seq<char>) -> bool {
    newer_components(numeric_key_spec(remote), numeric_key_spec(local))
}

/// Naive semver comparison: compares components as numbers, padding missing parts with 0.
pub fn is_newer(remote: &str, local: &str) -> (r: bool)
    ensures
        r == is_newer_spec(remote@, local@),
{
    let rv = numeric_key(remote);
    let lv = numeric_key(local);
    let n = if rv.len() > lv.len() { rv.len() } else { lv.len() };
    let mut i: usize = 0;
    while i < n
        invariant
            i <= n,
            rv@ == numeric_key_spec(remote@),
            lv@ == numeric_key_spec(local@),
            n == rv@.len() || n == lv@.len(),
            rv@.len() <= n,
            lv@.len() <= n,
            forall|j: int| 0 <= j < i ==> component(rv@, j) == component(lv@, j),
        decreases n - i,
    {
        let a: u32 = if i < rv.len() { rv[i] } else { 0 };
        let b: u32 = if i < lv.len() { lv[i] } else { 0 };
        assert(a == component(rv@, i as int));
        assert(b == component(lv@, i as int));
        if a != b {
            proof {
                if a > b {
                    assert(newer_components(rv@, lv@));
                }
                if a < b {
                    assert forall|k: int|
                        0 <= k && (forall|j: int| 0 <= j < k ==> component(rv@, j) == component(lv@, j))
                        implies !(component(rv@, k) > component(lv@, k)) by {
                        if k > i {
                            assert(component(rv@, i as int) == component(lv@, i as int));
                        }
                    }
                    assert(!newer_components(rv@, lv@));
                }
            }
            return a > b;
        }
        i = i + 1;
    }
    proof {
        assert forall|k: int|
            0 <= k && (forall|j: int| 0 <= j < k ==> component(rv@, j) == component(lv@, j))
            implies !(component(rv@, k) > component(lv@, k)) by {
            if k < n {
            }
        }
    }
    false
}

/// No release is newer than itself.
pub proof fn lemma_not_newer_than_itself(v: Seq<char>)
    ensures
        !is_newer_spec(v, v),
{
}

/// Of two releases, at most one is newer than the other.
pub proof fn lemma_newer_asymmetric(a: Seq<char>, b: Seq<char>)
    requires
        is_newer_spec(a, b),
    ensures
        !is_newer_spec(b, a),
{
    let x = numeric_key_spec(a);
    let y = numeric_key_spec(b);
    let i = choose|i: int|
        #![trigger component(x, i), component(y, i)]
        0 <= i && (forall|j: int| 0 <= j < i ==> component(x, j) == component(y, j)) && component(x, i)
            > component(y, i);
    assert forall|k: int|
        0 <= k && (forall|j: int| 0 <= j < k ==> component(y, j) == component(x, j))
        implies !(component(y, k) > component(x, k)) by {
        if k > i {
            assert(component(y, i) == component(x, i));
        }
    }
}

/// Newer-than is transitive.
pub proof fn lemma_newer_transitive(a: Seq<char>, b: Seq<char>, c: Seq<char>)
    requires
        is_newer_spec(a, b),
        is_newer_spec(b, c),
    ensures
        is_newer_spec(a, c),
{
    let x = numeric_key_spec(a);
    let y = numeric_key_spec(b);
    let z = numeric_key_spec(c);
    let i = choose|i: int|
        #![trigger component(x, i), component(y, i)]
        0 <= i && (forall|j: int| 0 <= j < i ==> component(x, j) == component(y, j)) && component(x, i)
            > component(y, i);
    let k = choose|k: int|
        #![trigger component(y, k), component(z, k)]
        0 <= k && (forall|j: int| 0 <= j < k ==> component(y, j) == component(z, j)) && component(y, k)
            > component(z, k);
    let m = if i < k { i } else { k };
    assert(forall|j: int| 0 <= j < m ==> component(x, j) == component(y, j));
    assert(forall|j: int| 0 <= j < m ==> component(y, j) == component(z, j));
    assert(component(x, m) > component(z, m));
}

/// Number lists are ordered as `Vec<u32>` orders them, whatever their
/// lengths: at the first position where both have a number and the numbers
/// differ, the list with the smaller number comes first (so `[8, 4, 9, 32]`
/// comes before `[8, 4, 14]`).
pub proof fn lemma_key_less_first_difference(a: Seq<u32>, b: Seq<u32>, i: int)
    requires
        0 <= i < a.len(),
        i < b.len(),
        forall|j: int| 0 <= j < i ==> a[j] == b[j],
        a[i] < b[i],
    ensures
        key_less(a, b),
        !key_less(b, a),
    decreases i,
{
    if i > 0 {
        assert forall|j: int| 0 <= j < i - 1 implies a.drop_first()[j] == b.drop_first()[j] by {
            assert(a[j + 1] == b[j + 1]);
        }
        lemma_key_less_first_difference(a.drop_first(), b.drop_first(), i - 1);
        assert(a[0] == b[0]);
    }
}

/// A list that is a proper prefix of another comes before it.
pub proof fn lemma_key_less_prefix(a: Seq<u32>, b: Seq<u32>)
    requires
        a.len() < b.len(),
        forall|j: int| 0 <= j < a.len() ==> a[j] == b[j],
    ensures
        key_less(a, b),
        !key_less(b, a),
    decreases a.len(),
{
    if a.len() > 0 {
        assert forall|j: int| 0 <= j < a.len() - 1 implies a.drop_first()[j] == b.drop_first()[j] by {
            assert(a[j + 1] == b[j + 1]);
        }
        lemma_key_less_prefix(a.drop_first(), b.drop_first());
        assert(a[0] == b[0]);
    }
}

/// Releases are compared number by number, by the numbers' full values, a
/// missing number counting as `0`: at the first position where the padded
/// numbers differ, `r` is newer than `l` exactly when its number is larger.
pub proof fn lemma_newer_at_first_difference(r: Seq<u32>, l: Seq<u32>, i: int)
    requires
        0 <= i,
        forall|j: int|
            0 <= j < i ==> (if j < r.len() {
                r[j] as int
            } else {
                0int
            }) == (if j < l.len() {
                l[j] as int
            } else {
                0int
            }),
        (if i < r.len() {
            r[i] as int
        } else {
            0int
        }) != (if i < l.len() {
            l[i] as int
        } else {
            0int
        }),
    ensures
        newer_components(r, l) <==> (if i < r.len() {
            r[i] as int
        } else {
            0int
        }) > (if i < l.len() {
            l[i] as int
        } else {
            0int
        }),
{
    assert(forall|j: int| 0 <= j < i ==> component(r, j) == component(l, j));
    if component(r, i) > component(l, i) {
        assert(newer_components(r, l));
    } else {
        assert forall|k: int|
            0 <= k && (forall|j: int| 0 <= j < k ==> component(r, j) == component(l, j))
            implies !(component(r, k) > component(l, k)) by {
            if k > i {
                assert(component(r, i) == component(l, i));
            }
        }
    }
}

/// Releases whose numbers agree at every position, a missing number counting
/// as `0` (`1.2` and `1.2.0`), are not newer than each other.
pub proof fn lemma_not_newer_when_equal(r: Seq<u32>, l: Seq<u32>)
    requires
        forall|j: int|
            0 <= j ==> (if j < r.len() {
                r[j] as int
            } else {
                0int
            }) == (if j < l.len() {
                l[j] as int
            } else {
                0int
            }),
    ensures
        !newer_components(r, l),
        !newer_components(l, r),
{
    assert(forall|j: int| 0 <= j ==> component(r, j) == component(l, j));
}

proof fn lemma_digit_fields_append_digits(s: Seq<char>, t: Seq<char>)
    requires
        forall|k: int| 0 <= k < t.len() ==> is_digit(#[trigger] t[k]),
    ensures
        digit_fields(s + t) == digit_fields(s).update(
            digit_fields(s).len() - 1,
            digit_fields(s).last() + t,
        ),
        digit_fields(s).len() >= 1,
    decreases t.len(),
{
    lemma_digit_fields_len(s);
    if t.len() == 0 {
        assert(s + t =~= s);
        assert(digit_fields(s).last() + t =~= digit_fields(s).last());
        assert(digit_fields(s).update(digit_fields(s).len() - 1, digit_fields(s).last()) =~= digit_fields(s));
    } else {
        let t1 = t.drop_last();
        lemma_digit_fields_append_digits(s, t1);
        assert((s + t).drop_last() =~= s + t1);
        assert((s + t).last() == t.last());
        let f = digit_fields(s + t1);
        lemma_digit_fields_len(s + t1);
        let d = digit_fields(s);
        assert(f.len() == d.len());
        assert(f.last() == d.last() + t1);
        assert(digit_fields(s + t) == f.update(f.len() - 1, f.last().push(t.last())));
        assert((d.last() + t1).push(t.last()) =~= d.last() + t);
        assert(digit_fields(s).last() + t1 + seq![t.last()] =~= digit_fields(s).last() + t);
        assert(digit_fields(s + t) =~= digit_fields(s).update(
            digit_fields(s).len() - 1,
            digit_fields(s).last() + t,
        ));
    }
}

proof fn lemma_digit_fields_len(s: Seq<char>)
    ensures
        digit_fields(s).len() >= 1,
    decreases s.len(),
{
    if s.len() > 0 {
        lemma_digit_fields_len(s.drop_last());
    }
}

/// The numbers written in `X.Y` are `X` and `Y`.
pub proof fn lemma_numeric_key_major_minor(major: u32, minor: u32)
    ensures
        numeric_key_spec(major_minor_text(major, minor)) == seq![major, minor],
{
    let a = decimal(major as nat);
    let b = decimal(minor as nat);
    lemma_decimal(major as nat);
    lemma_decimal(minor as nat);
    let e = Seq::<char>::empty();
    lemma_digit_fields_append_digits(e, a);
    assert(e + a =~= a);
    assert(digit_fields(a) =~= seq![a]);
    let ad = a.push('.');
    assert(ad.drop_last() =~= a);
    assert(!is_digit(ad.last()));
    assert(digit_fields(ad) =~= seq![a, e]);
    lemma_digit_fields_append_digits(ad, b);
    assert(major_minor_text(major, minor) =~= ad + b);
    assert(digit_fields(ad + b) =~= seq![a, b]);
    let f = seq![a, b];
    assert(f.drop_last() =~= seq![a]);
    assert(seq![a].drop_last() =~= Seq::<Seq<char>>::empty());
    lemma_parse_decimal(major);
    lemma_parse_decimal(minor);
    assert(parsed_numbers(Seq::<Seq<char>>::empty()) == Seq::<u32>::empty());
    assert(seq![a].last() == a);
    assert(parsed_numbers(seq![a]) =~= seq![major]);
    assert(f.last() == b);
    assert(parsed_numbers(f) =~= seq![major, minor]);
}

/// Of two releases `X.Y` of the same major version, the one with the larger
/// minor number is newer, comparing the numbers' full values (`0.10` is newer
/// than `0.9`), and the other is not.
pub proof fn lemma_larger_minor_is_newer(major: u32, m1: u32, m2: u32)
    requires
        m1 > m2,
    ensures
        is_newer_spec(major_minor_text(major, m1), major_minor_text(major, m2)),
        !is_newer_spec(major_minor_text(major, m2), major_minor_text(major, m1)),
{
    lemma_numeric_key_major_minor(major, m1);
    lemma_numeric_key_major_minor(major, m2);
    let r = seq![major, m1];
    let l = seq![major, m2];
    lemma_newer_at_first_difference(r, l, 1);
    lemma_newer_at_first_difference(l, r, 1);
}

} // verus!
