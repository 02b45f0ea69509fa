//! Character-level helpers shared by the parsers: views of strings as
//! character sequences, whitespace trimming, ASCII case folding and
//! separator splitting, each with its specification.
use vstd::prelude::*;

verus! {

/// The characters of `s`, in order.
pub fn chars_of(s: &str) -> (r: Vec<char>)
    ensures
        r@ == s@,
{
    let mut out: Vec<char> = Vec::new();
    for c in it: s.chars()
        invariant
            out@ == it.seq().take(it.index()),
    {
        out.push(c);
    }
    out
}

/// Builds a `String` from its characters.
///
/// Trusted: calls `Iterator::collect::<String>` on the characters; the
/// contract claims that the string holds exactly these characters, in order.
#[verifier::external_body]
pub fn string_from_chars(cs: &[char]) -> (r: String)
    ensures
        r@ == cs@,
{
    cs.iter().collect::<String>()
}

/// Whether `c` has the Unicode `White_Space` property (the characters that
/// `char::is_whitespace` accepts): U+0009 to U+000D, U+0020, U+0085, U+00A0,
/// U+1680, U+2000 to U+200A, U+2028, U+2029, U+202F, U+205F and U+3000.
pub open spec fn unicode_white_space(c: char) -> bool {
    ('\u{9}' <= c && c <= '\u{d}') || c == ' ' || c == '\u{85}' || c == '\u{a0}' || c == '\u{1680}'
        || ('\u{2000}' <= c && c <= '\u{200a}') || c == '\u{2028}' || c == '\u{2029}' || c
        == '\u{202f}' || c == '\u{205f}' || c == '\u{3000}'
}

/// `char::is_whitespace`: whether `c` has the Unicode `White_Space` property.
pub fn is_whitespace(c: char) -> (r: bool)
    ensures
        r == unicode_white_space(c),
{
    ('\u{9}' <= c && c <= '\u{d}') || c == ' ' || c == '\u{85}' || c == '\u{a0}' || c == '\u{1680}'
        || ('\u{2000}' <= c && c <= '\u{200a}') || c == '\u{2028}' || c == '\u{2029}' || c
        == '\u{202f}' || c == '\u{205f}' || c == '\u{3000}'
}

/// Number of leading whitespace characters of `s`.
pub open spec fn leading_ws(s: Seq<char>) -> nat
    decreases s.len(),
{
    if s.len() > 0 && unicode_white_space(s[0]) {
        1 + leading_ws(s.drop_first())
    } else {
        0
    }
}

/// Number of trailing whitespace characters of `s`.
pub open spec fn trailing_ws(s: Seq<char>) -> nat
    decreases s.len(),
{
    if s.len() > 0 && unicode_white_space(s.last()) {
        1 + trailing_ws(s.drop_last())
    } else {
        0
    }
}

/// `s` without its leading and trailing whitespace (what `str::trim` returns).
pub open spec fn trim_spec(s: Seq<char>) -> Seq<char> {
    let a = leading_ws(s);
    if a == s.len() {
        Seq::empty()
    } else {
        s.subrange(a as int, s.len() - trailing_ws(s))
    }
}

pub proof fn lemma_leading_ws(s: Seq<char>)
    ensures
        leading_ws(s) <= s.len(),
        forall|i: int| 0 <= i < leading_ws(s) ==> unicode_white_space(#[trigger] s[i]),
        leading_ws(s) < s.len() ==> !unicode_white_space(s[leading_ws(s) as int]),
    decreases s.len(),
{
    if s.len() > 0 && unicode_white_space(s[0]) {
        lemma_leading_ws(s.drop_first());
        assert forall|i: int| 0 <= i < leading_ws(s) implies unicode_white_space(#[trigger] s[i]) by {
            if i > 0 {
                assert(s[i] == s.drop_first()[i - 1]);
            }
        }
    }
}

pub proof fn lemma_trailing_ws(s: Seq<char>)
    ensures
        trailing_ws(s) <= s.len(),
        forall|i: int| s.len() - trailing_ws(s) <= i < s.len() ==> unicode_white_space(#[trigger] s[i]),
        trailing_ws(s) < s.len() ==> !unicode_white_space(s[s.len() - trailing_ws(s) - 1]),
    decreases s.len(),
{
    if s.len() > 0 && unicode_white_space(s.last()) {
        lemma_trailing_ws(s.drop_last());
        assert forall|i: int| s.len() - trailing_ws(s) <= i < s.len() implies unicode_white_space(#[trigger] s[i]) by {
            if i < s.len() - 1 {
                assert(s[i] == s.drop_last()[i]);
            }
        }
    }
}

/// A string that neither begins nor ends with whitespace is its own trim.
pub proof fn lemma_trim_unchanged(s: Seq<char>)
    requires
        s.len() > 0,
        !unicode_white_space(s[0]),
        !unicode_white_space(s.last()),
    ensures
        trim_spec(s) == s,
{
    assert(leading_ws(s) == 0);
    assert(trailing_ws(s) == 0);
    assert(s.subrange(0, s.len() as int) =~= s);
}

proof fn lemma_leading_ws_append(t: Seq<char>, u: Seq<char>)
    ensures
        leading_ws(t) < t.len() ==> leading_ws(t + u) == leading_ws(t),
        leading_ws(t) == t.len() ==> leading_ws(t + u) == t.len() + leading_ws(u),
    decreases t.len(),
{
    lemma_leading_ws(t);
    if t.len() == 0 {
        assert(t + u =~= u);
    } else {
        assert((t + u)[0] == t[0]);
        if unicode_white_space(t[0]) {
            assert((t + u).drop_first() =~= t.drop_first() + u);
            lemma_leading_ws_append(t.drop_first(), u);
        }
    }
}

proof fn lemma_trailing_ws_prepend(u: Seq<char>, t: Seq<char>)
    ensures
        trailing_ws(t) < t.len() ==> trailing_ws(u + t) == trailing_ws(t),
        trailing_ws(t) == t.len() ==> trailing_ws(u + t) == t.len() + trailing_ws(u),
    decreases t.len(),
{
    lemma_trailing_ws(t);
    if t.len() == 0 {
        assert(u + t =~= u);
    } else {
        assert((u + t).last() == t.last());
        if unicode_white_space(t.last()) {
            assert((u + t).drop_last() =~= u + t.drop_last());
            lemma_trailing_ws_prepend(u, t.drop_last());
        }
    }
}

proof fn lemma_all_whitespace(w: Seq<char>)
    requires
        forall|i: int| 0 <= i < w.len() ==> unicode_white_space(#[trigger] w[i]),
    ensures
        leading_ws(w) == w.len(),
        trailing_ws(w) == w.len(),
    decreases w.len(),
{
    if w.len() > 0 {
        assert(forall|i: int| 0 <= i < w.drop_first().len() ==> w.drop_first()[i] == w[i + 1]);
        assert(forall|i: int| 0 <= i < w.drop_last().len() ==> w.drop_last()[i] == w[i]);
        lemma_all_whitespace(w.drop_first());
        lemma_all_whitespace(w.drop_last());
        assert(unicode_white_space(w[0]));
        assert(unicode_white_space(w[w.len() - 1]));
    }
}

/// Trimming ignores whitespace put around a string: with `w1` and `w2` made
/// of whitespace, `w1 + s + w2` trims to what `s` trims to.
pub proof fn lemma_trim_surrounding(w1: Seq<char>, s: Seq<char>, w2: Seq<char>)
    requires
        forall|i: int| 0 <= i < w1.len() ==> unicode_white_space(#[trigger] w1[i]),
        forall|i: int| 0 <= i < w2.len() ==> unicode_white_space(#[trigger] w2[i]),
    ensures
        trim_spec(w1 + s + w2) == trim_spec(s),
{
    lemma_all_whitespace(w1);
    lemma_all_whitespace(w2);
    lemma_leading_ws(s);
    lemma_trailing_ws(s);
    let x = w1 + s + w2;
    assert(x =~= w1 + (s + w2));
    lemma_leading_ws_append(w1, s + w2);
    lemma_leading_ws_append(s, w2);
    assert(x =~= (w1 + s) + w2);
    lemma_trailing_ws_prepend(w1 + s, w2);
    lemma_trailing_ws_prepend(w1, s);
    if leading_ws(s) == s.len() {
        assert(leading_ws(x) == x.len());
    } else {
        assert(trailing_ws(s) < s.len());
        let a = leading_ws(s) as int;
        let b = trailing_ws(s) as int;
        assert(leading_ws(x) == w1.len() + a);
        assert(trailing_ws(x) == w2.len() + b);
        assert(x.subrange(w1.len() + a, x.len() - (w2.len() + b)) =~= s.subrange(a, s.len() - b));
    }
}

/// Lower-casing ASCII letters keeps which characters are whitespace.
proof fn lemma_ascii_lower_whitespace(c: char)
    ensures
        unicode_white_space(ascii_lower(c)) == unicode_white_space(c),
{
}

/// Trimming and lower-casing ASCII letters can be done in either order.
pub proof fn lemma_trim_ascii_lower(s: Seq<char>)
    ensures
        trim_spec(ascii_lower_seq(s)) == ascii_lower_seq(trim_spec(s)),
    decreases s.len(),
{
    lemma_ws_ascii_lower(s);
    lemma_leading_ws(s);
    lemma_trailing_ws(s);
    let l = ascii_lower_seq(s);
    if leading_ws(s) < s.len() {
        assert(leading_ws(s) < s.len() - trailing_ws(s));
        assert(l.subrange(leading_ws(s) as int, s.len() - trailing_ws(s)) =~= ascii_lower_seq(
            s.subrange(leading_ws(s) as int, s.len() - trailing_ws(s)),
        ));
    } else {
        assert(ascii_lower_seq(Seq::<char>::empty()) =~= Seq::<char>::empty());
    }
}

proof fn lemma_ws_ascii_lower(s: Seq<char>)
    ensures
        leading_ws(ascii_lower_seq(s)) == leading_ws(s),
        trailing_ws(ascii_lower_seq(s)) == trailing_ws(s),
    decreases s.len(),
{
    if s.len() > 0 {
        let l = ascii_lower_seq(s);
        lemma_ascii_lower_whitespace(s[0]);
        lemma_ascii_lower_whitespace(s.last());
        assert(l.drop_first() =~= ascii_lower_seq(s.drop_first()));
        assert(l.drop_last() =~= ascii_lower_seq(s.drop_last()));
        lemma_ws_ascii_lower(s.drop_first());
        lemma_ws_ascii_lower(s.drop_last());
    }
}

/// Characters of `s` without leading or trailing whitespace.
fn trim_chars(s: &[char]) -> (r: Vec<char>)
    ensures
        r@ == trim_spec(s@),
{
    let n = s.len();
    let mut a: usize = 0;
    while a < n && is_whitespace(s[a])
        invariant
            a <= n,
            n == s@.len(),
            forall|i: int| 0 <= i < a ==> unicode_white_space(#[trigger] s@[i]),
        decreases n - a,
    {
        a = a + 1;
    }
    proof {
        lemma_leading_ws(s@);
        if leading_ws(s@) < a {
            assert(unicode_white_space(s@[leading_ws(s@) as int]));
        } else if leading_ws(s@) > a {
            assert(unicode_white_space(s@[a as int]));
        }
        assert(leading_ws(s@) == a);
    }
    let mut out: Vec<char> = Vec::new();
    if a == n {
        return out;
    }
    let mut b: usize = n;
    while b > a && is_whitespace(s[b - 1])
        invariant
            a < n,
            a <= b <= n,
            n == s@.len(),
            !unicode_white_space(s@[a as int]),
            forall|i: int| b <= i < n ==> unicode_white_space(#[trigger] s@[i]),
        decreases b,
    {
        b = b - 1;
    }
    proof {
        lemma_trailing_ws(s@);
        let t = trailing_ws(s@);
        if t < n - b {
            assert(unicode_white_space(s@[n - t - 1]));
        } else if t > n - b {
            assert(unicode_white_space(s@[b - 1]));
        }
        assert(t == n - b);
    }
    let mut i: usize = a;
    while i < b
        invariant
            a <= i <= b <= n,
            n == s@.len(),
            out@ == s@.subrange(a as int, i as int),
        decreases b - i,
    {
        out.push(s[i]);
        i = i + 1;
    }
    out
}

/// `str::trim`, on the library's own terms: `s` without leading and trailing
/// Unicode whitespace.
pub fn trim(s: &str) -> (r: String)
    ensures
        r@ == trim_spec(s@),
{
    let cs = chars_of(s);
    let t = trim_chars(cs.as_slice());
    string_from_chars(t.as_slice())
}

/// Whether two character sequences are equal.
pub fn chars_eq(a: &[char], b: &[char]) -> (r: bool)
    ensures
        r == (a@ == b@),
{
    if a.len() != b.len() {
        return false;
    }
    let mut i: usize = 0;
    while i < a.len()
        invariant
            i <= a.len(),
            a.len() == b.len(),
            a@.take(i as int) == b@.take(i as int),
        decreases a.len() - i,
    {
        if a[i] != b[i] {
            assert(a@[i as int] != b@[i as int]);
            return false;
        }
        assert(a@.take(i + 1) == a@.take(i as int).push(a@[i as int]));
        assert(b@.take(i + 1) == b@.take(i as int).push(b@[i as int]));
        i = i + 1;
    }
    assert(a@ == a@.take(a.len() as int));
    assert(b@ == b@.take(b.len() as int));
    true
}

/// Whether two strings are equal.
pub fn str_eq(a: &str, b: &str) -> (r: bool)
    ensures
        r == (a@ == b@),
{
    let x = chars_of(a);
    let y = chars_of(b);
    chars_eq(x.as_slice(), y.as_slice())
}

/// The fields of `s` between occurrences of `sep`, as `str::split(sep)`
/// yields them: an empty string has one empty field, and adjacent separators
/// enclose an empty field.
pub open spec fn split_fields(s: Seq<char>, sep: char) -> Seq<Seq<char>>
    decreases s.len(),
{
    if s.len() == 0 {
        seq![Seq::<char>::empty()]
    } else {
        let f = split_fields(s.drop_last(), sep);
        if s.last() == sep {
            f.push(Seq::<char>::empty())
        } else {
            f.update(f.len() - 1, f.last().push(s.last()))
        }
    }
}

pub proof fn lemma_split_fields_nonempty(s: Seq<char>, sep: char)
    ensures
        split_fields(s, sep).len() >= 1,
    decreases s.len(),
{
    if s.len() > 0 {
        lemma_split_fields_nonempty(s.drop_last(), sep);
    }
}

/// A string without the separator is a single field.
pub proof fn lemma_split_fields_single(s: Seq<char>, sep: char)
    requires
        !s.contains(sep),
    ensures
        split_fields(s, sep) == seq![s],
    decreases s.len(),
{
    if s.len() > 0 {
        assert(!s.drop_last().contains(sep)) by {
            if s.drop_last().contains(sep) {
                let k = choose|k: int| 0 <= k < s.drop_last().len() && s.drop_last()[k] == sep;
                assert(s[k] == sep);
            }
        }
        lemma_split_fields_single(s.drop_last(), sep);
        assert(s.last() != sep) by {
            if s.last() == sep {
                assert(s[s.len() - 1] == sep);
            }
        }
        assert(s.drop_last().push(s.last()) == s);
        assert(seq![s.drop_last()].update(0, s.drop_last().push(s.last())) == seq![s]);
    } else {
        assert(s == Seq::<char>::empty());
    }
}

/// Splitting at a separator: the fields of `a`, then those of `b`.
pub proof fn lemma_split_fields_concat(a: Seq<char>, b: Seq<char>, sep: char)
    ensures
        split_fields(a + seq![sep] + b, sep) == split_fields(a, sep) + split_fields(b, sep),
    decreases b.len(),
{
    lemma_split_fields_nonempty(a, sep);
    lemma_split_fields_nonempty(b, sep);
    let s = a + seq![sep] + b;
    if b.len() == 0 {
        assert(s.drop_last() == a);
        assert(s.last() == sep);
    } else {
        let b2 = b.drop_last();
        lemma_split_fields_concat(a, b2, sep);
        lemma_split_fields_nonempty(b2, sep);
        assert(s.drop_last() == a + seq![sep] + b2);
        assert(s.last() == b.last());
    }
}

/// The views of a list of character vectors.
pub open spec fn views(v: Seq<Vec<char>>) -> Seq<Seq<char>> {
    v.map_values(|f: Vec<char>| f@)
}

/// `s.split(sep)`, each field as a vector of characters.
pub fn split_chars(s: &[char], sep: char) -> (r: Vec<Vec<char>>)
    ensures
        views(r@) == split_fields(s@, sep),
{
    let mut done: Vec<Vec<char>> = Vec::new();
    let mut cur: Vec<char> = Vec::new();
    let mut i: usize = 0;
    assert(s@.take(0) == Seq::<char>::empty());
    while i < s.len()
        invariant
            i <= s.len(),
            views(done@).push(cur@) == split_fields(s@.take(i as int), sep),
        decreases s.len() - i,
    {
        let c = s[i];
        let ghost before = views(done@).push(cur@);
        assert(s@.take(i + 1).drop_last() == s@.take(i as int));
        assert(s@.take(i + 1).last() == c);
        if c == sep {
            let finished = cur;
            done.push(finished);
            cur = Vec::new();
            assert(views(done@) == before);
        } else {
            cur.push(c);
            assert(views(done@).push(cur@) == before.update(before.len() - 1, before.last().push(c)));
        }
        i = i + 1;
    }
    assert(s@.take(s.len() as int) == s@);
    done.push(cur);
    assert(views(done@) == split_fields(s@, sep));
    done
}

/// `c` with ASCII upper-case letters mapped to lower case (`char::to_ascii_lowercase`).
pub open spec fn ascii_lower(c: char) -> char {
    if 'A' <= c && c <= 'Z' {
        ((c as u32) + 32) as char
    } else {
        c
    }
}

/// `s` with ASCII upper-case letters mapped to lower case (`str::to_ascii_lowercase`).
pub open spec fn ascii_lower_seq(s: Seq<char>) -> Seq<char> {
    s.map_values(|c: char| ascii_lower(c))
}

pub fn to_ascii_lower(c: char) -> (r: char)
    ensures
        r == ascii_lower(c),
{
    if 'A' <= c && c <= 'Z' {
        ((c as u8) + 32) as char
    } else {
        c
    }
}

/// The characters of `s`, ASCII letters in lower case.
pub fn ascii_lowercase(s: &[char]) -> (r: Vec<char>)
    ensures
        r@ == ascii_lower_seq(s@),
{
    let mut out: Vec<char> = Vec::new();
    let mut i: usize = 0;
    while i < s.len()
        invariant
            i <= s.len(),
            out@ == ascii_lower_seq(s@.take(i as int)),
        decreases s.len() - i,
    {
        out.push(to_ascii_lower(s[i]));
        i = i + 1;
        assert(ascii_lower_seq(s@.take(i as int)) == ascii_lower_seq(s@.take(i - 1)).push(ascii_lower(s@[i - 1])));
    }
    assert(s@.take(s.len() as int) == s@);
    out
}

/// `s` without any trailing occurrences of `c` (`str::trim_end_matches(c)`).
pub open spec fn strip_trailing(s: Seq<char>, c: char) -> Seq<char>
    decreases s.len(),
{
    if s.len() > 0 && s.last() == c {
        strip_trailing(s.drop_last(), c)
    } else {
        s
    }
}

pub fn strip_trailing_chars(s: &[char], c: char) -> (r: Vec<char>)
    ensures
        r@ == strip_trailing(s@, c),
{
    let mut n: usize = s.len();
    assert(s@.take(n as int) == s@);
    while n > 0 && s[n - 1] == c
        invariant
            n <= s.len(),
            strip_trailing(s@, c) == strip_trailing(s@.take(n as int), c),
        decreases n,
    {
        assert(s@.take(n as int).drop_last() == s@.take(n - 1));
        n = n - 1;
    }
    let mut out: Vec<char> = Vec::new();
    let mut i: usize = 0;
    while i < n
        invariant
            i <= n <= s.len(),
            out@ == s@.take(i as int),
        decreases n - i,
    {
        out.push(s[i]);
        i = i + 1;
        assert(out@ == s@.take(i as int));
    }
    out
}

/// The fields joined with `sep` between them (`[T]::join`).
pub open spec fn join_fields(fields: Seq<Seq<char>>, sep: char) -> Seq<char>
    decreases fields.len(),
{
    if fields.len() == 0 {
        Seq::empty()
    } else if fields.len() == 1 {
        fields[0]
    } else {
        join_fields(fields.drop_last(), sep) + seq![sep] + fields.last()
    }
}

/// Joining from the front: the first field, the separator, then the rest joined.
pub proof fn lemma_join_fields_front(fields: Seq<Seq<char>>, sep: char)
    requires
        fields.len() >= 2,
    ensures
        join_fields(fields, sep) == fields[0] + seq![sep] + join_fields(fields.drop_first(), sep),
    decreases fields.len(),
{
    if fields.len() > 2 {
        lemma_join_fields_front(fields.drop_last(), sep);
        assert(fields.drop_last().drop_first() == fields.drop_first().drop_last());
        assert(fields.drop_first().last() == fields.last());
        assert(fields[0] == fields.drop_last()[0]);
        let a = fields[0];
        let b = join_fields(fields.drop_last().drop_first(), sep);
        let c = fields.last();
        assert(join_fields(fields.drop_first(), sep) == b + seq![sep] + c);
        assert((a + seq![sep] + b) + seq![sep] + c == a + seq![sep] + (b + seq![sep] + c));
        assert(join_fields(fields, sep) == join_fields(fields.drop_last(), sep) + seq![sep] + c);
    } else {
        assert(fields.drop_first() == seq![fields[1]]);
        assert(fields.drop_last() == seq![fields[0]]);
        assert(join_fields(seq![fields[0]], sep) == fields[0]);
        assert(join_fields(seq![fields[1]], sep) == fields[1]);
        assert(join_fields(fields, sep) == join_fields(fields.drop_last(), sep) + seq![sep] + fields.last());
    }
}

/// Splitting what was joined gives the fields back, when none holds the separator.
pub proof fn lemma_split_join(fields: Seq<Seq<char>>, sep: char)
    requires
        fields.len() >= 1,
        forall|k: int| 0 <= k < fields.len() ==> !(#[trigger] fields[k]).contains(sep),
    ensures
        split_fields(join_fields(fields, sep), sep) == fields,
    decreases fields.len(),
{
    if fields.len() == 1 {
        lemma_split_fields_single(fields[0], sep);
        assert(fields == seq![fields[0]]);
    } else {
        lemma_join_fields_front(fields, sep);
        let rest = fields.drop_first();
        assert forall|k: int| 0 <= k < rest.len() implies !(#[trigger] rest[k]).contains(sep) by {
            assert(rest[k] == fields[k + 1]);
        }
        lemma_split_join(rest, sep);
        lemma_split_fields_concat(fields[0], join_fields(rest, sep), sep);
        lemma_split_fields_single(fields[0], sep);
        assert(seq![fields[0]] + rest == fields);
    }
}

/// No field that `split_fields` yields holds the separator.
pub proof fn lemma_split_fields_no_sep(s: Seq<char>, sep: char)
    ensures
        forall|k: int|
            0 <= k < split_fields(s, sep).len() ==> !(#[trigger] split_fields(s, sep)[k]).contains(sep),
    decreases s.len(),
{
    if s.len() > 0 {
        lemma_split_fields_no_sep(s.drop_last(), sep);
        lemma_split_fields_nonempty(s.drop_last(), sep);
        let f = split_fields(s.drop_last(), sep);
        if s.last() != sep {
            let g = f.last().push(s.last());
            assert(!g.contains(sep)) by {
                if g.contains(sep) {
                    let j = choose|j: int| 0 <= j < g.len() && g[j] == sep;
                    if j < g.len() - 1 {
                        assert(f.last()[j] == sep);
                        assert(f[f.len() - 1].contains(sep));
                    }
                }
            }
        } else {
            assert(!Seq::<char>::empty().contains(sep));
        }
        let h = split_fields(s, sep);
        assert forall|k: int| 0 <= k < h.len() implies !(#[trigger] h[k]).contains(sep) by {
            if k < f.len() - 1 {
                assert(h[k] == f[k]);
            } else if k == f.len() - 1 && s.last() == sep {
                assert(h[k] == f[k]);
            }
        }
    }
}

/// `s` without any leading occurrences of `c` (`str::trim_start_matches(c)`).
pub open spec fn strip_leading(s: Seq<char>, c: char) -> Seq<char>
    decreases s.len(),
{
    if s.len() > 0 && s[0] == c {
        strip_leading(s.drop_first(), c)
    } else {
        s
    }
}

pub fn strip_leading_chars(s: &[char], c: char) -> (r: Vec<char>)
    ensures
        r@ == strip_leading(s@, c),
{
    let mut a: usize = 0;
    assert(s@.skip(0) == s@);
    while a < s.len() && s[a] == c
        invariant
            a <= s.len(),
            strip_leading(s@, c) == strip_leading(s@.skip(a as int), c),
        decreases s.len() - a,
    {
        assert(s@.skip(a as int).drop_first() == s@.skip(a + 1));
        a = a + 1;
    }
    let mut out: Vec<char> = Vec::new();
    let mut i: usize = a;
    while i < s.len()
        invariant
            a <= i <= s.len(),
            out@ == s@.subrange(a as int, i as int),
        decreases s.len() - i,
    {
        out.push(s[i]);
        i = i + 1;
    }
    assert(s@.subrange(a as int, s.len() as int) == s@.skip(a as int));
    out
}

/// `a` followed by `b`.
pub fn concat(a: &str, b: &str) -> (r: String)
    ensures
        r@ == a@ + b@,
{
    let mut s = a.to_string();
    s.append(b);
    s
}

/// The views of a list of strings.
pub open spec fn string_views(v: Seq<String>) -> Seq<Seq<char>> {
    v.map_values(|s: String| s@)
}

/// The view of an optional string.
pub open spec fn opt_view(v: Option<String>) -> Option<Seq<char>> {
    match v {
        Some(s) => Some(s@),
        None => None,
    }
}

} // verus!
