//! Character-level text primitives shared by the parsers.
//!
//! Every function here works on sequences of Unicode scalar values, the
//! view Verus gives of `str` and `String`.
use vstd::prelude::*;

verus! {

/// The Unicode `White_Space` property, which `char::is_whitespace` follows.
pub open spec fn is_ws(c: char) -> bool {
    ||| ('\u{9}' <= c && c <= '\u{d}')
    ||| c == ' '
    ||| c == '\u{85}'
    ||| c == '\u{a0}'
    ||| c == '\u{1680}'
    ||| ('\u{2000}' <= c && c <= '\u{200a}')
    ||| c == '\u{2028}'
    ||| c == '\u{2029}'
    ||| c == '\u{202f}'
    ||| c == '\u{205f}'
    ||| c == '\u{3000}'
}

/// The Unicode `Alphabetic` or `Numeric` property, as tested by
/// `char::is_alphanumeric`.
pub uninterp spec fn unicode_alphanumeric(c: char) -> bool;

/// `char::is_alphanumeric`: a table lookup over Unicode's `Alphabetic` and
/// `Numeric` properties. The contract names the answer and states what the
/// documentation of the method makes plain for ASCII: letters and digits are
/// alphanumeric, every other ASCII character is not.
#[verifier::external_body]
pub(crate) fn char_is_alphanumeric(c: char) -> (b: bool)
    ensures
        b == unicode_alphanumeric(c),
        ('a' <= c <= 'z' || 'A' <= c <= 'Z' || '0' <= c <= '9') ==> b,
        (c <= '\u{7f}' && !('a' <= c <= 'z' || 'A' <= c <= 'Z' || '0' <= c <= '9')) ==> !b,
{
    c.is_alphanumeric()
}

pub fn char_is_whitespace(c: char) -> (b: bool)
    ensures
        b == is_ws(c),
{
    ('\u{9}' <= c && c <= '\u{d}') || c == ' ' || c == '\u{85}' || c == '\u{a0}' || c
        == '\u{1680}' || ('\u{2000}' <= c && c <= '\u{200a}') || c == '\u{2028}' || c
        == '\u{2029}' || c == '\u{202f}' || c == '\u{205f}' || c == '\u{3000}'
}

/// The sets of characters that the parsers trim away.
#[derive(Clone, Copy, PartialEq, Eq, Structural)]
pub enum CharSet {
    /// Unicode white space.
    Whitespace,
    /// The double quote `"`.
    DoubleQuote,
    /// The slash `/`.
    Slash,
    /// Punctuation around a tag: `,` `.` `;` `(` `)`.
    TagPunctuation,
    /// Anything but alphanumerics, `_` and `-`.
    NotTermChar,
    /// Anything but alphanumerics.
    NotAlphanumeric,
    /// The hash sign `#`.
    Hash,
    /// Anything but white space.
    NonWhitespace,
    /// The semicolon `;`.
    Semicolon,
}

pub open spec fn in_set(set: CharSet, c: char) -> bool {
    match set {
        CharSet::Whitespace => is_ws(c),
        CharSet::DoubleQuote => c == '"',
        CharSet::Slash => c == '/',
        CharSet::TagPunctuation => c == ',' || c == '.' || c == ';' || c == ')' || c == '(',
        CharSet::NotTermChar => !unicode_alphanumeric(c) && c != '_' && c != '-',
        CharSet::NotAlphanumeric => !unicode_alphanumeric(c),
        CharSet::Hash => c == '#',
        CharSet::NonWhitespace => !is_ws(c),
        CharSet::Semicolon => c == ';',
    }
}

pub fn set_contains(set: CharSet, c: char) -> (b: bool)
    ensures
        b == in_set(set, c),
{
    match set {
        CharSet::Whitespace => char_is_whitespace(c),
        CharSet::DoubleQuote => c == '"',
        CharSet::Slash => c == '/',
        CharSet::TagPunctuation => c == ',' || c == '.' || c == ';' || c == ')' || c == '(',
        CharSet::NotTermChar => !char_is_alphanumeric(c) && c != '_' && c != '-',
        CharSet::NotAlphanumeric => !char_is_alphanumeric(c),
        CharSet::Hash => c == '#',
        CharSet::NonWhitespace => !char_is_whitespace(c),
        CharSet::Semicolon => c == ';',
    }
}

/// `String::push`.
#[verifier::external_body]
pub(crate) fn push_char(s: &mut String, c: char)
    ensures
        final(s)@ == old(s)@.push(c),
{
    s.push(c);
}

pub fn push_str(s: &mut String, t: &str)
    ensures
        final(s)@ == old(s)@ + t@,
{
    s.append(t);
}

pub fn to_chars(s: &str) -> (v: Vec<char>)
    ensures
        v@ == s@,
{
    let mut v: Vec<char> = Vec::new();
    for c in it: s.chars()
        invariant
            it.seq() == s@,
            v@ == it.seq().take(it.index() as int),
    {
        v.push(c);
    }
    proof {
        assert(v@ =~= s@);
    }
    v
}

/// The characters `v[lo..hi]` as a `String`.
pub fn string_of(v: &[char], lo: usize, hi: usize) -> (s: String)
    requires
        lo <= hi <= v@.len(),
    ensures
        s@ == v@.subrange(lo as int, hi as int),
{
    let mut s = String::new();
    let mut i = lo;
    while i < hi
        invariant
            lo <= i <= hi <= v@.len(),
            s@ == v@.subrange(lo as int, i as int),
        decreases hi - i,
    {
        push_char(&mut s, v[i]);
        proof {
            assert(v@.subrange(lo as int, i + 1) =~= v@.subrange(lo as int, i as int).push(v@[i as int]));
        }
        i = i + 1;
    }
    s
}

pub fn string_of_all(v: &[char]) -> (s: String)
    ensures
        s@ == v@,
{
    let s = string_of(v, 0, v.len());
    proof {
        assert(v@.subrange(0, v@.len() as int) =~= v@);
    }
    s
}

pub fn copy_string(s: &str) -> (r: String)
    ensures
        r@ == s@,
{
    let mut r = String::new();
    r.append(s);
    proof {
        assert(r@ =~= s@);
    }
    r
}

pub fn chars_eq(a: &[char], b: &[char]) -> (r: bool)
    ensures
        r == (a@ == b@),
{
    if a.len() != b.len() {
        return false;
    }
    let mut i: usize = 0;
    while i < a.len()
        invariant
            a@.len() == b@.len(),
            i <= a@.len(),
            forall|k: int| 0 <= k < i ==> a@[k] == b@[k],
        decreases a@.len() - i,
    {
        if a[i] != b[i] {
            return false;
        }
        i = i + 1;
    }
    proof {
        assert(a@ =~= b@);
    }
    true
}

pub fn extend_chars(buf: &mut Vec<char>, src: &[char])
    ensures
        final(buf)@ == old(buf)@ + src@,
{
    let mut i: usize = 0;
    while i < src.len()
        invariant
            i <= src@.len(),
            buf@ == old(buf)@ + src@.subrange(0, i as int),
        decreases src@.len() - i,
    {
        buf.push(src[i]);
        proof {
            assert(old(buf)@ + src@.subrange(0, i + 1) =~= old(buf)@ + src@.subrange(0, i as int)
                + seq![src@[i as int]]);
        }
        i = i + 1;
    }
    proof {
        assert(src@.subrange(0, src@.len() as int) =~= src@);
    }
}

// ---------------------------------------------------------------------------
// Trimming
// ---------------------------------------------------------------------------

/// The first index at or after `i` whose character is not in `set`.
pub open spec fn skip_start(s: Seq<char>, set: CharSet, i: int) -> int
    decreases s.len() - i,
{
    if i < 0 || i >= s.len() {
        s.len() as int
    } else if in_set(set, s[i]) {
        skip_start(s, set, i + 1)
    } else {
        i
    }
}

/// The end of `s[..j]` once characters in `set` are stripped from its end.
pub open spec fn skip_end(s: Seq<char>, set: CharSet, j: int) -> int
    decreases j,
{
    if j <= 0 || j > s.len() {
        0
    } else if in_set(set, s[j - 1]) {
        skip_end(s, set, j - 1)
    } else {
        j
    }
}

pub open spec fn trim_start_set(s: Seq<char>, set: CharSet) -> Seq<char> {
    s.subrange(skip_start(s, set, 0), s.len() as int)
}

pub open spec fn trim_end_set(s: Seq<char>, set: CharSet) -> Seq<char> {
    s.subrange(0, skip_end(s, set, s.len() as int))
}

/// `str::trim_matches` over a set: strips the set from both ends.
pub open spec fn trim_set(s: Seq<char>, set: CharSet) -> Seq<char> {
    trim_end_set(trim_start_set(s, set), set)
}

/// `str::trim`.
pub open spec fn trim(s: Seq<char>) -> Seq<char> {
    trim_set(s, CharSet::Whitespace)
}

pub proof fn lemma_skip_start_bounds(s: Seq<char>, set: CharSet, i: int)
    requires
        0 <= i <= s.len(),
    ensures
        i <= skip_start(s, set, i) <= s.len(),
        forall|k: int| i <= k < skip_start(s, set, i) ==> in_set(set, #[trigger] s[k]),
        skip_start(s, set, i) < s.len() ==> !in_set(set, s[skip_start(s, set, i)]),
    decreases s.len() - i,
{
    if i < s.len() && in_set(set, s[i]) {
        lemma_skip_start_bounds(s, set, i + 1);
    }
}

pub proof fn lemma_skip_end_bounds(s: Seq<char>, set: CharSet, j: int)
    requires
        0 <= j <= s.len(),
    ensures
        0 <= skip_end(s, set, j) <= j,
        forall|k: int| skip_end(s, set, j) <= k < j ==> in_set(set, #[trigger] s[k]),
        skip_end(s, set, j) > 0 ==> !in_set(set, s[skip_end(s, set, j) - 1]),
    decreases j,
{
    if j > 0 && in_set(set, s[j - 1]) {
        lemma_skip_end_bounds(s, set, j - 1);
    }
}

pub fn skip_start_exec(s: &[char], set: CharSet, i: usize) -> (r: usize)
    requires
        i <= s@.len(),
    ensures
        r == skip_start(s@, set, i as int),
{
    let mut k = i;
    while k < s.len() && set_contains(set, s[k])
        invariant
            i <= k <= s@.len(),
            skip_start(s@, set, i as int) == skip_start(s@, set, k as int),
        decreases s@.len() - k,
    {
        k = k + 1;
    }
    k
}

pub fn skip_end_exec(s: &[char], set: CharSet, j: usize) -> (r: usize)
    requires
        j <= s@.len(),
    ensures
        r == skip_end(s@, set, j as int),
{
    let mut k = j;
    while k > 0 && set_contains(set, s[k - 1])
        invariant
            k <= j <= s@.len(),
            skip_end(s@, set, j as int) == skip_end(s@, set, k as int),
        decreases k,
    {
        k = k - 1;
    }
    k
}

/// The bounds `(a, b)` with `s[a..b] == trim_set(s[lo..hi], set)`.
pub fn trim_bounds(s: &[char], lo: usize, hi: usize, set: CharSet) -> (r: (usize, usize))
    requires
        lo <= hi <= s@.len(),
    ensures
        lo <= r.0 <= r.1 <= hi,
        s@.subrange(r.0 as int, r.1 as int) == trim_set(s@.subrange(lo as int, hi as int), set),
{
    let ghost t = s@.subrange(lo as int, hi as int);
    let mut a = lo;
    while a < hi && set_contains(set, s[a])
        invariant
            lo <= a <= hi <= s@.len(),
            t == s@.subrange(lo as int, hi as int),
            skip_start(t, set, 0) == skip_start(t, set, a - lo),
        decreases hi - a,
    {
        a = a + 1;
    }
    let ghost u = t.subrange(a - lo, t.len() as int);
    assert(u =~= s@.subrange(a as int, hi as int));
    let mut b = hi;
    while b > a && set_contains(set, s[b - 1])
        invariant
            lo <= a <= b <= hi <= s@.len(),
            u == s@.subrange(a as int, hi as int),
            skip_end(u, set, u.len() as int) == skip_end(u, set, b - a),
        decreases b,
    {
        b = b - 1;
    }
    assert(s@.subrange(a as int, b as int) =~= u.subrange(0, b - a));
    (a, b)
}

pub fn trim_set_string(s: &[char], lo: usize, hi: usize, set: CharSet) -> (r: String)
    requires
        lo <= hi <= s@.len(),
    ensures
        r@ == trim_set(s@.subrange(lo as int, hi as int), set),
{
    let (a, b) = trim_bounds(s, lo, hi, set);
    string_of(s, a, b)
}

pub fn trim_str(s: &str) -> (r: String)
    ensures
        r@ == trim(s@),
{
    let v = to_chars(s);
    let r = trim_set_string(&v, 0, v.len(), CharSet::Whitespace);
    proof {
        assert(v@.subrange(0, v@.len() as int) =~= v@);
    }
    r
}

// ---------------------------------------------------------------------------
// Prefixes, suffixes and search
// ---------------------------------------------------------------------------

pub open spec fn starts_with(s: Seq<char>, p: Seq<char>) -> bool {
    p.len() <= s.len() && s.subrange(0, p.len() as int) == p
}

pub open spec fn ends_with(s: Seq<char>, p: Seq<char>) -> bool {
    p.len() <= s.len() && s.subrange(s.len() - p.len(), s.len() as int) == p
}

/// `pat` occurs in `s` at index `i`.
pub open spec fn match_at(s: Seq<char>, pat: Seq<char>, i: int) -> bool {
    0 <= i && i + pat.len() <= s.len() && s.subrange(i, i + pat.len()) == pat
}

/// The first index at or after `i` where `pat` occurs, as `str::find` gives it.
pub open spec fn find_from(s: Seq<char>, pat: Seq<char>, i: int) -> Option<int>
    decreases s.len() + 1 - i,
{
    if i < 0 || i + pat.len() > s.len() {
        None
    } else if match_at(s, pat, i) {
        Some(i)
    } else {
        find_from(s, pat, i + 1)
    }
}

/// `str::contains`.
pub open spec fn contains(s: Seq<char>, pat: Seq<char>) -> bool {
    find_from(s, pat, 0) is Some
}

pub proof fn lemma_find_from(s: Seq<char>, pat: Seq<char>, i: int)
    requires
        0 <= i,
    ensures
        find_from(s, pat, i) matches Some(k) ==> i <= k && match_at(s, pat, k) && forall|m: int|
            i <= m < k ==> !match_at(s, pat, m),
        find_from(s, pat, i) is None ==> forall|m: int| i <= m ==> !match_at(s, pat, m),
    decreases s.len() + 1 - i,
{
    if i + pat.len() <= s.len() && !match_at(s, pat, i) {
        lemma_find_from(s, pat, i + 1);
    }
}

/// `find_from` in a suffix `s[p..]` is `find_from` in `s` from `p`, shifted.
pub proof fn lemma_find_from_shift(s: Seq<char>, pat: Seq<char>, p: int, m: int)
    requires
        0 <= p <= s.len(),
        0 <= m,
    ensures
        find_from(s.subrange(p, s.len() as int), pat, m) == match find_from(s, pat, p + m) {
            Some(k) => Some(k - p),
            None => None::<int>,
        },
    decreases s.len() + 1 - p - m,
{
    let t = s.subrange(p, s.len() as int);
    if m + pat.len() <= t.len() {
        assert(t.subrange(m, m + pat.len()) =~= s.subrange(p + m, p + m + pat.len()));
        if !match_at(t, pat, m) {
            lemma_find_from_shift(s, pat, p, m + 1);
        }
    }
}

pub fn starts_with_exec(s: &[char], p: &[char]) -> (b: bool)
    ensures
        b == starts_with(s@, p@),
{
    match_at_exec(s, p, 0)
}

pub fn ends_with_exec(s: &[char], p: &[char]) -> (b: bool)
    ensures
        b == ends_with(s@, p@),
{
    if p.len() > s.len() {
        false
    } else {
        match_at_exec(s, p, s.len() - p.len())
    }
}

pub fn match_at_exec(s: &[char], pat: &[char], i: usize) -> (b: bool)
    ensures
        b == match_at(s@, pat@, i as int),
{
    if i > s.len() || pat.len() > s.len() - i {
        return false;
    }
    let n = s.len();
    let mut k: usize = 0;
    while k < pat.len()
        invariant
            n == s@.len(),
            i + pat@.len() <= s@.len(),
            k <= pat@.len(),
            forall|m: int| 0 <= m < k ==> s@[i + m] == pat@[m],
        decreases pat@.len() - k,
    {
        if s[i + k] != pat[k] {
            proof {
                assert(s@.subrange(i as int, i + pat@.len())[k as int] != pat@[k as int]);
            }
            return false;
        }
        k = k + 1;
    }
    proof {
        assert(s@.subrange(i as int, i + pat@.len()) =~= pat@);
    }
    true
}

pub fn find_exec(s: &[char], pat: &[char], i: usize) -> (r: Option<usize>)
    ensures
        match r {
            Some(k) => find_from(s@, pat@, i as int) == Some(k as int),
            None => find_from(s@, pat@, i as int) is None,
        },
{
    if pat.len() > s.len() || i > s.len() - pat.len() {
        return None;
    }
    let last = s.len() - pat.len();
    let mut k = i;
    while k <= last
        invariant
            i <= k,
            last + pat@.len() == s@.len(),
            find_from(s@, pat@, i as int) == find_from(s@, pat@, k as int),
        decreases last + 1 - k,
    {
        if match_at_exec(s, pat, k) {
            return Some(k);
        }
        if k == last {
            proof {
                assert(find_from(s@, pat@, k + 1) is None);
            }
            return None;
        }
        k = k + 1;
    }
    None
}

pub fn contains_exec(s: &[char], pat: &[char]) -> (b: bool)
    ensures
        b == contains(s@, pat@),
{
    find_exec(s, pat, 0).is_some()
}

// ---------------------------------------------------------------------------
// Lines and words
// ---------------------------------------------------------------------------

/// The first index at or after `i` holding `c`, or `s.len()`.
pub open spec fn find_char(s: Seq<char>, c: char, i: int) -> int
    decreases s.len() - i,
{
    if i < 0 || i >= s.len() {
        s.len() as int
    } else if s[i] == c {
        i
    } else {
        find_char(s, c, i + 1)
    }
}

pub proof fn lemma_find_char(s: Seq<char>, c: char, i: int)
    requires
        0 <= i <= s.len(),
    ensures
        i <= find_char(s, c, i) <= s.len(),
        forall|m: int| i <= m < find_char(s, c, i) ==> s[m] != c,
        find_char(s, c, i) < s.len() ==> s[find_char(s, c, i)] == c,
    decreases s.len() - i,
{
    if i < s.len() && s[i] != c {
        lemma_find_char(s, c, i + 1);
    }
}

pub fn find_char_exec(s: &[char], c: char, i: usize) -> (r: usize)
    requires
        i <= s@.len(),
    ensures
        r == find_char(s@, c, i as int),
{
    let mut k = i;
    while k < s.len() && s[k] != c
        invariant
            i <= k <= s@.len(),
            find_char(s@, c, i as int) == find_char(s@, c, k as int),
        decreases s@.len() - k,
    {
        k = k + 1;
    }
    k
}

/// A line without the `\r` of a `\r\n` ending.
pub open spec fn strip_cr(line: Seq<char>) -> Seq<char> {
    if line.len() > 0 && line.last() == '\r' {
        line.drop_last()
    } else {
        line
    }
}

/// `str::lines`: split at `\n`, drop a `\r` before it, no empty last line
/// after a final `\n`.
pub open spec fn lines(s: Seq<char>) -> Seq<Seq<char>>
    decreases s.len(),
{
    if s.len() == 0 {
        seq![]
    } else {
        let i = find_char(s, '\n', 0);
        proof {
            lemma_find_char(s, '\n', 0);
        }
        if i >= s.len() {
            seq![s]
        } else {
            seq![strip_cr(s.subrange(0, i))] + lines(s.subrange(i + 1, s.len() as int))
        }
    }
}

pub open spec fn views(v: Seq<Vec<char>>) -> Seq<Seq<char>> {
    v.map_values(|x: Vec<char>| x@)
}

pub fn lines_exec(s: &[char]) -> (r: Vec<Vec<char>>)
    ensures
        views(r@) == lines(s@),
{
    let mut out: Vec<Vec<char>> = Vec::new();
    let mut p: usize = 0;
    proof {
        assert(s@.subrange(0, s@.len() as int) =~= s@);
        assert(views(out@) =~= Seq::<Seq<char>>::empty());
        assert(views(out@) + lines(s@) =~= lines(s@));
    }
    while p < s.len()
        invariant
            p <= s@.len(),
            views(out@) + lines(s@.subrange(p as int, s@.len() as int)) == lines(s@),
        decreases s@.len() - p,
    {
        let ghost rest = s@.subrange(p as int, s@.len() as int);
        let i = find_char_exec(s, '\n', p);
        proof {
            lemma_find_char(s@, '\n', p as int);
            lemma_find_char_shift(s@, '\n', p as int);
        }
        let mut end = i;
        if end > p && s[end - 1] == '\r' && i < s.len() {
            end = end - 1;
        }
        let mut line: Vec<char> = Vec::new();
        let mut k = p;
        while k < end
            invariant
                p <= k <= end <= s@.len(),
                line@ == s@.subrange(p as int, k as int),
            decreases end - k,
        {
            line.push(s[k]);
            proof {
                assert(s@.subrange(p as int, k + 1) =~= s@.subrange(p as int, k as int).push(s@[k as int]));
            }
            k = k + 1;
        }
        let ghost old_out = out@;
        out.push(line);
        proof {
            assert(views(out@) =~= views(old_out).push(line@));
            if i >= s.len() {
                assert(rest =~= s@.subrange(p as int, i as int));
                assert(lines(rest) == seq![rest]);
                assert(line@ =~= rest);
                assert(s@.subrange(s@.len() as int, s@.len() as int) =~= Seq::<char>::empty());
                assert(views(out@) + lines(s@.subrange(s@.len() as int, s@.len() as int))
                    =~= views(old_out) + lines(rest));
            } else {
                assert(rest.subrange(0, i - p) =~= s@.subrange(p as int, i as int));
                assert(rest.subrange(i - p + 1, rest.len() as int) =~= s@.subrange(i + 1, s@.len() as int));
                assert(line@ =~= strip_cr(s@.subrange(p as int, i as int)));
                assert(views(out@) + lines(s@.subrange(i + 1, s@.len() as int)) =~= views(old_out)
                    + lines(rest));
            }
        }
        if i >= s.len() {
            p = s.len();
        } else {
            p = i + 1;
        }
    }
    proof {
        assert(s@.subrange(p as int, s@.len() as int) =~= Seq::<char>::empty());
        assert(views(out@) + lines(Seq::<char>::empty()) =~= views(out@));
    }
    out
}

/// `find_char` from `p` in `s` is `p` plus `find_char` from 0 in `s[p..]`.
pub proof fn lemma_find_char_shift(s: Seq<char>, c: char, p: int)
    requires
        0 <= p <= s.len(),
    ensures
        find_char(s.subrange(p, s.len() as int), c, 0) == find_char(s, c, p) - p,
{
    let t = s.subrange(p, s.len() as int);
    lemma_find_char(s, c, p);
    lemma_find_char(t, c, 0);
    let a = find_char(s, c, p);
    let b = find_char(t, c, 0);
    if b + p < a {
        assert(t[b] == s[b + p]);
    } else if b + p > a {
        assert(t[a - p] == s[a]);
    }
}


/// What `trim_set` leaves neither begins nor ends with a character of the set.
pub proof fn lemma_trim_set_ends(s: Seq<char>, set: CharSet)
    ensures
        trim_set(s, set).len() > 0 ==> !in_set(set, trim_set(s, set)[0]) && !in_set(
            set,
            trim_set(s, set).last(),
        ),
{
    let a = skip_start(s, set, 0);
    lemma_skip_start_bounds(s, set, 0);
    let u = s.subrange(a, s.len() as int);
    let e = skip_end(u, set, u.len() as int);
    lemma_skip_end_bounds(u, set, u.len() as int);
    if e > 0 {
        assert(u[0] == s[a]);
        assert(trim_set(s, set) == u.subrange(0, e));
    }
}


proof fn lemma_skip_end_agree(s: Seq<char>, t: Seq<char>, set: CharSet, j: int)
    requires
        j <= s.len(),
        j <= t.len(),
        forall|k: int| 0 <= k < j ==> s[k] == t[k],
    ensures
        skip_end(s, set, j) == skip_end(t, set, j),
    decreases j,
{
    if j > 0 && in_set(set, s[j - 1]) {
        lemma_skip_end_agree(s, t, set, j - 1);
    }
}

proof fn lemma_skip_start_push(s: Seq<char>, c: char, set: CharSet, i: int)
    requires
        0 <= i <= s.len(),
        in_set(set, c),
    ensures
        skip_start(s.push(c), set, i) == if skip_start(s, set, i) < s.len() {
            skip_start(s, set, i)
        } else {
            s.len() + 1int
        },
    decreases s.len() - i,
{
    let y = s.push(c);
    if i < s.len() {
        assert(y[i] == s[i]);
        if in_set(set, s[i]) {
            lemma_skip_start_push(s, c, set, i + 1);
        }
    } else {
        assert(y[i] == c);
        assert(skip_start(y, set, i + 1) == y.len());
    }
}

/// White space added at the end of a text does not change its trim.
pub proof fn lemma_trim_push_ws(s: Seq<char>, c: char)
    requires
        is_ws(c),
    ensures
        trim(s.push(c)) == trim(s),
{
    let set = CharSet::Whitespace;
    let y = s.push(c);
    lemma_skip_start_push(s, c, set, 0);
    lemma_skip_start_bounds(s, set, 0);
    let a = skip_start(s, set, 0);
    if a < s.len() {
        let ux = s.subrange(a, s.len() as int);
        let uy = y.subrange(a, y.len() as int);
        assert(uy =~= ux.push(c));
        assert(uy[ux.len() as int] == c);
        assert(skip_end(uy, set, uy.len() as int) == skip_end(uy, set, ux.len() as int));
        lemma_skip_end_agree(uy, ux, set, ux.len() as int);
        lemma_skip_end_bounds(ux, set, ux.len() as int);
        let e = skip_end(ux, set, ux.len() as int);
        assert(uy.subrange(0, e) =~= ux.subrange(0, e));
    } else {
        let ux = s.subrange(a, s.len() as int);
        let uy = y.subrange(y.len() as int, y.len() as int);
        assert(ux.len() == 0);
        assert(uy.len() == 0);
        assert(skip_end(ux, set, 0) == 0);
        assert(skip_end(uy, set, 0) == 0);
        assert(trim(s) =~= Seq::<char>::empty());
        assert(trim(y) =~= Seq::<char>::empty());
    }
}

} // verus!
