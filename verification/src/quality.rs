//! The signals from which the quality of a retrieved chunk's text is scored:
//! how many words and characters it has, how varied its words are, and the
//! marks of boilerplate (Excalidraw stubs, mail headers, links, addresses).
use vstd::prelude::*;

use crate::note::{string_views, words};
use crate::text::{
    char_is_whitespace, contains, find_from, is_ws, starts_with, to_chars, trim, trim_set,
    unicode_alphanumeric, CharSet,
};

verus! {

/// The Unicode lowercase mapping of a string, as `str::to_lowercase`
/// computes it.
pub uninterp spec fn unicode_lowercase(s: Seq<char>) -> Seq<char>;

/// `str::to_lowercase`: the full Unicode lowercase mapping, which depends on
/// nothing but the string. The contract names the result; the mapping's
/// tables are not restated.
#[verifier::external_body]
fn to_lowercase(s: &str) -> (r: String)
    ensures
        r@ == unicode_lowercase(s@),
{
    s.to_lowercase()
}

/// A word carries text when one of its characters is alphanumeric.
pub open spec fn has_alnum(w: Seq<char>) -> bool {
    exists|k: int| 0 <= k < w.len() && unicode_alphanumeric(#[trigger] w[k])
}

/// The words among `ws` that carry text.
pub open spec fn count_text_words(ws: Seq<Seq<char>>) -> nat
    decreases ws.len(),
{
    if ws.len() == 0 {
        0
    } else {
        count_text_words(ws.drop_last()) + if has_alnum(ws.last()) {
            1nat
        } else {
            0nat
        }
    }
}

/// The characters of `s` that are not white space.
pub open spec fn count_visible(s: Seq<char>) -> nat
    decreases s.len(),
{
    if s.len() == 0 {
        0
    } else {
        count_visible(s.drop_last()) + if is_ws(s.last()) {
            0nat
        } else {
            1nat
        }
    }
}

/// The occurrences of `c` in `s`.
pub open spec fn count_char(s: Seq<char>, c: char) -> nat
    decreases s.len(),
{
    if s.len() == 0 {
        0
    } else {
        count_char(s.drop_last(), c) + if s.last() == c {
            1nat
        } else {
            0nat
        }
    }
}

/// The non-overlapping occurrences of `pat` in `s` from `i` on, found left
/// to right as `str::matches` finds them.
pub open spec fn count_matches(s: Seq<char>, pat: Seq<char>, i: int) -> nat
    decreases s.len() + 1 - i,
{
    if pat.len() == 0 || i < 0 || i > s.len() {
        0
    } else {
        match find_from(s, pat, i) {
            Some(k) => {
                proof {
                    crate::text::lemma_find_from(s, pat, i);
                }
                1 + count_matches(s, pat, k + pat.len())
            },
            None => 0,
        }
    }
}

/// A word as it counts towards variety: stripped of non-alphanumerics at
/// both ends, then lowercased.
pub open spec fn normalized_word(w: Seq<char>) -> Seq<char> {
    unicode_lowercase(trim_set(w, CharSet::NotAlphanumeric))
}

/// The normalized words of `ws` that are not empty.
pub open spec fn normalized_words(ws: Seq<Seq<char>>) -> Seq<Seq<char>>
    decreases ws.len(),
{
    if ws.len() == 0 {
        seq![]
    } else {
        let acc = normalized_words(ws.drop_last());
        let n = normalized_word(ws.last());
        if n.len() > 0 {
            acc.push(n)
        } else {
            acc
        }
    }
}

/// `ws` with every repeat dropped: the distinct words, each at its first
/// place.
pub open spec fn distinct_words(ws: Seq<Seq<char>>) -> Seq<Seq<char>>
    decreases ws.len(),
{
    if ws.len() == 0 {
        seq![]
    } else {
        let acc = distinct_words(ws.drop_last());
        if acc.contains(ws.last()) {
            acc
        } else {
            acc.push(ws.last())
        }
    }
}

/// What the quality score of a chunk's text is computed from.
#[derive(Debug, Clone, Copy, PartialEq, Eq)]
pub struct TextQualitySignals {
    /// Nothing but white space.
    pub blank: bool,
    /// Words (white-space separated) with at least one alphanumeric.
    pub word_count: usize,
    /// Characters that are not white space.
    pub char_count: usize,
    /// Distinct words after stripping and lowercasing.
    pub unique_words: usize,
    /// `http://` and `https://` occurrences in the lowercased text.
    pub url_count: usize,
    /// `@` characters.
    pub email_marker_count: usize,
    /// The lowercased text mentions an Excalidraw view.
    pub excalidraw_stub: bool,
    /// The lowercased text starts like a mail header (`**aan:**`, `aan:`,
    /// `from:`).
    pub mail_header: bool,
}

/// The signals of `text`, over its trimmed form `t` and the lowercase `l`
/// of `t`.
pub open spec fn signals_match(r: TextQualitySignals, text: Seq<char>) -> bool {
    let t = trim(text);
    let l = unicode_lowercase(t);
    &&& r.blank == (t.len() == 0)
    &&& r.word_count as nat == count_text_words(words(t))
    &&& r.char_count as nat == count_visible(t)
    &&& r.unique_words as nat == distinct_words(normalized_words(words(t))).len()
    &&& r.url_count as nat == count_matches(l, "http://"@, 0) + count_matches(l, "https://"@, 0)
    &&& r.email_marker_count as nat == count_char(l, '@')
    &&& r.excalidraw_stub == (contains(l, "switch to excalidraw view"@) || contains(
        l,
        "excalidraw view"@,
    ))
    &&& r.mail_header == (starts_with(l, "**aan:**"@) || starts_with(l, "aan:"@) || starts_with(
        l,
        "from:"@,
    ))
}

fn word_has_alnum(w: &Vec<char>) -> (b: bool)
    ensures
        b == has_alnum(w@),
{
    let mut k: usize = 0;
    while k < w.len()
        invariant
            k <= w@.len(),
            forall|m: int| 0 <= m < k ==> !unicode_alphanumeric(#[trigger] w@[m]),
        decreases w@.len() - k,
    {
        if crate::text::char_is_alphanumeric(w[k]) {
            return true;
        }
        k = k + 1;
    }
    false
}

fn visible_count(s: &Vec<char>) -> (n: usize)
    ensures
        n as nat == count_visible(s@),
{
    let mut n: usize = 0;
    let mut i: usize = 0;
    while i < s.len()
        invariant
            i <= s@.len(),
            n <= i,
            n as nat == count_visible(s@.take(i as int)),
        decreases s@.len() - i,
    {
        proof {
            assert(s@.take(i + 1).drop_last() =~= s@.take(i as int));
        }
        if !char_is_whitespace(s[i]) {
            n = n + 1;
        }
        i = i + 1;
    }
    proof {
        assert(s@.take(s@.len() as int) =~= s@);
    }
    n
}

fn char_count_of(s: &Vec<char>, c: char) -> (n: usize)
    ensures
        n as nat == count_char(s@, c),
{
    let mut n: usize = 0;
    let mut i: usize = 0;
    while i < s.len()
        invariant
            i <= s@.len(),
            n <= i,
            n as nat == count_char(s@.take(i as int), c),
        decreases s@.len() - i,
    {
        proof {
            assert(s@.take(i + 1).drop_last() =~= s@.take(i as int));
        }
        if s[i] == c {
            n = n + 1;
        }
        i = i + 1;
    }
    proof {
        assert(s@.take(s@.len() as int) =~= s@);
    }
    n
}

proof fn lemma_count_matches_bound(s: Seq<char>, pat: Seq<char>, i: int)
    requires
        pat.len() > 0,
        0 <= i <= s.len(),
    ensures
        count_matches(s, pat, i) * pat.len() <= s.len() - i,
    decreases s.len() + 1 - i,
{
    crate::text::lemma_find_from(s, pat, i);
    match find_from(s, pat, i) {
        Some(k) => {
            let j = k + pat.len();
            lemma_count_matches_bound(s, pat, j);
            let c = count_matches(s, pat, j);
            assert(count_matches(s, pat, i) == 1 + c);
            assert((1 + c) * pat.len() == pat.len() + c * pat.len()) by (nonlinear_arith);
            assert(k + pat.len() <= s.len());
        },
        None => {},
    }
}

fn matches_count(s: &Vec<char>, pat: &str) -> (n: usize)
    requires
        pat@.len() > 0,
    ensures
        n as nat == count_matches(s@, pat@, 0),
{
    let p = to_chars(pat);
    let mut n: usize = 0;
    let mut i: usize = 0;
    loop
        invariant
            p@ == pat@,
            p@.len() > 0,
            i <= s@.len(),
            n <= i,
            count_matches(s@, pat@, 0) == n + count_matches(s@, pat@, i as int),
        decreases s@.len() + 1 - i,
    {
        match crate::text::find_exec(s.as_slice(), p.as_slice(), i) {
            Some(k) => {
                proof {
                    crate::text::lemma_find_from(s@, pat@, i as int);
                    assert(k + p@.len() <= s@.len());
                    assert(s@.len() == s.len());
                    assert(count_matches(s@, pat@, i as int) == 1 + count_matches(
                        s@,
                        pat@,
                        k + p@.len(),
                    ));
                }
                n = n + 1;
                i = k + p.len();
            },
            None => {
                return n;
            },
        }
    }
}

fn str_starts(s: &Vec<char>, p: &str) -> (b: bool)
    ensures
        b == starts_with(s@, p@),
{
    let pv = to_chars(p);
    crate::text::starts_with_exec(s.as_slice(), pv.as_slice())
}

fn str_contains(s: &Vec<char>, p: &str) -> (b: bool)
    ensures
        b == contains(s@, p@),
{
    let pv = to_chars(p);
    crate::text::contains_exec(s.as_slice(), pv.as_slice())
}

/// The quality signals of a chunk's text.
pub fn text_quality_signals(text: &str) -> (r: TextQualitySignals)
    ensures
        signals_match(r, text@),
{
    let t = crate::text::trim_str(text);
    let tv = to_chars(t.as_str());
    let lower = to_lowercase(t.as_str());
    let lv = to_chars(lower.as_str());
    let ws = crate::note::split_words(&tv);
    let ghost wv = crate::text::views(ws@);
    let mut word_count: usize = 0;
    let mut normal: Vec<String> = Vec::new();
    let mut unique: Vec<String> = Vec::new();
    let mut i: usize = 0;
    while i < ws.len()
        invariant
            i <= ws@.len(),
            wv == crate::text::views(ws@),
            wv == words(t@),
            wv.len() == ws@.len(),
            word_count <= i,
            word_count as nat == count_text_words(wv.take(i as int)),
            string_views(normal@) == normalized_words(wv.take(i as int)),
            string_views(unique@) == distinct_words(normalized_words(wv.take(i as int))),
        decreases ws@.len() - i,
    {
        let w = &ws[i];
        proof {
            assert(wv[i as int] == w@);
            assert(wv.take(i + 1).drop_last() =~= wv.take(i as int));
            assert(wv.take(i + 1).last() == w@);
        }
        if word_has_alnum(w) {
            word_count = word_count + 1;
        }
        let stripped = crate::text::trim_set_string(w.as_slice(), 0, w.len(), CharSet::NotAlphanumeric);
        proof {
            assert(w@.subrange(0, w@.len() as int) =~= w@);
        }
        let norm = to_lowercase(stripped.as_str());
        if !norm.as_str().is_empty() {
            let ghost old_normal = string_views(normal@);
            let ghost old_unique = string_views(unique@);
            proof {
                assert(norm@.len() > 0);
            }
            if !crate::note::contains_string(&unique, &norm) {
                let copy = crate::text::copy_string(norm.as_str());
                unique.push(copy);
                proof {
                    assert(string_views(unique@) =~= old_unique.push(norm@));
                }
            }
            normal.push(norm);
            proof {
                assert(string_views(normal@) =~= old_normal.push(normalized_word(w@)));
                let nw = normalized_words(wv.take(i + 1));
                assert(nw == old_normal.push(normalized_word(w@)));
                assert(nw.drop_last() =~= old_normal);
            }
        } else {
            proof {
                assert(norm@.len() == 0);
            }
        }
        i = i + 1;
    }
    proof {
        assert(wv.take(ws@.len() as int) =~= wv);
        reveal_strlit("http://");
        reveal_strlit("https://");
    }
    let url_count = matches_count(&lv, "http://");
    let https_count = matches_count(&lv, "https://");
    proof {
        lemma_count_matches_bound(lv@, "http://"@, 0);
        lemma_count_matches_bound(lv@, "https://"@, 0);
        assert(url_count + https_count <= lv@.len()) by (nonlinear_arith)
            requires
                url_count * 7 <= lv@.len(),
                https_count * 8 <= lv@.len(),
        ;
        assert(lv@.len() == lv.len());
    }
    let urls: usize = url_count + https_count;
    TextQualitySignals {
        blank: tv.len() == 0,
        word_count,
        char_count: visible_count(&tv),
        unique_words: unique.len(),
        url_count: urls,
        email_marker_count: char_count_of(&lv, '@'),
        excalidraw_stub: str_contains(&lv, "switch to excalidraw view") || str_contains(
            &lv,
            "excalidraw view",
        ),
        mail_header: str_starts(&lv, "**aan:**") || str_starts(&lv, "aan:") || str_starts(
            &lv,
            "from:",
        ),
    }
}


/// A text whose trimmed, lowercased form opens with `from:`, `aan:` or
/// `**aan:**` is flagged as a mail header, and no other text is.
pub proof fn lemma_mail_header_openings(r: TextQualitySignals, text: Seq<char>)
    requires
        signals_match(r, text),
    ensures
        starts_with(unicode_lowercase(trim(text)), "from:"@) ==> r.mail_header,
        starts_with(unicode_lowercase(trim(text)), "aan:"@) ==> r.mail_header,
        starts_with(unicode_lowercase(trim(text)), "**aan:**"@) ==> r.mail_header,
        r.mail_header ==> starts_with(unicode_lowercase(trim(text)), "from:"@) || starts_with(
            unicode_lowercase(trim(text)),
            "aan:"@,
        ) || starts_with(unicode_lowercase(trim(text)), "**aan:**"@),
{
}

} // verus!
