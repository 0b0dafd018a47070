//! Markdown note parsing: frontmatter, heading sections, WikiLinks, tags.
use vstd::prelude::*;

use crate::ids::decimal;
use crate::ids::push_decimal;
use crate::ids::stable_hash;
use crate::ids::stable_hash_spec;
use crate::ids::stable_id;
use crate::ids::stable_id_spec;
use crate::text::copy_string;
use crate::text::find_char;
use crate::text::find_char_exec;
use crate::text::lemma_find_char;
use crate::text::lines;
use crate::text::lines_exec;
use crate::text::push_char;
use crate::text::push_str;
use crate::text::skip_start;
use crate::text::skip_start_exec;
use crate::text::string_of;
use crate::text::to_chars;
use crate::text::trim;
use crate::text::trim_bounds;
use crate::text::trim_set;
use crate::text::trim_set_string;
use crate::text::views;
use crate::text::CharSet;

verus! {

// ---------------------------------------------------------------------------
// Records
// ---------------------------------------------------------------------------

#[derive(Debug, Clone, PartialEq, Eq)]
pub struct LinkRecord {
    pub source_note_id: String,
    pub target: String,
    pub raw: String,
}

impl View for LinkRecord {
    type V = (Seq<char>, Seq<char>, Seq<char>);

    open spec fn view(&self) -> Self::V {
        (self.source_note_id@, self.target@, self.raw@)
    }
}

/// One heading-delimited section of a note. Its human relevance score is the
/// note's (see `RelevanceSignal`).
#[derive(Debug, Clone, PartialEq, Eq)]
pub struct SectionRecord {
    pub id: String,
    pub note_id: String,
    pub heading_path: String,
    pub level: u8,
    pub text: String,
    pub content_hash: String,
}

impl View for SectionRecord {
    type V = (Seq<char>, Seq<char>, Seq<char>, u8, Seq<char>, Seq<char>);

    open spec fn view(&self) -> Self::V {
        (self.id@, self.note_id@, self.heading_path@, self.level, self.text@, self.content_hash@)
    }
}

pub open spec fn pair_views(v: Seq<(String, String)>) -> Seq<(Seq<char>, Seq<char>)> {
    v.map_values(|p: (String, String)| (p.0@, p.1@))
}

pub open spec fn section_views(v: Seq<SectionRecord>) -> Seq<
    (Seq<char>, Seq<char>, Seq<char>, u8, Seq<char>, Seq<char>),
> {
    v.map_values(|r: SectionRecord| r@)
}

pub open spec fn link_views(v: Seq<LinkRecord>) -> Seq<(Seq<char>, Seq<char>, Seq<char>)> {
    v.map_values(|r: LinkRecord| r@)
}

pub open spec fn string_views(v: Seq<String>) -> Seq<Seq<char>> {
    v.map_values(|s: String| s@)
}

// ---------------------------------------------------------------------------
// Frontmatter
// ---------------------------------------------------------------------------

pub open spec fn frontmatter_open() -> Seq<char> {
    seq!['-', '-', '-', '\n']
}

pub open spec fn frontmatter_close() -> Seq<char> {
    seq!['\n', '-', '-', '-', '\n']
}

/// A frontmatter line `key: value` as a pair: the key trimmed, the value
/// trimmed and stripped of surrounding double quotes. Lines without `:` give
/// no pair.
pub open spec fn frontmatter_pair(line: Seq<char>) -> Option<(Seq<char>, Seq<char>)> {
    let i = find_char(line, ':', 0);
    if i < line.len() {
        Some(
            (
                trim(line.subrange(0, i)),
                trim_set(trim(line.subrange(i + 1, line.len() as int)), CharSet::DoubleQuote),
            ),
        )
    } else {
        None
    }
}

pub open spec fn frontmatter_pairs(ls: Seq<Seq<char>>) -> Seq<(Seq<char>, Seq<char>)>
    decreases ls.len(),
{
    if ls.len() == 0 {
        seq![]
    } else {
        let acc = frontmatter_pairs(ls.drop_last());
        match frontmatter_pair(ls.last()) {
            Some(p) => acc.push(p),
            None => acc,
        }
    }
}

/// Where the frontmatter block of `content` closes: the index of the closing
/// `\n---\n` within `content[4..]`, when `content` opens with `---\n`.
pub open spec fn frontmatter_end(content: Seq<char>) -> Option<int> {
    if crate::text::starts_with(content, frontmatter_open()) {
        crate::text::find_from(
            content.subrange(4, content.len() as int),
            frontmatter_close(),
            0,
        )
    } else {
        None
    }
}

/// The frontmatter pairs of `content`.
pub open spec fn frontmatter_spec(content: Seq<char>) -> Seq<(Seq<char>, Seq<char>)> {
    match frontmatter_end(content) {
        Some(e) => frontmatter_pairs(lines(content.subrange(4, 4 + e))),
        None => seq![],
    }
}

/// The body of `content`: what follows the frontmatter block, or all of it.
pub open spec fn body_spec(content: Seq<char>) -> Seq<char> {
    match frontmatter_end(content) {
        Some(e) => content.subrange(4 + e + 5, content.len() as int),
        None => content,
    }
}

fn frontmatter_pairs_exec(ls: &Vec<Vec<char>>) -> (r: Vec<(String, String)>)
    ensures
        pair_views(r@) == frontmatter_pairs(views(ls@)),
{
    let mut out: Vec<(String, String)> = Vec::new();
    let mut k: usize = 0;
    while k < ls.len()
        invariant
            k <= ls@.len(),
            pair_views(out@) == frontmatter_pairs(views(ls@).subrange(0, k as int)),
        decreases ls@.len() - k,
    {
        let line = &ls[k];
        let i = find_char_exec(line, ':', 0);
        let ghost old_out = out@;
        proof {
            lemma_find_char(line@, ':', 0);
            assert(views(ls@).subrange(0, k + 1).drop_last() =~= views(ls@).subrange(0, k as int));
            assert(views(ls@).subrange(0, k + 1).last() == line@);
        }
        if i < line.len() {
            let key = trim_set_string(line, 0, i, CharSet::Whitespace);
            let (a, b) = trim_bounds(line, i + 1, line.len(), CharSet::Whitespace);
            let value = trim_set_string(line, a, b, CharSet::DoubleQuote);
            out.push((key, value));
            proof {
                assert(pair_views(out@) =~= pair_views(old_out).push((key@, value@)));
            }
        }
        k = k + 1;
    }
    proof {
        assert(views(ls@).subrange(0, ls@.len() as int) =~= views(ls@));
    }
    out
}

/// The frontmatter pairs of `content` and the index where its body starts.
pub fn parse_frontmatter(content: &Vec<char>) -> (r: (Vec<(String, String)>, usize))
    ensures
        pair_views(r.0@) == frontmatter_spec(content@),
        r.1 <= content@.len(),
        content@.subrange(r.1 as int, content@.len() as int) == body_spec(content@),
{
    let mut open: Vec<char> = Vec::new();
    open.push('-');
    open.push('-');
    open.push('-');
    open.push('\n');
    proof {
        assert(open@ =~= frontmatter_open());
        assert(content@.subrange(0, content@.len() as int) =~= content@);
    }
    if !crate::text::starts_with_exec(content, &open) {
        return (Vec::new(), 0);
    }
    let mut rest: Vec<char> = Vec::new();
    let mut k: usize = 4;
    while k < content.len()
        invariant
            4 <= k <= content@.len(),
            rest@ == content@.subrange(4, k as int),
        decreases content@.len() - k,
    {
        rest.push(content[k]);
        proof {
            assert(content@.subrange(4, k + 1) =~= content@.subrange(4, k as int).push(
                content@[k as int],
            ));
        }
        k = k + 1;
    }
    let mut close: Vec<char> = Vec::new();
    close.push('\n');
    close.push('-');
    close.push('-');
    close.push('-');
    close.push('\n');
    proof {
        assert(close@ =~= frontmatter_close());
    }
    match crate::text::find_exec(&rest, &close, 0) {
        Some(e) => {
            proof {
                crate::text::lemma_find_from(rest@, close@, 0);
            }
            let mut raw: Vec<char> = Vec::new();
            let mut j: usize = 0;
            while j < e
                invariant
                    j <= e,
                    e + 5 <= rest@.len(),
                    raw@ == rest@.subrange(0, j as int),
                decreases e - j,
            {
                raw.push(rest[j]);
                proof {
                    assert(rest@.subrange(0, j + 1) =~= rest@.subrange(0, j as int).push(
                        rest@[j as int],
                    ));
                }
                j = j + 1;
            }
            let ls = lines_exec(&raw);
            let pairs = frontmatter_pairs_exec(&ls);
            proof {
                assert(raw@ =~= content@.subrange(4, 4 + e));
                assert(content@.subrange(4 + e + 5, content@.len() as int) =~= content@.subrange(
                    (4 + e + 5) as int,
                    content@.len() as int,
                ));
            }
            (pairs, 4 + e + 5)
        },
        None => (Vec::new(), 0),
    }
}

// ---------------------------------------------------------------------------
// Headings and sections
// ---------------------------------------------------------------------------

/// A Markdown ATX heading line: one to six `#` after leading white space,
/// then a space; the level and the trimmed heading text.
pub open spec fn heading_spec(line: Seq<char>) -> Option<(u8, Seq<char>)> {
    let t = crate::text::trim_start_set(line, CharSet::Whitespace);
    let h = skip_start(t, CharSet::Hash, 0);
    if h == 0 || h > 6 || !(h < t.len() && t[h] == ' ') {
        None
    } else {
        Some((h as u8, trim(t.subrange(h + 1, t.len() as int))))
    }
}

/// The heading level and text of `line`, if it is a heading.
pub fn parse_heading(line: &Vec<char>) -> (r: Option<(u8, String)>)
    ensures
        match r {
            Some((l, h)) => heading_spec(line@) == Some((l, h@)),
            None => heading_spec(line@) is None,
        },
{
    let a = skip_start_exec(line, CharSet::Whitespace, 0);
    let ghost t = crate::text::trim_start_set(line@, CharSet::Whitespace);
    proof {
        crate::text::lemma_skip_start_bounds(line@, CharSet::Whitespace, 0);
    }
    let e = skip_start_exec(line, CharSet::Hash, a);
    proof {
        crate::text::lemma_skip_start_bounds(line@, CharSet::Hash, a as int);
        crate::text::lemma_skip_start_bounds(t, CharSet::Hash, 0);
        lemma_skip_start_shift(line@, CharSet::Hash, a as int);
    }
    let h = e - a;
    if h == 0 || h > 6 || !(e < line.len() && line[e] == ' ') {
        proof {
            if e < line@.len() {
                assert(t[h as int] == line@[e as int]);
            }
        }
        return None;
    }
    let text = trim_set_string(line, e + 1, line.len(), CharSet::Whitespace);
    proof {
        assert(t[h as int] == line@[e as int]);
        assert(t.subrange(h + 1, t.len() as int) =~= line@.subrange(e + 1, line@.len() as int));
    }
    Some((h as u8, text))
}

/// `skip_start` from `a` in `s` is `a` plus `skip_start` from 0 in `s[a..]`.
pub proof fn lemma_skip_start_shift(s: Seq<char>, set: CharSet, a: int)
    requires
        0 <= a <= s.len(),
    ensures
        skip_start(s.subrange(a, s.len() as int), set, 0) == skip_start(s, set, a) - a,
{
    let t = s.subrange(a, s.len() as int);
    crate::text::lemma_skip_start_bounds(s, set, a);
    crate::text::lemma_skip_start_bounds(t, set, 0);
    let x = skip_start(s, set, a);
    let y = skip_start(t, set, 0);
    if y + a < x {
        assert(t[y] == s[y + a]);
    } else if y + a > x {
        assert(t[x - a] == s[x]);
    }
}

pub open spec fn root_heading() -> Seq<char> {
    seq!['r', 'o', 'o', 't']
}

/// The text from which a section id is hashed:
/// `note_id:heading:ordinal:content_hash`.
pub open spec fn section_key(note_id: Seq<char>, heading: Seq<char>, index: nat, hash: Seq<char>) -> Seq<
    char,
> {
    note_id + seq![':'] + heading + seq![':'] + decimal(index) + seq![':'] + hash
}

pub open spec fn section_view(note_id: Seq<char>, heading: Seq<char>, level: u8, text: Seq<char>, index: nat) -> (
    Seq<char>,
    Seq<char>,
    Seq<char>,
    u8,
    Seq<char>,
    Seq<char>,
) {
    (
        stable_id_spec(
            seq!['c', 'h', 'u', 'n', 'k'],
            section_key(note_id, heading, index, stable_hash_spec(text)),
        ),
        note_id,
        heading,
        level,
        text,
        stable_hash_spec(text),
    )
}

/// Closes the section gathered so far: it is kept unless it is the
/// untitled root section and holds only white space.
pub open spec fn close_section(
    out: Seq<(Seq<char>, Seq<char>, Seq<char>, u8, Seq<char>, Seq<char>)>,
    note_id: Seq<char>,
    heading: Seq<char>,
    level: u8,
    buffer: Seq<char>,
    index: nat,
) -> Seq<(Seq<char>, Seq<char>, Seq<char>, u8, Seq<char>, Seq<char>)> {
    let t = trim(buffer);
    if t.len() == 0 && heading == root_heading() {
        out
    } else {
        out.push(section_view(note_id, heading, level, t, index))
    }
}

/// The state of the section scanner after a run of lines: the ordinal of the
/// open section, its heading and level, its text so far, and the sections
/// already closed.
pub struct ScanState {
    pub index: nat,
    pub heading: Seq<char>,
    pub level: u8,
    pub buffer: Seq<char>,
    pub out: Seq<(Seq<char>, Seq<char>, Seq<char>, u8, Seq<char>, Seq<char>)>,
}

pub open spec fn scan_lines(note_id: Seq<char>, ls: Seq<Seq<char>>) -> ScanState
    decreases ls.len(),
{
    if ls.len() == 0 {
        ScanState { index: 0, heading: root_heading(), level: 0, buffer: seq![], out: seq![] }
    } else {
        let st = scan_lines(note_id, ls.drop_last());
        let line = ls.last();
        match heading_spec(line) {
            Some((lvl, h)) => ScanState {
                index: st.index + 1,
                heading: h,
                level: lvl,
                buffer: seq![],
                out: close_section(st.out, note_id, st.heading, st.level, st.buffer, st.index),
            },
            None => ScanState { buffer: st.buffer + line + seq!['\n'], ..st },
        }
    }
}

/// The sections of a note body: one per heading, plus the text before the
/// first heading when it is not blank.
pub open spec fn sections_spec(note_id: Seq<char>, body: Seq<char>) -> Seq<
    (Seq<char>, Seq<char>, Seq<char>, u8, Seq<char>, Seq<char>),
> {
    let st = scan_lines(note_id, lines(body));
    close_section(st.out, note_id, st.heading, st.level, st.buffer, st.index)
}

/// The ordinals of the sections that a run of lines has closed, in order.
pub open spec fn scan_ordinals(note_id: Seq<char>, ls: Seq<Seq<char>>) -> Seq<nat>
    decreases ls.len(),
{
    if ls.len() == 0 {
        seq![]
    } else {
        let st = scan_lines(note_id, ls.drop_last());
        let prev = scan_ordinals(note_id, ls.drop_last());
        match heading_spec(ls.last()) {
            Some(_) => close_ordinal(prev, st.heading, st.buffer, st.index),
            None => prev,
        }
    }
}

pub open spec fn close_ordinal(ords: Seq<nat>, heading: Seq<char>, buffer: Seq<char>, index: nat) -> Seq<nat> {
    if trim(buffer).len() == 0 && heading == root_heading() {
        ords
    } else {
        ords.push(index)
    }
}

/// The ordinal of each section of a note body: its place among the
/// heading-delimited parts of the body, counting skipped parts too.
pub open spec fn section_ordinals(note_id: Seq<char>, body: Seq<char>) -> Seq<nat> {
    let ls = lines(body);
    let st = scan_lines(note_id, ls);
    close_ordinal(scan_ordinals(note_id, ls), st.heading, st.buffer, st.index)
}

proof fn lemma_scan_ordinals(note_id: Seq<char>, ls: Seq<Seq<char>>)
    ensures
        ({
            let st = scan_lines(note_id, ls);
            let ords = scan_ordinals(note_id, ls);
            &&& ords.len() == st.out.len()
            &&& forall|i: int| 0 <= i < ords.len() ==> #[trigger] ords[i] < st.index
            &&& forall|i: int, j: int| 0 <= i < j < ords.len() ==> ords[i] < ords[j]
            &&& forall|i: int|
                0 <= i < ords.len() ==> #[trigger] st.out[i] == section_view(
                    note_id,
                    st.out[i].2,
                    st.out[i].3,
                    st.out[i].4,
                    ords[i],
                )
        }),
    decreases ls.len(),
{
    if ls.len() > 0 {
        lemma_scan_ordinals(note_id, ls.drop_last());
    }
}

proof fn lemma_no_colon_suffix(p: Seq<char>, q: Seq<char>, d1: Seq<char>, d2: Seq<char>)
    requires
        p + seq![':'] + d1 == q + seq![':'] + d2,
        forall|k: int| 0 <= k < d1.len() ==> crate::ids::is_dec_char(#[trigger] d1[k]),
        forall|k: int| 0 <= k < d2.len() ==> crate::ids::is_dec_char(#[trigger] d2[k]),
    ensures
        d1 == d2,
{
    let a = p + seq![':'] + d1;
    let b = q + seq![':'] + d2;
    if d1.len() < d2.len() {
        let k = d2.len() - d1.len() - 1;
        assert(a[a.len() - d1.len() - 1] == ':');
        assert(b[b.len() - d2.len() + k] == d2[k]);
        assert(crate::ids::is_dec_char(d2[k]));
    } else if d2.len() < d1.len() {
        let k = d1.len() - d2.len() - 1;
        assert(b[b.len() - d2.len() - 1] == ':');
        assert(a[a.len() - d1.len() + k] == d1[k]);
        assert(crate::ids::is_dec_char(d1[k]));
    } else {
        assert forall|k: int| 0 <= k < d1.len() implies d1[k] == d2[k] by {
            assert(a[a.len() - d1.len() + k] == d1[k]);
            assert(b[b.len() - d2.len() + k] == d2[k]);
        }
        assert(d1 =~= d2);
    }
}

proof fn lemma_dec_digit_injective(a: nat, b: nat)
    requires
        a < 10,
        b < 10,
        crate::ids::dec_digit(a) == crate::ids::dec_digit(b),
    ensures
        a == b,
{
    assert(crate::ids::dec_digit(a) as u32 == 48 + a);
    assert(crate::ids::dec_digit(b) as u32 == 48 + b);
}

proof fn lemma_decimal_injective(n: nat, m: nat)
    requires
        decimal(n) == decimal(m),
    ensures
        n == m,
    decreases n,
{
    crate::ids::lemma_decimal(n / 10);
    crate::ids::lemma_decimal(m / 10);
    if n >= 10 && m >= 10 {
        assert(decimal(n) == decimal(n / 10).push(crate::ids::dec_digit(n % 10)));
        assert(decimal(m) == decimal(m / 10).push(crate::ids::dec_digit(m % 10)));
        assert(decimal(n / 10) =~= decimal(n).drop_last());
        assert(decimal(m / 10) =~= decimal(m).drop_last());
        lemma_decimal_injective(n / 10, m / 10);
        assert(decimal(n).last() == decimal(m).last());
        assert(decimal(n).last() == crate::ids::dec_digit(n % 10));
        assert(decimal(m).last() == crate::ids::dec_digit(m % 10));
        lemma_dec_digit_injective(n % 10, m % 10);
    } else if n < 10 && m < 10 {
        assert(decimal(n) == seq![crate::ids::dec_digit(n)]);
        assert(decimal(m) == seq![crate::ids::dec_digit(m)]);
        assert(decimal(n)[0] == decimal(m)[0]);
        assert(decimal(n)[0] == crate::ids::dec_digit(n));
        assert(decimal(m)[0] == crate::ids::dec_digit(m));
        lemma_dec_digit_injective(n, m);
    } else if n < 10 {
        assert(decimal(m) == decimal(m / 10).push(crate::ids::dec_digit(m % 10)));
        assert(decimal(n).len() != decimal(m).len());
    } else {
        assert(decimal(n) == decimal(n / 10).push(crate::ids::dec_digit(n % 10)));
        assert(decimal(n).len() != decimal(m).len());
    }
}

/// The key of a section determines its ordinal.
proof fn lemma_section_key_ordinal(
    note_id: Seq<char>,
    h1: Seq<char>,
    i1: nat,
    x1: Seq<char>,
    h2: Seq<char>,
    i2: nat,
    x2: Seq<char>,
)
    requires
        x1.len() == 16,
        x2.len() == 16,
        section_key(note_id, h1, i1, x1) == section_key(note_id, h2, i2, x2),
    ensures
        i1 == i2,
{
    let k1 = section_key(note_id, h1, i1, x1);
    let k2 = section_key(note_id, h2, i2, x2);
    let p1 = note_id + seq![':'] + h1;
    let p2 = note_id + seq![':'] + h2;
    assert(k1 == (p1 + seq![':'] + decimal(i1)) + (seq![':'] + x1));
    assert(k2 == (p2 + seq![':'] + decimal(i2)) + (seq![':'] + x2));
    let n = k1.len() - 17;
    assert(k1.take(n) =~= p1 + seq![':'] + decimal(i1));
    assert(k2.take(n) =~= p2 + seq![':'] + decimal(i2));
    crate::ids::lemma_decimal(i1);
    crate::ids::lemma_decimal(i2);
    lemma_no_colon_suffix(p1, p2, decimal(i1), decimal(i2));
    lemma_decimal_injective(i1, i2);
}

/// Section ids never repeat within a note for a reason that needs no luck:
/// each section's id is the hash of a key that carries the section's
/// ordinal, and the ordinals strictly increase, so the keys of two sections
/// of one note always differ, even for repeated headings with equal text.
pub proof fn lemma_section_keys_distinct(note_id: Seq<char>, body: Seq<char>)
    ensures
        ({
            let secs = sections_spec(note_id, body);
            let ords = section_ordinals(note_id, body);
            &&& ords.len() == secs.len()
            &&& forall|i: int, j: int| 0 <= i < j < ords.len() ==> ords[i] < ords[j]
            &&& forall|i: int|
                0 <= i < secs.len() ==> #[trigger] secs[i].0 == stable_id_spec(
                    "chunk"@,
                    section_key(note_id, secs[i].2, ords[i], secs[i].5),
                )
            &&& forall|i: int, j: int|
                0 <= i < j < secs.len() ==> section_key(note_id, secs[i].2, ords[i], secs[i].5)
                    != section_key(note_id, secs[j].2, ords[j], secs[j].5)
        }),
{
    let ls = lines(body);
    let st = scan_lines(note_id, ls);
    lemma_scan_ordinals(note_id, ls);
    let secs = sections_spec(note_id, body);
    let ords = section_ordinals(note_id, body);
    reveal_strlit("chunk");
    assert("chunk"@ =~= seq!['c', 'h', 'u', 'n', 'k']);
    assert forall|i: int| 0 <= i < secs.len() implies #[trigger] secs[i] == section_view(
        note_id,
        secs[i].2,
        secs[i].3,
        secs[i].4,
        ords[i],
    ) by {
        if i < st.out.len() {
            assert(secs[i] == st.out[i]);
            assert(ords[i] == scan_ordinals(note_id, ls)[i]);
        }
    }
    assert forall|i: int, j: int| 0 <= i < j < secs.len() implies section_key(
        note_id,
        secs[i].2,
        ords[i],
        secs[i].5,
    ) != section_key(note_id, secs[j].2, ords[j], secs[j].5) by {
        assert(secs[i] == section_view(note_id, secs[i].2, secs[i].3, secs[i].4, ords[i]));
        assert(secs[j] == section_view(note_id, secs[j].2, secs[j].3, secs[j].4, ords[j]));
        crate::ids::lemma_hex_fixed(fnv_of(secs[i].4), 16);
        crate::ids::lemma_hex_fixed(fnv_of(secs[j].4), 16);
        if section_key(note_id, secs[i].2, ords[i], secs[i].5) == section_key(
            note_id,
            secs[j].2,
            ords[j],
            secs[j].5,
        ) {
            lemma_section_key_ordinal(
                note_id,
                secs[i].2,
                ords[i],
                secs[i].5,
                secs[j].2,
                ords[j],
                secs[j].5,
            );
        }
    }
}

/// Every section of a note carries the note's id, and its id is derived from
/// that note id: a chunk can always be traced back to its note.
pub proof fn lemma_sections_belong_to_note(note_id: Seq<char>, body: Seq<char>)
    ensures
        forall|i: int|
            0 <= i < sections_spec(note_id, body).len() ==> (#[trigger] sections_spec(
                note_id,
                body,
            )[i]).1 == note_id,
{
    let ls = lines(body);
    let st = scan_lines(note_id, ls);
    lemma_scan_ordinals(note_id, ls);
    let secs = sections_spec(note_id, body);
    assert forall|i: int| 0 <= i < secs.len() implies (#[trigger] secs[i]).1 == note_id by {
        if i < st.out.len() {
            assert(secs[i] == st.out[i]);
        }
    }
}

/// Ids are stable across re-indexing: two records of the same note text at
/// the same path in the same vault have the same note id and the same section
/// ids, whatever the modification times.
pub proof fn lemma_ids_ignore_modification_time(
    a: NoteRecord,
    b: NoteRecord,
    vault_id: Seq<char>,
    path: Seq<char>,
    content: Seq<char>,
    modified_a: u64,
    modified_b: u64,
)
    requires
        note_spec(a, vault_id, path, content, modified_a),
        note_spec(b, vault_id, path, content, modified_b),
    ensures
        a.id@ == b.id@,
        section_views(a.sections@) == section_views(b.sections@),
        link_views(a.links@) == link_views(b.links@),
{
}

spec fn fnv_of(text: Seq<char>) -> nat {
    crate::ids::fnv1a(vstd::utf8::encode_utf8(text)) as nat
}

fn push_section(
    sections: &mut Vec<SectionRecord>,
    note_id: &str,
    heading: &str,
    level: u8,
    text: &Vec<char>,
    section_index: usize,
)
    ensures
        section_views(final(sections)@) == close_section(
            section_views(old(sections)@),
            note_id@,
            heading@,
            level,
            text@,
            section_index as nat,
        ),
{
    let trimmed = trim_set_string(text, 0, text.len(), CharSet::Whitespace);
    proof {
        assert(text@.subrange(0, text@.len() as int) =~= text@);
    }
    let hv = to_chars(heading);
    let mut root: Vec<char> = Vec::new();
    root.push('r');
    root.push('o');
    root.push('o');
    root.push('t');
    proof {
        assert(root@ =~= root_heading());
    }
    if trimmed.as_str().is_empty() && crate::text::chars_eq(&hv, &root) {
        return;
    }
    let content_hash = stable_hash(trimmed.as_str());
    let mut key = copy_string(note_id);
    push_char(&mut key, ':');
    push_str(&mut key, heading);
    push_char(&mut key, ':');
    push_decimal(&mut key, section_index as u64);
    push_char(&mut key, ':');
    push_str(&mut key, content_hash.as_str());
    let id = stable_id("chunk", key.as_str());
    proof {
        reveal_strlit("chunk");
        assert("chunk"@ =~= seq!['c', 'h', 'u', 'n', 'k']);
        assert(key@ =~= section_key(note_id@, heading@, section_index as nat, content_hash@));
    }
    let ghost old_sections = sections@;
    sections.push(
        SectionRecord {
            id,
            note_id: copy_string(note_id),
            heading_path: copy_string(heading),
            level,
            text: trimmed,
            content_hash,
        },
    );
    proof {
        assert(section_views(sections@) =~= section_views(old_sections).push(
            section_view(note_id@, heading@, level, trim(text@), section_index as nat),
        ));
    }
}

/// The sections of a note body.
pub fn parse_sections(note_id: &str, body: &Vec<char>) -> (r: Vec<SectionRecord>)
    ensures
        section_views(r@) == sections_spec(note_id@, body@),
{
    let ls = lines_exec(body);
    let mut sections: Vec<SectionRecord> = Vec::new();
    let mut section_index: usize = 0;
    let mut current_heading = copy_string("root");
    let mut current_level: u8 = 0;
    let mut buffer: Vec<char> = Vec::new();
    proof {
        reveal_strlit("root");
        assert(current_heading@ =~= root_heading());
        assert(views(ls@).subrange(0, 0) =~= Seq::<Seq<char>>::empty());
        assert(section_views(sections@) =~= Seq::empty());
    }
    let mut i: usize = 0;
    while i < ls.len()
        invariant
            i <= ls@.len(),
            section_index <= i,
            scan_lines(note_id@, views(ls@).subrange(0, i as int)) == (ScanState {
                index: section_index as nat,
                heading: current_heading@,
                level: current_level,
                buffer: buffer@,
                out: section_views(sections@),
            }),
        decreases ls@.len() - i,
    {
        let line = &ls[i];
        proof {
            assert(views(ls@).subrange(0, i + 1).drop_last() =~= views(ls@).subrange(0, i as int));
            assert(views(ls@).subrange(0, i + 1).last() == line@);
        }
        match parse_heading(line) {
            Some((level, heading)) => {
                push_section(
                    &mut sections,
                    note_id,
                    current_heading.as_str(),
                    current_level,
                    &buffer,
                    section_index,
                );
                section_index = section_index + 1;
                current_heading = heading;
                current_level = level;
                buffer = Vec::new();
                proof {
                    assert(buffer@ =~= Seq::<char>::empty());
                }
            },
            None => {
                crate::text::extend_chars(&mut buffer, line);
                buffer.push('\n');
                proof {
                    assert(buffer@ =~= scan_lines(note_id@, views(ls@).subrange(0, i as int)).buffer
                        + line@ + seq!['\n']);
                }
            },
        }
        i = i + 1;
    }
    push_section(
        &mut sections,
        note_id,
        current_heading.as_str(),
        current_level,
        &buffer,
        section_index,
    );
    proof {
        assert(views(ls@).subrange(0, ls@.len() as int) =~= views(ls@));
    }
    sections
}

// ---------------------------------------------------------------------------
// WikiLinks
// ---------------------------------------------------------------------------

pub open spec fn link_open() -> Seq<char> {
    seq!['[', '[']
}

pub open spec fn link_close() -> Seq<char> {
    seq![']', ']']
}

/// The link record for `[[raw]]`: its target is the text before any `|`
/// alias, trimmed.
pub open spec fn link_view(note_id: Seq<char>, raw: Seq<char>) -> (Seq<char>, Seq<char>, Seq<char>) {
    (note_id, trim(raw.subrange(0, find_char(raw, '|', 0))), link_open() + raw + link_close())
}

/// The `[[...]]` links of `s`, in order; an opening `[[` without a closing
/// `]]` ends the search.
pub open spec fn wikilinks_spec(note_id: Seq<char>, s: Seq<char>) -> Seq<
    (Seq<char>, Seq<char>, Seq<char>),
>
    decreases s.len(),
{
    match crate::text::find_from(s, link_open(), 0) {
        None => seq![],
        Some(i) => {
            proof {
                crate::text::lemma_find_from(s, link_open(), 0);
            }
            let r = s.subrange(i + 2, s.len() as int);
            match crate::text::find_from(r, link_close(), 0) {
                None => seq![],
                Some(j) => {
                    proof {
                        crate::text::lemma_find_from(r, link_close(), 0);
                    }
                    seq![link_view(note_id, r.subrange(0, j))] + wikilinks_spec(
                        note_id,
                        r.subrange(j + 2, r.len() as int),
                    )
                },
            }
        },
    }
}

fn copy_range(s: &Vec<char>, lo: usize, hi: usize) -> (v: Vec<char>)
    requires
        lo <= hi <= s@.len(),
    ensures
        v@ == s@.subrange(lo as int, hi as int),
{
    let mut v: Vec<char> = Vec::new();
    let mut k = lo;
    while k < hi
        invariant
            lo <= k <= hi <= s@.len(),
            v@ == s@.subrange(lo as int, k as int),
        decreases hi - k,
    {
        v.push(s[k]);
        proof {
            assert(s@.subrange(lo as int, k + 1) =~= s@.subrange(lo as int, k as int).push(
                s@[k as int],
            ));
        }
        k = k + 1;
    }
    v
}

fn make_link(note_id: &str, raw: &Vec<char>) -> (l: LinkRecord)
    ensures
        l@ == link_view(note_id@, raw@),
{
    let bar = find_char_exec(raw, '|', 0);
    proof {
        lemma_find_char(raw@, '|', 0);
    }
    let target = trim_set_string(raw, 0, bar, CharSet::Whitespace);
    let mut text = String::new();
    push_char(&mut text, '[');
    push_char(&mut text, '[');
    let raw_str = crate::text::string_of_all(raw);
    push_str(&mut text, raw_str.as_str());
    push_char(&mut text, ']');
    push_char(&mut text, ']');
    proof {
        assert(text@ =~= link_open() + raw@ + link_close());
    }
    LinkRecord { source_note_id: copy_string(note_id), target, raw: text }
}

/// The WikiLinks of `content`.
pub fn extract_wikilinks(note_id: &str, content: &Vec<char>) -> (r: Vec<LinkRecord>)
    ensures
        link_views(r@) == wikilinks_spec(note_id@, content@),
{
    let mut open: Vec<char> = Vec::new();
    open.push('[');
    open.push('[');
    let mut close: Vec<char> = Vec::new();
    close.push(']');
    close.push(']');
    proof {
        assert(open@ =~= link_open());
        assert(close@ =~= link_close());
        assert(content@.subrange(0, content@.len() as int) =~= content@);
    }
    let mut links: Vec<LinkRecord> = Vec::new();
    let mut p: usize = 0;
    let n = content.len();
    loop
        invariant
            n == content@.len(),
            p <= content@.len(),
            open@ == link_open(),
            close@ == link_close(),
            link_views(links@) + wikilinks_spec(
                note_id@,
                content@.subrange(p as int, content@.len() as int),
            ) == wikilinks_spec(note_id@, content@),
        decreases content@.len() + 1 - p,
    {
        let ghost s = content@.subrange(p as int, content@.len() as int);
        proof {
            crate::text::lemma_find_from_shift(content@, link_open(), p as int, 0);
            crate::text::lemma_find_from(content@, link_open(), p as int);
        }
        let start = match crate::text::find_exec(content, &open, p) {
            Some(start) => start,
            None => {
                proof {
                    assert(wikilinks_spec(note_id@, s) == Seq::<(Seq<char>, Seq<char>, Seq<char>)>::empty());
                    assert(link_views(links@) + wikilinks_spec(note_id@, s) =~= link_views(links@));
                }
                return links;
            },
        };
        let body = start + 2;
        let ghost r = s.subrange(start - p + 2, s.len() as int);
        proof {
            assert(r =~= content@.subrange(body as int, content@.len() as int));
            crate::text::lemma_find_from_shift(content@, link_close(), body as int, 0);
            crate::text::lemma_find_from(content@, link_close(), body as int);
        }
        let end = match crate::text::find_exec(content, &close, body) {
            Some(end) => end,
            None => {
                proof {
                    assert(wikilinks_spec(note_id@, s) == Seq::<(Seq<char>, Seq<char>, Seq<char>)>::empty());
                    assert(link_views(links@) + wikilinks_spec(note_id@, s) =~= link_views(links@));
                }
                return links;
            },
        };
        let raw = copy_range(content, body, end);
        let link = make_link(note_id, &raw);
        let ghost old_links = links@;
        links.push(link);
        proof {
            let j = end - body;
            assert(r.subrange(0, j) =~= raw@);
            assert(r.subrange(j + 2, r.len() as int) =~= content@.subrange(
                end + 2,
                content@.len() as int,
            ));
            assert(link_views(links@) =~= link_views(old_links).push(link@));
            assert(wikilinks_spec(note_id@, s) == seq![link@] + wikilinks_spec(
                note_id@,
                content@.subrange(end + 2, content@.len() as int),
            ));
            assert(link_views(links@) + wikilinks_spec(
                note_id@,
                content@.subrange(end + 2, content@.len() as int),
            ) =~= link_views(old_links) + wikilinks_spec(note_id@, s));
        }
        p = end + 2;
    }
}

// ---------------------------------------------------------------------------
// Tags
// ---------------------------------------------------------------------------

/// `str::split_whitespace`: the maximal runs of non-white-space characters.
pub open spec fn words(s: Seq<char>) -> Seq<Seq<char>>
    decreases s.len(),
{
    let a = skip_start(s, CharSet::Whitespace, 0);
    if a >= s.len() {
        seq![]
    } else {
        let b = skip_start(s, CharSet::NonWhitespace, a);
        proof {
            crate::text::lemma_skip_start_bounds(s, CharSet::Whitespace, 0);
            crate::text::lemma_skip_start_bounds(s, CharSet::NonWhitespace, a);
        }
        seq![s.subrange(a, b)] + words(s.subrange(b, s.len() as int))
    }
}

pub open spec fn tag_char(c: char) -> bool {
    crate::text::unicode_alphanumeric(c) || c == '-' || c == '_' || c == '/'
}

/// The tag a word carries: the word stripped of surrounding `,.;()`, then of
/// a leading `#`; it must be non-empty and made of alphanumerics, `-`, `_`
/// and `/`.
pub open spec fn tag_of(word: Seq<char>) -> Option<Seq<char>> {
    let t = trim_set(word, CharSet::TagPunctuation);
    if t.len() > 0 && t[0] == '#' {
        let tag = t.subrange(1, t.len() as int);
        if tag.len() > 0 && forall|k: int| 0 <= k < tag.len() ==> tag_char(#[trigger] tag[k]) {
            Some(tag)
        } else {
            None
        }
    } else {
        None
    }
}

/// The tags of a run of words, each kept at its first occurrence.
pub open spec fn tags_of(ws: Seq<Seq<char>>) -> Seq<Seq<char>>
    decreases ws.len(),
{
    if ws.len() == 0 {
        seq![]
    } else {
        let acc = tags_of(ws.drop_last());
        match tag_of(ws.last()) {
            Some(t) => if acc.contains(t) {
                acc
            } else {
                acc.push(t)
            },
            None => acc,
        }
    }
}

pub open spec fn tags_spec(content: Seq<char>) -> Seq<Seq<char>> {
    tags_of(words(content))
}

fn tag_of_exec(s: &Vec<char>, lo: usize, hi: usize) -> (r: Option<String>)
    requires
        lo <= hi <= s@.len(),
    ensures
        match r {
            Some(t) => tag_of(s@.subrange(lo as int, hi as int)) == Some(t@),
            None => tag_of(s@.subrange(lo as int, hi as int)) is None,
        },
{
    let (a, b) = trim_bounds(s, lo, hi, CharSet::TagPunctuation);
    let ghost t = s@.subrange(a as int, b as int);
    if !(a < b && s[a] == '#') {
        return None;
    }
    if a + 1 == b {
        return None;
    }
    let mut k = a + 1;
    while k < b
        invariant
            a + 1 <= k <= b <= s@.len(),
            t == s@.subrange(a as int, b as int),
            t == trim_set(s@.subrange(lo as int, hi as int), CharSet::TagPunctuation),
            t.len() > 1 && t[0] == '#',
            forall|m: int| a + 1 <= m < k ==> tag_char(#[trigger] s@[m]),
        decreases b - k,
    {
        let c = s[k];
        if !(crate::text::char_is_alphanumeric(c) || c == '-' || c == '_' || c == '/') {
            proof {
                let tag = t.subrange(1, t.len() as int);
                assert(tag[k - a - 1] == c);
            }
            return None;
        }
        k = k + 1;
    }
    let tag = string_of(s, a + 1, b);
    proof {
        let tg = t.subrange(1, t.len() as int);
        assert(tg =~= s@.subrange(a + 1, b as int));
        assert forall|m: int| 0 <= m < tg.len() implies tag_char(#[trigger] tg[m]) by {
            assert(tg[m] == s@[a + 1 + m]);
        }
    }
    Some(tag)
}

pub(crate) fn contains_string(v: &Vec<String>, t: &String) -> (b: bool)
    ensures
        b == string_views(v@).contains(t@),
{
    let mut i: usize = 0;
    while i < v.len()
        invariant
            i <= v@.len(),
            forall|k: int| 0 <= k < i ==> v@[k]@ != t@,
        decreases v@.len() - i,
    {
        if v[i] == *t {
            proof {
                assert(string_views(v@)[i as int] == t@);
            }
            return true;
        }
        i = i + 1;
    }
    proof {
        if string_views(v@).contains(t@) {
            let k = choose|k: int| 0 <= k < string_views(v@).len() && string_views(v@)[k] == t@;
            assert(v@[k]@ == t@);
        }
    }
    false
}

/// The `#tags` of `content`, without repeats, in order of first appearance.
pub fn extract_tags(content: &Vec<char>) -> (r: Vec<String>)
    ensures
        string_views(r@) == tags_spec(content@),
{
    let mut tags: Vec<String> = Vec::new();
    let ghost mut seen: Seq<Seq<char>> = seq![];
    let mut p: usize = 0;
    proof {
        assert(content@.subrange(0, content@.len() as int) =~= content@);
        assert(seen + words(content@) =~= words(content@));
        assert(string_views(tags@) =~= Seq::<Seq<char>>::empty());
    }
    while p < content.len()
        invariant
            p <= content@.len(),
            seen + words(content@.subrange(p as int, content@.len() as int)) == words(content@),
            string_views(tags@) == tags_of(seen),
        decreases content@.len() - p,
    {
        let ghost s = content@.subrange(p as int, content@.len() as int);
        let a = skip_start_exec(content, CharSet::Whitespace, p);
        proof {
            lemma_skip_start_shift(content@, CharSet::Whitespace, p as int);
            crate::text::lemma_skip_start_bounds(content@, CharSet::Whitespace, p as int);
        }
        if a >= content.len() {
            proof {
                assert(words(s) =~= Seq::<Seq<char>>::empty());
                assert(content@.subrange(content@.len() as int, content@.len() as int) =~= Seq::<
                    char,
                >::empty());
                assert(words(Seq::<char>::empty()) =~= Seq::<Seq<char>>::empty());
                assert(seen + words(Seq::<char>::empty()) =~= seen + words(s));
            }
            p = content.len();
        } else {
            let b = skip_start_exec(content, CharSet::NonWhitespace, a);
            proof {
                lemma_skip_start_shift(content@, CharSet::NonWhitespace, a as int);
                crate::text::lemma_skip_start_bounds(content@, CharSet::NonWhitespace, a as int);
                let sa = skip_start(s, CharSet::Whitespace, 0);
                assert(sa == a - p);
                let s2 = s.subrange(sa, s.len() as int);
                assert(s2 =~= content@.subrange(a as int, content@.len() as int));
                lemma_skip_start_shift(s, CharSet::NonWhitespace, sa);
                assert(skip_start(s, CharSet::NonWhitespace, sa) == b - p);
                assert(s.subrange(a - p, b - p) =~= content@.subrange(a as int, b as int));
                assert(s.subrange(b - p, s.len() as int) =~= content@.subrange(
                    b as int,
                    content@.len() as int,
                ));
                assert(words(s) == seq![content@.subrange(a as int, b as int)] + words(
                    content@.subrange(b as int, content@.len() as int),
                ));
            }
            let ghost word = content@.subrange(a as int, b as int);
            let ghost old_tags = tags@;
            match tag_of_exec(content, a, b) {
                Some(t) => {
                    if !contains_string(&tags, &t) {
                        tags.push(t);
                        proof {
                            assert(string_views(tags@) =~= string_views(old_tags).push(word_tag(word)));
                        }
                    }
                },
                None => {},
            }
            proof {
                let seen2 = seen.push(word);
                assert(seen2.drop_last() =~= seen);
                assert(seen2 + words(content@.subrange(b as int, content@.len() as int)) =~= seen
                    + words(s));
                seen = seen2;
            }
            p = b;
        }
    }
    proof {
        assert(content@.subrange(p as int, content@.len() as int) =~= Seq::<char>::empty());
        assert(words(Seq::<char>::empty()) =~= Seq::<Seq<char>>::empty());
        assert(seen + words(Seq::<char>::empty()) =~= seen);
    }
    tags
}

/// `str::split_whitespace`: the words of `content`.
pub fn split_words(content: &Vec<char>) -> (r: Vec<Vec<char>>)
    ensures
        crate::text::views(r@) == words(content@),
{
    let mut out: Vec<Vec<char>> = Vec::new();
    let ghost mut seen: Seq<Seq<char>> = seq![];
    let mut p: usize = 0;
    proof {
        assert(content@.subrange(0, content@.len() as int) =~= content@);
        assert(seen + words(content@) =~= words(content@));
        assert(crate::text::views(out@) =~= seen);
    }
    while p < content.len()
        invariant
            p <= content@.len(),
            seen + words(content@.subrange(p as int, content@.len() as int)) == words(content@),
            crate::text::views(out@) == seen,
        decreases content@.len() - p,
    {
        let ghost s = content@.subrange(p as int, content@.len() as int);
        let a = skip_start_exec(content, CharSet::Whitespace, p);
        proof {
            lemma_skip_start_shift(content@, CharSet::Whitespace, p as int);
            crate::text::lemma_skip_start_bounds(content@, CharSet::Whitespace, p as int);
        }
        if a >= content.len() {
            proof {
                assert(words(s) =~= Seq::<Seq<char>>::empty());
                assert(content@.subrange(content@.len() as int, content@.len() as int) =~= Seq::<
                    char,
                >::empty());
                assert(words(Seq::<char>::empty()) =~= Seq::<Seq<char>>::empty());
                assert(seen + words(Seq::<char>::empty()) =~= seen + words(s));
            }
            p = content.len();
        } else {
            let b = skip_start_exec(content, CharSet::NonWhitespace, a);
            proof {
                lemma_skip_start_shift(content@, CharSet::NonWhitespace, a as int);
                crate::text::lemma_skip_start_bounds(content@, CharSet::NonWhitespace, a as int);
                let sa = skip_start(s, CharSet::Whitespace, 0);
                assert(sa == a - p);
                let s2 = s.subrange(sa, s.len() as int);
                assert(s2 =~= content@.subrange(a as int, content@.len() as int));
                lemma_skip_start_shift(s, CharSet::NonWhitespace, sa);
                assert(skip_start(s, CharSet::NonWhitespace, sa) == b - p);
                assert(s.subrange(a - p, b - p) =~= content@.subrange(a as int, b as int));
                assert(s.subrange(b - p, s.len() as int) =~= content@.subrange(
                    b as int,
                    content@.len() as int,
                ));
                assert(words(s) == seq![content@.subrange(a as int, b as int)] + words(
                    content@.subrange(b as int, content@.len() as int),
                ));
            }
            let ghost word = content@.subrange(a as int, b as int);
            let mut w: Vec<char> = Vec::new();
            let mut k = a;
            while k < b
                invariant
                    a <= k <= b <= content@.len(),
                    w@ == content@.subrange(a as int, k as int),
                decreases b - k,
            {
                w.push(content[k]);
                proof {
                    assert(content@.subrange(a as int, k + 1) =~= content@.subrange(
                        a as int,
                        k as int,
                    ).push(content@[k as int]));
                }
                k = k + 1;
            }
            let ghost old_out = out@;
            out.push(w);
            proof {
                assert(crate::text::views(out@) =~= crate::text::views(old_out).push(word));
                let seen2 = seen.push(word);
                assert(seen2 + words(content@.subrange(b as int, content@.len() as int)) =~= seen
                    + words(s));
                seen = seen2;
            }
            p = b;
        }
    }
    proof {
        assert(content@.subrange(p as int, content@.len() as int) =~= Seq::<char>::empty());
        assert(words(Seq::<char>::empty()) =~= Seq::<Seq<char>>::empty());
        assert(seen + words(Seq::<char>::empty()) =~= seen);
    }
    out
}

pub open spec fn word_tag(word: Seq<char>) -> Seq<char> {
    tag_of(word).unwrap()
}

/// Tags never repeat.
pub proof fn lemma_tags_distinct(ws: Seq<Seq<char>>)
    ensures
        forall|i: int, j: int|
            0 <= i < j < tags_of(ws).len() ==> tags_of(ws)[i] != tags_of(ws)[j],
        forall|i: int| 0 <= i < tags_of(ws).len() ==> #[trigger] tags_of(ws)[i].len() > 0,
    decreases ws.len(),
{
    if ws.len() > 0 {
        lemma_tags_distinct(ws.drop_last());
        let acc = tags_of(ws.drop_last());
        match tag_of(ws.last()) {
            Some(t) => {
                if !acc.contains(t) {
                    assert forall|i: int, j: int|
                        0 <= i < j < tags_of(ws).len() implies tags_of(ws)[i] != tags_of(ws)[j] by {
                        if j == acc.len() {
                            assert(tags_of(ws)[i] == acc[i]);
                        }
                    }
                }
            },
            None => {},
        }
    }
}

// ---------------------------------------------------------------------------
// Titles
// ---------------------------------------------------------------------------

/// The index of the last `c` in `s[..j]`, or -1.
pub open spec fn last_index_of(s: Seq<char>, c: char, j: int) -> int
    decreases j,
{
    if j <= 0 || j > s.len() {
        -1
    } else if s[j - 1] == c {
        j - 1
    } else {
        last_index_of(s, c, j - 1)
    }
}

/// `Path::file_stem` of a file name: the name before its last `.`, unless
/// that dot is the first character.
pub open spec fn file_stem(name: Seq<char>) -> Seq<char> {
    let k = last_index_of(name, '.', name.len() as int);
    if name == seq!['.', '.'] || k <= 0 {
        name
    } else {
        name.subrange(0, k)
    }
}

pub open spec fn normal_component(c: Seq<char>) -> bool {
    c != seq!['/'] && c != seq!['.'] && c != seq!['.', '.']
}

pub open spec fn replace_char(s: Seq<char>, from: char, to: char) -> Seq<char> {
    Seq::new(s.len(), |i: int| if s[i] == from { to } else { s[i] })
}

/// The title a note gets from its path: the file stem, or the whole path when
/// it names no file, with `-` read as a space.
pub open spec fn title_spec(path: Seq<char>) -> Seq<char> {
    let cs = crate::paths::path_components(path);
    let base = if cs.len() > 0 && normal_component(cs.last()) {
        file_stem(cs.last())
    } else {
        path
    };
    replace_char(base, '-', ' ')
}

pub(crate) proof fn lemma_last_index_of(s: Seq<char>, c: char, j: int)
    requires
        0 <= j <= s.len(),
    ensures
        -1 <= last_index_of(s, c, j) < j,
        last_index_of(s, c, j) >= 0 ==> s[last_index_of(s, c, j)] == c,
    decreases j,
{
    if j > 0 && s[j - 1] != c {
        lemma_last_index_of(s, c, j - 1);
    }
}

/// The position after the last `c` in `s`, or 0 when there is none.
pub(crate) fn last_index_end(s: &Vec<char>, c: char) -> (r: usize)
    ensures
        r <= s@.len(),
        r == last_index_of(s@, c, s@.len() as int) + 1,
{
    let mut j = s.len();
    while j > 0 && s[j - 1] != c
        invariant
            j <= s@.len(),
            last_index_of(s@, c, s@.len() as int) == last_index_of(s@, c, j as int),
        decreases j,
    {
        j = j - 1;
    }
    j
}

fn replace_char_string(s: &Vec<char>, lo: usize, hi: usize, from: char, to: char) -> (r: String)
    requires
        lo <= hi <= s@.len(),
    ensures
        r@ == replace_char(s@.subrange(lo as int, hi as int), from, to),
{
    let mut r = String::new();
    let mut k = lo;
    while k < hi
        invariant
            lo <= k <= hi <= s@.len(),
            r@ == replace_char(s@.subrange(lo as int, k as int), from, to),
        decreases hi - k,
    {
        let c = if s[k] == from {
            to
        } else {
            s[k]
        };
        push_char(&mut r, c);
        proof {
            assert(r@ =~= replace_char(s@.subrange(lo as int, k + 1), from, to));
        }
        k = k + 1;
    }
    r
}

/// The title a note gets from its relative path.
pub fn title_from_path(path: &str) -> (r: String)
    ensures
        r@ == title_spec(path@),
{
    let pv = to_chars(path);
    let cs = crate::paths::components_exec(&pv);
    if cs.len() > 0 {
        let last = &cs[cs.len() - 1];
        proof {
            assert(views(cs@).last() == last@);
        }
        let mut slash: Vec<char> = Vec::new();
        slash.push('/');
        let mut dot: Vec<char> = Vec::new();
        dot.push('.');
        let mut dotdot: Vec<char> = Vec::new();
        dotdot.push('.');
        dotdot.push('.');
        proof {
            assert(slash@ =~= seq!['/']);
            assert(dot@ =~= seq!['.']);
            assert(dotdot@ =~= seq!['.', '.']);
        }
        if !crate::text::chars_eq(last, &slash) && !crate::text::chars_eq(last, &dot)
            && !crate::text::chars_eq(last, &dotdot) {
            let k = last_index_end(last, '.');
            proof {
                lemma_last_index_of(last@, '.', last@.len() as int);
                assert(last@.subrange(0, last@.len() as int) =~= last@);
            }
            if k <= 1 {
                return replace_char_string(last, 0, last.len(), '-', ' ');
            } else {
                return replace_char_string(last, 0, k - 1, '-', ' ');
            }
        }
    }
    proof {
        assert(pv@.subrange(0, pv@.len() as int) =~= pv@);
    }
    replace_char_string(&pv, 0, pv.len(), '-', ' ')
}

// ---------------------------------------------------------------------------
// Human relevance
// ---------------------------------------------------------------------------

/// Where a note's human relevance score comes from when no explicit value in
/// its frontmatter reads as a number.
#[derive(Debug, Clone, Copy, PartialEq, Eq, Structural)]
pub enum RelevanceDefault {
    /// `audience: system` (any ASCII case) or `system_only: true|yes|1`: 0.1.
    SystemOnly,
    /// `audience: human` (any ASCII case): 0.9.
    Human,
    /// A path under a `system/` directory: 0.25.
    SystemPath,
    /// Anything else: 0.5.
    Neutral,
}

/// The inputs of a note's human relevance score: the explicit frontmatter
/// values in order of precedence (the first one that reads as a number wins,
/// clamped to `[0, 1]`), and the default used when none does.
#[derive(Debug, Clone, PartialEq, Eq)]
pub struct RelevanceSignal {
    pub explicit_values: Vec<String>,
    pub fallback: RelevanceDefault,
}

impl View for RelevanceSignal {
    type V = (Seq<Seq<char>>, RelevanceDefault);

    open spec fn view(&self) -> Self::V {
        (string_views(self.explicit_values@), self.fallback)
    }
}

/// The value of the first pair whose key is `key`, from index `i` on.
pub open spec fn first_value_from(fm: Seq<(Seq<char>, Seq<char>)>, key: Seq<char>, i: int) -> Option<
    Seq<char>,
>
    decreases fm.len() - i,
{
    if i < 0 || i >= fm.len() {
        None
    } else if fm[i].0 == key {
        Some(fm[i].1)
    } else {
        first_value_from(fm, key, i + 1)
    }
}

pub open spec fn first_value(fm: Seq<(Seq<char>, Seq<char>)>, key: Seq<char>) -> Option<Seq<char>> {
    first_value_from(fm, key, 0)
}

pub open spec fn push_some(s: Seq<Seq<char>>, o: Option<Seq<char>>) -> Seq<Seq<char>> {
    match o {
        Some(v) => s.push(v),
        None => s,
    }
}

/// The explicit score values, keys in order of precedence.
pub open spec fn explicit_values_spec(fm: Seq<(Seq<char>, Seq<char>)>) -> Seq<Seq<char>> {
    push_some(
        push_some(
            push_some(seq![], first_value(fm, "human_relevance_score"@)),
            first_value(fm, "human_relevance"@),
        ),
        first_value(fm, "human_score"@),
    )
}

/// `str::eq_ignore_ascii_case`.
pub open spec fn eq_ignore_ascii_case(a: Seq<char>, b: Seq<char>) -> bool {
    crate::config::to_ascii_lowercase(a) == crate::config::to_ascii_lowercase(b)
}

pub open spec fn audience_is(fm: Seq<(Seq<char>, Seq<char>)>, who: Seq<char>) -> bool {
    exists|i: int| 0 <= i < fm.len() && fm[i].0 == "audience"@ && eq_ignore_ascii_case(#[trigger] fm[i].1, who)
}

pub open spec fn truthy(v: Seq<char>) -> bool {
    v == "true"@ || v == "yes"@ || v == "1"@
}

pub open spec fn system_only_flag(fm: Seq<(Seq<char>, Seq<char>)>) -> bool {
    exists|i: int| 0 <= i < fm.len() && fm[i].0 == "system_only"@ && truthy(#[trigger] fm[i].1)
}

pub open spec fn fallback_spec(fm: Seq<(Seq<char>, Seq<char>)>, path: Seq<char>) -> RelevanceDefault {
    if audience_is(fm, "system"@) || system_only_flag(fm) {
        RelevanceDefault::SystemOnly
    } else if audience_is(fm, "human"@) {
        RelevanceDefault::Human
    } else if crate::text::starts_with(path, "system/"@) || crate::text::contains(path, "/system/"@) {
        RelevanceDefault::SystemPath
    } else {
        RelevanceDefault::Neutral
    }
}

pub open spec fn relevance_spec(fm: Seq<(Seq<char>, Seq<char>)>, path: Seq<char>) -> (
    Seq<Seq<char>>,
    RelevanceDefault,
) {
    (explicit_values_spec(fm), fallback_spec(fm, path))
}

fn first_value_exec(fm: &Vec<(String, String)>, key: &str) -> (r: Option<String>)
    ensures
        match r {
            Some(v) => first_value(pair_views(fm@), key@) == Some(v@),
            None => first_value(pair_views(fm@), key@) is None,
        },
{
    let mut i: usize = 0;
    while i < fm.len()
        invariant
            i <= fm@.len(),
            first_value(pair_views(fm@), key@) == first_value_from(pair_views(fm@), key@, i as int),
        decreases fm@.len() - i,
    {
        let k = to_chars(fm[i].0.as_str());
        if crate::config::eq_chars_str(&k, key) {
            return Some(fm[i].1.clone());
        }
        i = i + 1;
    }
    None
}

fn eq_ignore_case_exec(a: &str, b: &str) -> (r: bool)
    ensures
        r == eq_ignore_ascii_case(a@, b@),
{
    let x = crate::config::ascii_lowercase_chars(a);
    let y = crate::config::ascii_lowercase_chars(b);
    crate::text::chars_eq(&x, &y)
}

fn any_audience(fm: &Vec<(String, String)>, who: &str) -> (r: bool)
    ensures
        r == audience_is(pair_views(fm@), who@),
{
    let mut i: usize = 0;
    while i < fm.len()
        invariant
            i <= fm@.len(),
            forall|k: int|
                0 <= k < i ==> !(pair_views(fm@)[k].0 == "audience"@ && eq_ignore_ascii_case(
                    pair_views(fm@)[k].1,
                    who@,
                )),
        decreases fm@.len() - i,
    {
        let k = to_chars(fm[i].0.as_str());
        if crate::config::eq_chars_str(&k, "audience") && eq_ignore_case_exec(
            fm[i].1.as_str(),
            who,
        ) {
            proof {
                assert(pair_views(fm@)[i as int] == (fm@[i as int].0@, fm@[i as int].1@));
                assert(eq_ignore_ascii_case(pair_views(fm@)[i as int].1, who@));
            }
            return true;
        }
        i = i + 1;
    }
    false
}

fn any_system_only(fm: &Vec<(String, String)>) -> (r: bool)
    ensures
        r == system_only_flag(pair_views(fm@)),
{
    let mut i: usize = 0;
    while i < fm.len()
        invariant
            i <= fm@.len(),
            forall|k: int|
                0 <= k < i ==> !(pair_views(fm@)[k].0 == "system_only"@ && truthy(
                    pair_views(fm@)[k].1,
                )),
        decreases fm@.len() - i,
    {
        let k = to_chars(fm[i].0.as_str());
        let v = to_chars(fm[i].1.as_str());
        if crate::config::eq_chars_str(&k, "system_only") && (crate::config::eq_chars_str(
            &v,
            "true",
        ) || crate::config::eq_chars_str(&v, "yes") || crate::config::eq_chars_str(&v, "1")) {
            proof {
                assert(pair_views(fm@)[i as int] == (fm@[i as int].0@, fm@[i as int].1@));
                assert(truthy(pair_views(fm@)[i as int].1));
            }
            return true;
        }
        i = i + 1;
    }
    false
}

/// The human relevance inputs of a note with frontmatter `fm` at `path`.
pub fn relevance_signal(fm: &Vec<(String, String)>, path: &str) -> (r: RelevanceSignal)
    ensures
        r@ == relevance_spec(pair_views(fm@), path@),
{
    let mut values: Vec<String> = Vec::new();
    let ghost mut expect: Seq<Seq<char>> = seq![];
    match first_value_exec(fm, "human_relevance_score") {
        Some(v) => values.push(v),
        None => {},
    }
    proof {
        assert(string_views(values@) =~= push_some(seq![], first_value(pair_views(fm@), "human_relevance_score"@)));
        expect = string_views(values@);
    }
    match first_value_exec(fm, "human_relevance") {
        Some(v) => values.push(v),
        None => {},
    }
    proof {
        assert(string_views(values@) =~= push_some(expect, first_value(pair_views(fm@), "human_relevance"@)));
        expect = string_views(values@);
    }
    match first_value_exec(fm, "human_score") {
        Some(v) => values.push(v),
        None => {},
    }
    proof {
        assert(string_views(values@) =~= push_some(expect, first_value(pair_views(fm@), "human_score"@)));
    }
    let pv = to_chars(path);
    let fallback = if any_audience(fm, "system") || any_system_only(fm) {
        RelevanceDefault::SystemOnly
    } else if any_audience(fm, "human") {
        RelevanceDefault::Human
    } else if crate::text::starts_with_exec(&pv, &to_chars("system/")) || crate::text::contains_exec(
        &pv,
        &to_chars("/system/"),
    ) {
        RelevanceDefault::SystemPath
    } else {
        RelevanceDefault::Neutral
    };
    RelevanceSignal { explicit_values: values, fallback }
}

// ---------------------------------------------------------------------------
// Notes and scans
// ---------------------------------------------------------------------------

#[derive(Debug, Clone, PartialEq, Eq)]
pub struct NoteRecord {
    pub id: String,
    pub path: String,
    pub title: String,
    pub modified_unix: u64,
    pub content_hash: String,
    pub relevance: RelevanceSignal,
    pub frontmatter: Vec<(String, String)>,
    pub sections: Vec<SectionRecord>,
    pub links: Vec<LinkRecord>,
    pub tags: Vec<String>,
}

/// The id of a note: derived from the vault id, its relative path and the
/// hash of its content.
pub open spec fn note_id_spec(vault_id: Seq<char>, path: Seq<char>, content: Seq<char>) -> Seq<char> {
    stable_id_spec(
        "note"@,
        vault_id + seq![':'] + path + seq![':'] + stable_hash_spec(content),
    )
}

pub open spec fn title_of(fm: Seq<(Seq<char>, Seq<char>)>, path: Seq<char>) -> Seq<char> {
    match first_value(fm, "title"@) {
        Some(t) => t,
        None => title_spec(path),
    }
}

/// `n` is the record of the note at `path` in vault `vault_id` with text
/// `content`, last modified at `modified_unix`.
pub open spec fn note_spec(
    n: NoteRecord,
    vault_id: Seq<char>,
    path: Seq<char>,
    content: Seq<char>,
    modified_unix: u64,
) -> bool {
    let id = note_id_spec(vault_id, path, content);
    let fm = frontmatter_spec(content);
    &&& n.id@ == id
    &&& n.path@ == path
    &&& n.title@ == title_of(fm, path)
    &&& n.modified_unix == modified_unix
    &&& n.content_hash@ == stable_hash_spec(content)
    &&& n.relevance@ == relevance_spec(fm, path)
    &&& pair_views(n.frontmatter@) == fm
    &&& section_views(n.sections@) == sections_spec(id, body_spec(content))
    &&& link_views(n.links@) == wikilinks_spec(id, content)
    &&& string_views(n.tags@) == tags_spec(content)
}

/// The record of one note: its id, title, content hash, frontmatter,
/// sections, links and tags, and the inputs of its human relevance score.
/// Parsing a note never fails.
pub fn parse_note(vault_id: &str, relative_path: &str, content: &str, modified_unix: u64) -> (r:
    Result<NoteRecord, String>)
    ensures
        r matches Ok(n) && note_spec(n, vault_id@, relative_path@, content@, modified_unix),
{
    Ok(note_record(vault_id, relative_path, content, modified_unix))
}

fn note_record(vault_id: &str, relative_path: &str, content: &str, modified_unix: u64) -> (n:
    NoteRecord)
    ensures
        note_spec(n, vault_id@, relative_path@, content@, modified_unix),
{
    let chars = to_chars(content);
    let content_hash = stable_hash(content);
    let mut key = copy_string(vault_id);
    push_char(&mut key, ':');
    push_str(&mut key, relative_path);
    push_char(&mut key, ':');
    push_str(&mut key, content_hash.as_str());
    let note_id = stable_id("note", key.as_str());
    proof {
        assert(key@ =~= vault_id@ + seq![':'] + relative_path@ + seq![':'] + stable_hash_spec(
            content@,
        ));
    }
    let (frontmatter, body_start) = parse_frontmatter(&chars);
    let title = match first_value_exec(&frontmatter, "title") {
        Some(t) => t,
        None => title_from_path(relative_path),
    };
    let relevance = relevance_signal(&frontmatter, relative_path);
    let body = copy_range(&chars, body_start, chars.len());
    let sections = parse_sections(note_id.as_str(), &body);
    let links = extract_wikilinks(note_id.as_str(), &chars);
    let tags = extract_tags(&chars);
    NoteRecord {
        id: note_id,
        path: copy_string(relative_path),
        title,
        modified_unix,
        content_hash,
        relevance,
        frontmatter,
        sections,
        links,
        tags,
    }
}

#[derive(Debug, Clone, PartialEq, Eq)]
pub struct VaultScan {
    pub vault_id: String,
    pub notes: Vec<NoteRecord>,
}

/// A note as read from the vault: its path relative to the vault root, its
/// text and its modification time in seconds since the Unix epoch.
#[derive(Debug, Clone, PartialEq, Eq)]
pub struct NoteSource {
    pub relative_path: String,
    pub content: String,
    pub modified_unix: u64,
}

/// The id of the vault at `vault_path`.
pub open spec fn vault_id_spec(vault_path: Seq<char>) -> Seq<char> {
    stable_id_spec("vault"@, vault_path)
}

/// The scan of the vault at `vault_path` from the notes read from it, in the
/// order given.
pub fn scan_from_sources(vault_path: &str, sources: &Vec<NoteSource>) -> (r: VaultScan)
    ensures
        r.vault_id@ == vault_id_spec(vault_path@),
        r.notes@.len() == sources@.len(),
        forall|i: int|
            0 <= i < sources@.len() ==> note_spec(
                #[trigger] r.notes@[i],
                vault_id_spec(vault_path@),
                sources@[i].relative_path@,
                sources@[i].content@,
                sources@[i].modified_unix,
            ),
{
    let vault_id = stable_id("vault", vault_path);
    let mut notes: Vec<NoteRecord> = Vec::new();
    let mut i: usize = 0;
    while i < sources.len()
        invariant
            i <= sources@.len(),
            vault_id@ == vault_id_spec(vault_path@),
            notes@.len() == i,
            forall|k: int|
                0 <= k < i ==> note_spec(
                    #[trigger] notes@[k],
                    vault_id@,
                    sources@[k].relative_path@,
                    sources@[k].content@,
                    sources@[k].modified_unix,
                ),
        decreases sources@.len() - i,
    {
        let src = &sources[i];
        notes.push(
            note_record(
                vault_id.as_str(),
                src.relative_path.as_str(),
                src.content.as_str(),
                src.modified_unix,
            ),
        );
        i = i + 1;
    }
    VaultScan { vault_id, notes }
}


proof fn lemma_frontmatter_pairs_unquoted(ls: Seq<Seq<char>>)
    ensures
        forall|i: int|
            0 <= i < frontmatter_pairs(ls).len() ==> {
                let v = (#[trigger] frontmatter_pairs(ls)[i]).1;
                v.len() > 0 ==> v[0] != '"' && v.last() != '"'
            },
    decreases ls.len(),
{
    if ls.len() > 0 {
        lemma_frontmatter_pairs_unquoted(ls.drop_last());
        let line = ls.last();
        let i = find_char(line, ':', 0);
        crate::text::lemma_trim_set_ends(trim(line.subrange(i + 1, line.len() as int)), CharSet::DoubleQuote);
        let acc = frontmatter_pairs(ls.drop_last());
        let r = frontmatter_pairs(ls);
        assert forall|j: int| 0 <= j < r.len() implies {
            let v = (#[trigger] r[j]).1;
            v.len() > 0 ==> v[0] != '"' && v.last() != '"'
        } by {
            if j < acc.len() {
                assert(r[j] == acc[j]);
            } else {
                assert(r[j] == frontmatter_pair(line)->Some_0);
            }
        }
    }
}

/// Frontmatter values come unquoted: a `key: "value"` line gives the value
/// without its double quotes, so no value of a note's frontmatter (and so no
/// title taken from it) begins or ends with `"`.
pub proof fn lemma_frontmatter_values_unquoted(content: Seq<char>)
    ensures
        forall|i: int|
            0 <= i < frontmatter_spec(content).len() ==> {
                let v = (#[trigger] frontmatter_spec(content)[i]).1;
                v.len() > 0 ==> v[0] != '"' && v.last() != '"'
            },
{
    match frontmatter_end(content) {
        Some(e) => lemma_frontmatter_pairs_unquoted(lines(content.subrange(4, 4 + e))),
        None => {},
    }
}


/// Every tag of a run of words is kept: the tag of any word is among them.
proof fn lemma_tags_of_contains(ws: Seq<Seq<char>>, i: int)
    requires
        0 <= i < ws.len(),
        tag_of(ws[i]) is Some,
    ensures
        tags_of(ws).contains(tag_of(ws[i])->Some_0),
    decreases ws.len(),
{
    let acc = tags_of(ws.drop_last());
    if i < ws.len() - 1 {
        lemma_tags_of_contains(ws.drop_last(), i);
        assert(ws.drop_last()[i] == ws[i]);
        let t = tag_of(ws[i])->Some_0;
        let k = choose|k: int| 0 <= k < acc.len() && acc[k] == t;
        match tag_of(ws.last()) {
            Some(u) => if !acc.contains(u) {
                assert(acc.push(u)[k] == t);
            },
            None => {},
        }
    } else {
        let t = tag_of(ws.last())->Some_0;
        if !acc.contains(t) {
            assert(acc.push(t)[acc.len() as int] == t);
        }
    }
}

/// A word `#t` tags its note with `t` whenever `t` is non-empty, is made of
/// alphanumerics, `-`, `_` and `/`, and does not end in punctuation
/// (`,` `.` `;` `(` `)`).
pub proof fn lemma_hash_word_is_tag(content: Seq<char>, i: int, t: Seq<char>)
    requires
        0 <= i < words(content).len(),
        words(content)[i] == seq!['#'] + t,
        t.len() > 0,
        forall|k: int|
            0 <= k < t.len() ==> crate::text::unicode_alphanumeric(#[trigger] t[k]) || t[k] == '-' || t[k]
                == '_' || t[k] == '/',
        !crate::text::in_set(CharSet::TagPunctuation, t.last()),
    ensures
        tags_spec(content).contains(t),
{
    let w = seq!['#'] + t;
    crate::text::lemma_skip_start_bounds(w, CharSet::TagPunctuation, 0);
    assert(skip_start(w, CharSet::TagPunctuation, 0) == 0);
    assert(w.subrange(0, w.len() as int) =~= w);
    assert(crate::text::skip_end(w, CharSet::TagPunctuation, w.len() as int) == w.len());
    assert(trim_set(w, CharSet::TagPunctuation) == w);
    assert(w.subrange(1, w.len() as int) =~= t);
    assert forall|k: int| 0 <= k < t.len() implies tag_char(#[trigger] t[k]) by {}
    assert(tag_of(w) == Some(t));
    lemma_tags_of_contains(words(content), i);
}


proof fn lemma_scan_after_heading(note_id: Seq<char>, hline: Seq<char>, ls: Seq<Seq<char>>, k: int)
    requires
        0 <= k <= ls.len(),
        heading_spec(hline) is Some,
        forall|m: int| 0 <= m < ls.len() ==> heading_spec(#[trigger] ls[m]) is None,
    ensures
        scan_lines(note_id, seq![hline] + ls.take(k)) == (ScanState {
            index: 1,
            heading: heading_spec(hline)->Some_0.1,
            level: heading_spec(hline)->Some_0.0,
            buffer: if k == 0 {
                seq![]
            } else {
                crate::sql::join_with(ls.take(k), seq!['\n']) + seq!['\n']
            },
            out: seq![],
        }),
    decreases k,
{
    let cur = seq![hline] + ls.take(k);
    let (lvl, h) = heading_spec(hline)->Some_0;
    if k == 0 {
        assert(cur =~= seq![hline]);
        assert(cur.drop_last() =~= Seq::<Seq<char>>::empty());
        let st0 = scan_lines(note_id, cur.drop_last());
        assert(st0 == (ScanState { index: 0, heading: root_heading(), level: 0, buffer: seq![], out: seq![] }));
        assert(trim(Seq::<char>::empty()) =~= Seq::<char>::empty());
        assert(close_section(st0.out, note_id, st0.heading, st0.level, st0.buffer, st0.index) == Seq::<
            (Seq<char>, Seq<char>, Seq<char>, u8, Seq<char>, Seq<char>),
        >::empty());
    } else {
        lemma_scan_after_heading(note_id, hline, ls, k - 1);
        assert(cur.drop_last() =~= seq![hline] + ls.take(k - 1));
        assert(cur.last() == ls[k - 1]);
        let st = scan_lines(note_id, cur.drop_last());
        let t = ls.take(k);
        assert(t.drop_last() =~= ls.take(k - 1));
        assert(t.last() == ls[k - 1]);
        let want = crate::sql::join_with(t, seq!['\n']) + seq!['\n'];
        if k == 1 {
            assert(st.buffer + ls[0] + seq!['\n'] =~= want);
        } else {
            assert(crate::sql::join_with(t, seq!['\n']) == crate::sql::join_with(ls.take(k - 1), seq!['\n'])
                + seq!['\n'] + ls[k - 1]);
            assert(st.buffer + ls[k - 1] + seq!['\n'] =~= want);
        }
    }
}

/// The text of a section is its lines joined by `\n`, trimmed: a note body
/// made of one heading line followed by lines that are no headings gives one
/// section, under that heading, whose text is those lines joined by line
/// breaks and trimmed at both ends.
pub proof fn lemma_section_text_is_its_lines(note_id: Seq<char>, body: Seq<char>, hline: Seq<char>, ls: Seq<Seq<char>>)
    requires
        lines(body) == seq![hline] + ls,
        heading_spec(hline) is Some,
        forall|m: int| 0 <= m < ls.len() ==> heading_spec(#[trigger] ls[m]) is None,
        heading_spec(hline)->Some_0.1 != root_heading() || trim(crate::sql::join_with(ls, "\n"@)).len() > 0,
    ensures
        sections_spec(note_id, body) == seq![
            section_view(
                note_id,
                heading_spec(hline)->Some_0.1,
                heading_spec(hline)->Some_0.0,
                trim(crate::sql::join_with(ls, "\n"@)),
                1,
            ),
        ],
{
    reveal_strlit("\n");
    assert("\n"@ =~= seq!['\n']);
    lemma_scan_after_heading(note_id, hline, ls, ls.len() as int);
    assert(ls.take(ls.len() as int) =~= ls);
    if ls.len() > 0 {
        let j = crate::sql::join_with(ls, seq!['\n']);
        assert(j + seq!['\n'] =~= j.push('\n'));
        crate::text::lemma_trim_push_ws(j, '\n');
    } else {
        assert(crate::sql::join_with(ls, seq!['\n']) =~= Seq::<char>::empty());
    }
}

} // verus!
