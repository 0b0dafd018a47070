//! The decisions of the vault walk: which directory entries are followed or
//! collected, how a collected note is named, and the order in which notes are
//! read.
use vstd::prelude::*;
use vstd::relations::{sorted_by, total_ordering};

use crate::note::string_views;
use crate::text::{ends_with, push_char, to_chars};

verus! {

/// What the walk does with one directory entry.
#[derive(Debug, Clone, Copy, PartialEq, Eq, Structural)]
pub enum EntryAction {
    /// Neither followed nor collected.
    Skip,
    /// A directory to walk into.
    Descend,
    /// A Markdown note to index.
    Collect,
}

/// Hidden entries (a name that starts with `.`) and `node_modules` are never
/// walked: runtime state, sync folders and tool caches stay out of the index.
pub open spec fn ignored_name(name: Seq<char>) -> bool {
    (name.len() > 0 && name[0] == '.') || name == "node_modules"@
}

pub open spec fn entry_action_spec(name: Seq<char>, is_dir: bool) -> EntryAction {
    if ignored_name(name) {
        EntryAction::Skip
    } else if is_dir {
        EntryAction::Descend
    } else if ends_with(name, ".md"@) {
        EntryAction::Collect
    } else {
        EntryAction::Skip
    }
}

/// What the walk does with the entry called `name`; `is_dir` says whether it
/// is a directory. A file is a note when its extension is `md`.
pub fn entry_action(name: &str, is_dir: bool) -> (r: EntryAction)
    ensures
        r == entry_action_spec(name@, is_dir),
{
    let v = to_chars(name);
    let nm = to_chars("node_modules");
    let md = to_chars(".md");
    proof {
        reveal_strlit("node_modules");
        reveal_strlit(".md");
    }
    let hidden = v.len() > 0 && v[0] == '.';
    if hidden || crate::text::chars_eq(v.as_slice(), nm.as_slice()) {
        EntryAction::Skip
    } else if is_dir {
        EntryAction::Descend
    } else if crate::text::ends_with_exec(v.as_slice(), md.as_slice()) {
        EntryAction::Collect
    } else {
        EntryAction::Skip
    }
}

/// Whether a walk that has collected `count` notes must stop, under the
/// optional `limit`.
pub open spec fn limit_reached_spec(count: nat, limit: Option<usize>) -> bool {
    match limit {
        Some(max) => count >= max,
        None => false,
    }
}

pub fn limit_reached(count: usize, limit: Option<usize>) -> (b: bool)
    ensures
        b == limit_reached_spec(count as nat, limit),
{
    match limit {
        Some(max) => count >= max,
        None => false,
    }
}

/// The segments joined by `/`.
pub open spec fn join_segments(segs: Seq<Seq<char>>) -> Seq<char>
    decreases segs.len(),
{
    if segs.len() == 0 {
        Seq::empty()
    } else if segs.len() == 1 {
        segs[0]
    } else {
        join_segments(segs.drop_last()) + "/"@ + segs.last()
    }
}

pub open spec fn backslash_to_slash(c: char) -> char {
    if c == '\\' {
        '/'
    } else {
        c
    }
}

/// The name under which a note is indexed: the entry names from the vault
/// root down to the note, joined by `/`, with every `\` turned into `/`.
pub open spec fn relative_note_path_spec(segs: Seq<Seq<char>>) -> Seq<char> {
    join_segments(segs).map_values(|c: char| backslash_to_slash(c))
}

fn push_normalized(out: &mut String, seg: &str)
    ensures
        final(out)@ == old(out)@ + seg@.map_values(|c: char| backslash_to_slash(c)),
{
    let v = to_chars(seg);
    let ghost start = out@;
    let mut i: usize = 0;
    while i < v.len()
        invariant
            i <= v@.len(),
            v@ == seg@,
            out@ == start + seg@.take(i as int).map_values(|c: char| backslash_to_slash(c)),
        decreases v@.len() - i,
    {
        let c = v[i];
        let d = if c == '\\' {
            '/'
        } else {
            c
        };
        push_char(out, d);
        proof {
            assert(seg@.take(i + 1).map_values(|c: char| backslash_to_slash(c)) =~= seg@.take(
                i as int,
            ).map_values(|c: char| backslash_to_slash(c)).push(d));
        }
        i = i + 1;
    }
    proof {
        assert(seg@.take(v@.len() as int) =~= seg@);
    }
}

/// The indexed name of a note reached through the entries `segments`, from
/// the vault root down to the note itself.
pub fn relative_note_path(segments: &Vec<String>) -> (r: String)
    ensures
        r@ == relative_note_path_spec(string_views(segments@)),
{
    let mut out = String::new();
    let mut i: usize = 0;
    while i < segments.len()
        invariant
            i <= segments@.len(),
            out@ == relative_note_path_spec(string_views(segments@).take(i as int)),
        decreases segments@.len() - i,
    {
        let ghost before = out@;
        let ghost segs = string_views(segments@).take(i as int);
        let ghost next = string_views(segments@).take(i + 1);
        proof {
            assert(next.drop_last() =~= segs);
        }
        if i > 0 {
            push_char(&mut out, '/');
        }
        push_normalized(&mut out, segments[i].as_str());
        proof {
            let f = |c: char| backslash_to_slash(c);
            if i == 0 {
                assert(out@ =~= relative_note_path_spec(next));
            } else {
                reveal_strlit("/");
                assert(join_segments(next) == join_segments(segs) + "/"@ + segments@[i as int]@);
                assert((join_segments(segs) + "/"@ + segments@[i as int]@).map_values(f)
                    =~= join_segments(segs).map_values(f) + seq!['/'] + segments@[
                    i as int]@.map_values(f));
                assert(out@ =~= relative_note_path_spec(next));
            }
        }
        i = i + 1;
    }
    proof {
        assert(string_views(segments@).take(segments@.len() as int) =~= string_views(segments@));
    }
    out
}

// ---------------------------------------------------------------------------
// Ordering of note paths
// ---------------------------------------------------------------------------
/// Lexicographic order of code points from position `i` on: the order in
/// which Rust orders `String`s (UTF-8 bytes order as code points do).
pub open spec fn lex_le_from(a: Seq<char>, b: Seq<char>, i: nat) -> bool
    decreases a.len() - i,
{
    if i >= a.len() {
        true
    } else if i >= b.len() {
        false
    } else if a[i as int] != b[i as int] {
        (a[i as int] as u32) < (b[i as int] as u32)
    } else {
        lex_le_from(a, b, i + 1)
    }
}

/// `a` comes no later than `b` in the order of strings.
pub open spec fn lex_le(a: Seq<char>, b: Seq<char>) -> bool {
    lex_le_from(a, b, 0)
}

proof fn lemma_lex_reflexive(a: Seq<char>, i: nat)
    ensures
        lex_le_from(a, a, i),
    decreases a.len() - i,
{
    if i < a.len() {
        lemma_lex_reflexive(a, i + 1);
    }
}

proof fn lemma_lex_total(a: Seq<char>, b: Seq<char>, i: nat)
    ensures
        lex_le_from(a, b, i) || lex_le_from(b, a, i),
    decreases a.len() - i,
{
    if i < a.len() && i < b.len() && a[i as int] == b[i as int] {
        lemma_lex_total(a, b, i + 1);
    } else if i < a.len() && i < b.len() {
        lemma_char_code_injective(a[i as int], b[i as int]);
    }
}

proof fn lemma_char_code_injective(x: char, y: char)
    ensures
        x != y ==> (x as u32) != (y as u32),
{
}

proof fn lemma_lex_antisymmetric(a: Seq<char>, b: Seq<char>, i: nat)
    requires
        i <= a.len(),
        i <= b.len(),
        a.take(i as int) == b.take(i as int),
        lex_le_from(a, b, i),
        lex_le_from(b, a, i),
    ensures
        a == b,
    decreases a.len() - i,
{
    if i < a.len() && i < b.len() {
        if a[i as int] == b[i as int] {
            assert(a.take(i + 1int) =~= a.take(i as int).push(a[i as int]));
            assert(b.take(i + 1int) =~= b.take(i as int).push(b[i as int]));
            lemma_lex_antisymmetric(a, b, i + 1);
        } else {
            lemma_char_code_injective(a[i as int], b[i as int]);
        }
    } else {
        assert(a.len() == i && b.len() == i);
        assert(a =~= a.take(i as int));
        assert(b =~= b.take(i as int));
    }
}

proof fn lemma_lex_transitive(a: Seq<char>, b: Seq<char>, c: Seq<char>, i: nat)
    requires
        lex_le_from(a, b, i),
        lex_le_from(b, c, i),
    ensures
        lex_le_from(a, c, i),
    decreases a.len() - i,
{
    if i < a.len() && i < b.len() && i < c.len() && a[i as int] == b[i as int] && b[i as int]
        == c[i as int] {
        lemma_lex_transitive(a, b, c, i + 1);
    } else if i < a.len() && i < b.len() && i < c.len() {
        assert((a[i as int] as u32) <= (b[i as int] as u32));
        assert((b[i as int] as u32) <= (c[i as int] as u32));
        lemma_char_code_injective(a[i as int], b[i as int]);
        lemma_char_code_injective(b[i as int], c[i as int]);
    }
}

/// The order of strings is a total order: reflexive, antisymmetric,
/// transitive, and any two strings are comparable.
pub proof fn lemma_lex_le_total_ordering()
    ensures
        total_ordering(path_order()),
{
    let r = path_order();
    assert forall|a: Seq<char>| #[trigger] r(a, a) by {
        lemma_lex_reflexive(a, 0);
    }
    assert forall|a: Seq<char>, b: Seq<char>| #[trigger] r(a, b) && #[trigger] r(b, a) implies a
        == b by {
        assert(a.take(0) =~= b.take(0));
        lemma_lex_antisymmetric(a, b, 0);
    }
    assert forall|a: Seq<char>, b: Seq<char>, c: Seq<char>| #[trigger] r(a, b) && #[trigger] r(
        b,
        c,
    ) implies r(a, c) by {
        lemma_lex_transitive(a, b, c, 0);
    }
    assert forall|a: Seq<char>, b: Seq<char>| #[trigger] r(a, b) || #[trigger] r(b, a) by {
        lemma_lex_total(a, b, 0);
    }
}

/// The order of strings as a relation.
pub open spec fn path_order() -> spec_fn(Seq<char>, Seq<char>) -> bool {
    |a: Seq<char>, b: Seq<char>| lex_le(a, b)
}

/// Whether the string `a` comes no later than `b`.
pub fn path_le(a: &str, b: &str) -> (r: bool)
    ensures
        r == lex_le(a@, b@),
{
    let x = to_chars(a);
    let y = to_chars(b);
    let mut i: usize = 0;
    loop
        invariant
            x@ == a@,
            y@ == b@,
            i <= x@.len(),
            i <= y@.len(),
            lex_le(a@, b@) == lex_le_from(a@, b@, i as nat),
        decreases x@.len() - i,
    {
        if i >= x.len() {
            return true;
        }
        if i >= y.len() {
            return false;
        }
        let c = x[i];
        let d = y[i];
        if c != d {
            return (c as u32) < (d as u32);
        }
        i = i + 1;
    }
}

/// The first position at or after `j` in `s` whose string `x` comes no later
/// than; the length of `s` where there is none.
pub open spec fn insert_pos(s: Seq<Seq<char>>, x: Seq<char>, j: nat) -> nat
    decreases s.len() - j,
{
    if j >= s.len() {
        s.len()
    } else if lex_le(x, s[j as int]) {
        j
    } else {
        insert_pos(s, x, j + 1)
    }
}

/// `x` put into `s` in front of the first string that it comes no later than.
pub open spec fn insert_sorted(s: Seq<Seq<char>>, x: Seq<char>) -> Seq<Seq<char>> {
    s.insert(insert_pos(s, x, 0) as int, x)
}

/// The strings of `s` in the order of strings (insertion sort).
pub open spec fn sort_spec(s: Seq<Seq<char>>) -> Seq<Seq<char>>
    decreases s.len(),
{
    if s.len() == 0 {
        s
    } else {
        insert_sorted(sort_spec(s.drop_last()), s.last())
    }
}

/// The note paths in the order of strings, cut to the first `limit` of them
/// where a limit is given.
pub open spec fn order_and_limit_spec(files: Seq<Seq<char>>, limit: Option<usize>) -> Seq<
    Seq<char>,
> {
    let sorted = sort_spec(files);
    match limit {
        Some(max) => if max < sorted.len() {
            sorted.take(max as int)
        } else {
            sorted
        },
        None => sorted,
    }
}

proof fn lemma_insert_pos_bounds(s: Seq<Seq<char>>, x: Seq<char>, j: nat)
    requires
        j <= s.len(),
    ensures
        j <= insert_pos(s, x, j) <= s.len(),
        forall|k: int| j <= k < insert_pos(s, x, j) ==> !lex_le(x, #[trigger] s[k]),
        insert_pos(s, x, j) < s.len() ==> lex_le(x, s[insert_pos(s, x, j) as int]),
    decreases s.len() - j,
{
    if j < s.len() && !lex_le(x, s[j as int]) {
        lemma_insert_pos_bounds(s, x, j + 1);
    }
}

proof fn lemma_insert_sorted_keeps_order(s: Seq<Seq<char>>, x: Seq<char>)
    requires
        sorted_by(s, path_order()),
    ensures
        sorted_by(insert_sorted(s, x), path_order()),
{
    let p = insert_pos(s, x, 0) as int;
    lemma_insert_pos_bounds(s, x, 0);
    lemma_lex_le_total_ordering();
    let t = insert_sorted(s, x);
    assert forall|i: int, j: int| 0 <= i < j < t.len() implies #[trigger] lex_le(t[i], t[j]) by {
        if j < p {
            assert(t[i] == s[i] && t[j] == s[j]);
            assert(path_order()(s[i], s[j]));
        } else if j == p {
            assert(t[i] == s[i]);
            assert(!lex_le(x, s[i]));
            lemma_lex_total(x, s[i], 0);
        } else if i < p {
            assert(t[i] == s[i] && t[j] == s[j - 1]);
            assert(path_order()(s[i], s[j - 1]));
        } else if i == p {
            assert(t[j] == s[j - 1]);
            assert(lex_le(x, s[p]));
            if j - 1 > p {
                assert(path_order()(s[p], s[j - 1]));
                lemma_lex_transitive(x, s[p], s[j - 1], 0);
            }
        } else {
            assert(t[i] == s[i - 1] && t[j] == s[j - 1]);
            assert(path_order()(s[i - 1], s[j - 1]));
        }
    }
}

/// Sorting gives the paths in the order of strings, each exactly as often as
/// it was given.
pub proof fn lemma_sort_spec_sorted_permutation(s: Seq<Seq<char>>)
    ensures
        sorted_by(sort_spec(s), path_order()),
        sort_spec(s).to_multiset() == s.to_multiset(),
    decreases s.len(),
{
    broadcast use vstd::seq_lib::to_multiset_insert, vstd::seq_lib::to_multiset_build;

    if s.len() > 0 {
        let rest = s.drop_last();
        lemma_sort_spec_sorted_permutation(rest);
        lemma_insert_sorted_keeps_order(sort_spec(rest), s.last());
        lemma_insert_pos_bounds(sort_spec(rest), s.last(), 0);
        assert(s =~= rest.push(s.last()));
    }
}

/// `files` in the order of strings, cut to the first `limit` where a limit is
/// given: the order in which the scan reads notes.
pub fn order_and_limit(files: Vec<String>, limit: Option<usize>) -> (r: Vec<String>)
    ensures
        string_views(r@) == order_and_limit_spec(string_views(files@), limit),
{
    let ghost fv = string_views(files@);
    let mut out: Vec<String> = Vec::new();
    let mut i: usize = 0;
    while i < files.len()
        invariant
            i <= files@.len(),
            fv == string_views(files@),
            fv.len() == files@.len(),
            string_views(out@) == sort_spec(fv.take(i as int)),
        decreases files@.len() - i,
    {
        let ghost before = string_views(out@);
        let x = files[i].clone();
        let mut j: usize = 0;
        proof {
            lemma_insert_pos_bounds(before, fv[i as int], 0);
        }
        loop
            invariant
                j <= out@.len(),
                before == string_views(out@),
                i < fv.len(),
                x@ == fv[i as int],
                insert_pos(before, x@, 0) == insert_pos(before, x@, j as nat),
            ensures
                j <= out@.len(),
                before == string_views(out@),
                x@ == fv[i as int],
                insert_pos(before, x@, 0) == j as nat,
            decreases out@.len() - j,
        {
            if j >= out.len() {
                proof {
                    assert(before.len() == out@.len());
                }
                break;
            }
            if path_le(x.as_str(), out[j].as_str()) {
                proof {
                    assert(before[j as int] == out@[j as int]@);
                }
                break;
            }
            proof {
                assert(before[j as int] == out@[j as int]@);
            }
            j = j + 1;
        }
        out.insert(j, x);
        proof {
            let next = fv.take(i + 1);
            assert(next.drop_last() =~= fv.take(i as int));
            assert(next.last() == fv[i as int]);
            assert(string_views(out@) =~= before.insert(j as int, fv[i as int]));
            assert(sort_spec(next) == insert_sorted(sort_spec(next.drop_last()), next.last()));
            assert(string_views(out@) == insert_sorted(before, fv[i as int]));
        }
        i = i + 1;
    }
    proof {
        assert(fv.take(files@.len() as int) =~= fv);
    }
    match limit {
        Some(max) => {
            if max < out.len() {
                out.truncate(max);
                proof {
                    assert(string_views(out@) =~= sort_spec(fv).take(max as int));
                }
            }
        },
        None => {},
    }
    out
}


// ---------------------------------------------------------------------------
// The walk over a vault's directory tree
// ---------------------------------------------------------------------------
/// One entry of a vault directory as read from disk: its name, whether it is
/// a directory and, for a directory, its own entries in the order in which
/// they are walked, or why they could not be read.
pub struct VaultEntry {
    pub name: String,
    pub is_dir: bool,
    pub read_error: Option<String>,
    pub children: Vec<VaultEntry>,
}

/// The walk of directory `d`, reached through the entry names `prefix`, with
/// the note paths `out` already collected: the walk stops once the limit is
/// reached, and fails on the first directory it enters that could not be read.
pub open spec fn walk_dir(d: VaultEntry, prefix: Seq<Seq<char>>, out: Seq<Seq<char>>, limit: Option<usize>) -> Result<
    Seq<Seq<char>>,
    Seq<char>,
>
    decreases d, 1int,
{
    if limit_reached_spec(out.len(), limit) {
        Ok(out)
    } else {
        match d.read_error {
            Some(e) => Err(e@),
            None => walk_list(d.children@, prefix, out, limit),
        }
    }
}

/// The walk of the entries `es` of one directory, in order.
pub open spec fn walk_list(es: Seq<VaultEntry>, prefix: Seq<Seq<char>>, out: Seq<Seq<char>>, limit: Option<usize>) -> Result<
    Seq<Seq<char>>,
    Seq<char>,
>
    decreases es, 0int,
{
    if es.len() == 0 || limit_reached_spec(out.len(), limit) {
        Ok(out)
    } else {
        let e = es[0];
        let segs = prefix.push(e.name@);
        match entry_action_spec(e.name@, e.is_dir) {
            EntryAction::Skip => walk_list(es.skip(1), prefix, out, limit),
            EntryAction::Collect => walk_list(
                es.skip(1),
                prefix,
                out.push(relative_note_path_spec(segs)),
                limit,
            ),
            EntryAction::Descend => match walk_dir(e, segs, out, limit) {
                Err(x) => Err(x),
                Ok(o2) => walk_list(es.skip(1), prefix, o2, limit),
            },
        }
    }
}

/// Every note under directory `d`, reached through `prefix`, in the order of
/// the walk: the `.md` files whose path has no hidden and no `node_modules`
/// part.
pub open spec fn notes_in_dir(d: VaultEntry, prefix: Seq<Seq<char>>) -> Seq<Seq<char>>
    decreases d, 1int,
{
    notes_in_list(d.children@, prefix)
}

pub open spec fn notes_in_list(es: Seq<VaultEntry>, prefix: Seq<Seq<char>>) -> Seq<Seq<char>>
    decreases es, 0int,
{
    if es.len() == 0 {
        seq![]
    } else {
        let e = es[0];
        let segs = prefix.push(e.name@);
        let here = match entry_action_spec(e.name@, e.is_dir) {
            EntryAction::Skip => seq![],
            EntryAction::Collect => seq![relative_note_path_spec(segs)],
            EntryAction::Descend => notes_in_dir(e, segs),
        };
        here + notes_in_list(es.skip(1), prefix)
    }
}

/// Every directory that the walk may enter under `d` could be read.
pub open spec fn readable_dir(d: VaultEntry) -> bool
    decreases d, 1int,
{
    d.read_error is None && readable_list(d.children@)
}

pub open spec fn readable_list(es: Seq<VaultEntry>) -> bool
    decreases es, 0int,
{
    if es.len() == 0 {
        true
    } else {
        (entry_action_spec(es[0].name@, es[0].is_dir) == EntryAction::Descend ==> readable_dir(es[0]))
            && readable_list(es.skip(1))
    }
}

/// `out` followed by the notes `ns`, as far as the limit lets them in.
pub open spec fn up_to_limit(out: Seq<Seq<char>>, ns: Seq<Seq<char>>, limit: Option<usize>) -> Seq<Seq<char>> {
    match limit {
        None => out + ns,
        Some(k) => if out.len() >= k {
            out
        } else if out.len() + ns.len() <= k {
            out + ns
        } else {
            out + ns.take(k - out.len())
        },
    }
}

proof fn lemma_up_to_limit_split(out: Seq<Seq<char>>, a: Seq<Seq<char>>, b: Seq<Seq<char>>, limit: Option<usize>)
    ensures
        up_to_limit(up_to_limit(out, a, limit), b, limit) == up_to_limit(out, a + b, limit),
        limit_reached_spec(up_to_limit(out, a, limit).len(), limit) ==> up_to_limit(out, a + b, limit)
            == up_to_limit(out, a, limit),
{
    match limit {
        None => {
            assert(out + a + b =~= out + (a + b));
        },
        Some(k) => {
            if out.len() >= k {
            } else if out.len() + a.len() <= k {
                if out.len() + a.len() + b.len() <= k {
                    assert(out + a + b =~= out + (a + b));
                } else {
                    assert(out + a + b.take(k - out.len() - a.len()) =~= out + (a + b).take(k - out.len()));
                }
            } else {
                assert(out + a.take(k - out.len()) =~= out + (a + b).take(k - out.len()));
            }
        },
    }
}

/// On a readable tree the walk collects the notes in walk order, as far as
/// the limit lets them in.
pub proof fn lemma_walk_dir(d: VaultEntry, prefix: Seq<Seq<char>>, out: Seq<Seq<char>>, limit: Option<usize>)
    requires
        readable_dir(d),
    ensures
        walk_dir(d, prefix, out, limit) == Ok::<Seq<Seq<char>>, Seq<char>>(
            up_to_limit(out, notes_in_dir(d, prefix), limit),
        ),
    decreases d, 1int,
{
    if limit_reached_spec(out.len(), limit) {
        assert(up_to_limit(out, notes_in_dir(d, prefix), limit) == out);
    } else {
        lemma_walk_list(d.children@, prefix, out, limit);
    }
}

pub proof fn lemma_walk_list(es: Seq<VaultEntry>, prefix: Seq<Seq<char>>, out: Seq<Seq<char>>, limit: Option<usize>)
    requires
        readable_list(es),
    ensures
        walk_list(es, prefix, out, limit) == Ok::<Seq<Seq<char>>, Seq<char>>(
            up_to_limit(out, notes_in_list(es, prefix), limit),
        ),
    decreases es, 0int,
{
    if es.len() == 0 {
        assert(out + Seq::<Seq<char>>::empty() =~= out);
        assert(up_to_limit(out, seq![], limit) == out);
    } else if limit_reached_spec(out.len(), limit) {
        assert(up_to_limit(out, notes_in_list(es, prefix), limit) == out);
    } else {
        let e = es[0];
        let segs = prefix.push(e.name@);
        let here = match entry_action_spec(e.name@, e.is_dir) {
            EntryAction::Skip => seq![],
            EntryAction::Collect => seq![relative_note_path_spec(segs)],
            EntryAction::Descend => notes_in_dir(e, segs),
        };
        let rest = notes_in_list(es.skip(1), prefix);
        let o2 = up_to_limit(out, here, limit);
        match entry_action_spec(e.name@, e.is_dir) {
            EntryAction::Skip => {
                assert(out + Seq::<Seq<char>>::empty() =~= out);
                assert(o2 == out);
            },
            EntryAction::Collect => {
                assert(o2 == out.push(relative_note_path_spec(segs))) by {
                    assert(out + seq![relative_note_path_spec(segs)] =~= out.push(relative_note_path_spec(segs)));
                    assert(seq![relative_note_path_spec(segs)].take(1) =~= seq![relative_note_path_spec(segs)]);
                }
            },
            EntryAction::Descend => {
                lemma_walk_dir(e, segs, out, limit);
            },
        }
        lemma_walk_list(es.skip(1), prefix, o2, limit);
        lemma_up_to_limit_split(out, here, rest, limit);
        if limit_reached_spec(o2.len(), limit) {
            assert(walk_list(es.skip(1), prefix, o2, limit) == Ok::<Seq<Seq<char>>, Seq<char>>(o2));
        }
    }
}

fn collect_dir(d: &VaultEntry, segments: &mut Vec<String>, out: &mut Vec<String>, limit: Option<usize>) -> (r:
    Result<(), String>)
    ensures
        final(segments)@ == old(segments)@,
        match r {
            Ok(()) => walk_dir(*d, string_views(old(segments)@), string_views(old(out)@), limit) == Ok::<
                Seq<Seq<char>>,
                Seq<char>,
            >(string_views(final(out)@)),
            Err(e) => walk_dir(*d, string_views(old(segments)@), string_views(old(out)@), limit) == Err::<
                Seq<Seq<char>>,
                Seq<char>,
            >(e@),
        },
    decreases *d, 1int,
{
    if limit_reached(out.len(), limit) {
        return Ok(());
    }
    match &d.read_error {
        Some(e) => {
            return Err(e.clone());
        },
        None => {},
    }
    proof {
        assert(d.children@.skip(0) =~= d.children@);
    }
    collect_list(&d.children, 0, segments, out, limit)
}

fn collect_list(
    es: &Vec<VaultEntry>,
    start: usize,
    segments: &mut Vec<String>,
    out: &mut Vec<String>,
    limit: Option<usize>,
) -> (r: Result<(), String>)
    requires
        start <= es@.len(),
    ensures
        final(segments)@ == old(segments)@,
        match r {
            Ok(()) => walk_list(es@.skip(start as int), string_views(old(segments)@), string_views(old(out)@), limit)
                == Ok::<Seq<Seq<char>>, Seq<char>>(string_views(final(out)@)),
            Err(e) => walk_list(es@.skip(start as int), string_views(old(segments)@), string_views(old(out)@), limit)
                == Err::<Seq<Seq<char>>, Seq<char>>(e@),
        },
    decreases es@.skip(start as int), 0int,
{
    let ghost rest = es@.skip(start as int);
    if start >= es.len() || limit_reached(out.len(), limit) {
        return Ok(());
    }
    let e = &es[start];
    proof {
        assert(rest[0] == es@[start as int]);
        assert(rest.skip(1) =~= es@.skip(start + 1));
    }
    let ghost prefix = string_views(segments@);
    let ghost out0 = string_views(out@);
    match entry_action(e.name.as_str(), e.is_dir) {
        EntryAction::Skip => {},
        EntryAction::Collect => {
            segments.push(e.name.clone());
            proof {
                assert(string_views(segments@) =~= prefix.push(e.name@));
            }
            let path = relative_note_path(segments);
            out.push(path);
            segments.pop();
            proof {
                assert(segments@ =~= old(segments)@);
                assert(string_views(out@) =~= out0.push(relative_note_path_spec(prefix.push(e.name@))));
            }
        },
        EntryAction::Descend => {
            segments.push(e.name.clone());
            proof {
                assert(string_views(segments@) =~= prefix.push(e.name@));
            }
            let result = collect_dir(e, segments, out, limit);
            segments.pop();
            proof {
                assert(segments@ =~= old(segments)@);
            }
            match result {
                Ok(()) => {},
                Err(x) => {
                    return Err(x);
                },
            }
        },
    }
    collect_list(es, start + 1, segments, out, limit)
}

/// The paths of the notes that a scan of the vault tree `root` reads, in the
/// order they are read, or the error of the first unreadable directory that
/// the walk enters.
pub open spec fn note_paths_spec(root: VaultEntry, limit: Option<usize>) -> Result<Seq<Seq<char>>, Seq<char>> {
    match walk_dir(root, seq![], seq![], limit) {
        Ok(files) => Ok(order_and_limit_spec(files, limit)),
        Err(e) => Err(e),
    }
}

/// The notes of the vault tree `root` that a scan reads, in the order it reads
/// them: the walk collects them (stopping at the limit), then they are put in
/// the order of paths and cut to the limit.
pub fn note_paths(root: &VaultEntry, limit: Option<usize>) -> (r: Result<Vec<String>, String>)
    ensures
        match r {
            Ok(ps) => note_paths_spec(*root, limit) == Ok::<Seq<Seq<char>>, Seq<char>>(string_views(ps@)),
            Err(e) => note_paths_spec(*root, limit) == Err::<Seq<Seq<char>>, Seq<char>>(e@),
        },
{
    let mut segments: Vec<String> = Vec::new();
    let mut files: Vec<String> = Vec::new();
    proof {
        assert(string_views(segments@) =~= Seq::<Seq<char>>::empty());
        assert(string_views(files@) =~= Seq::<Seq<char>>::empty());
    }
    match collect_dir(root, &mut segments, &mut files, limit) {
        Ok(()) => Ok(order_and_limit(files, limit)),
        Err(e) => Err(e),
    }
}

/// A scan of a vault whose directories can all be read succeeds and reads
/// nothing but notes of the vault, in the order of paths: without a limit
/// every note (each as often as the walk meets it), with a limit exactly as
/// many as the limit allows, or all of them when there are fewer.
pub proof fn lemma_scan_reads_the_notes(root: VaultEntry, limit: Option<usize>)
    requires
        readable_dir(root),
    ensures
        ({
            let all = notes_in_dir(root, seq![]);
            &&& note_paths_spec(root, limit) is Ok
            &&& sorted_by(note_paths_spec(root, limit)->Ok_0, path_order())
            &&& forall|i: int|
                0 <= i < note_paths_spec(root, limit)->Ok_0.len() ==> all.contains(
                    #[trigger] note_paths_spec(root, limit)->Ok_0[i],
                )
            &&& match limit {
                None => note_paths_spec(root, limit)->Ok_0.to_multiset() == all.to_multiset(),
                Some(k) => note_paths_spec(root, limit)->Ok_0.len() == if k < all.len() {
                    k as int
                } else {
                    all.len() as int
                },
            }
        }),
{
    broadcast use vstd::seq_lib::to_multiset_len, vstd::seq_lib::to_multiset_contains;

    let all = notes_in_dir(root, seq![]);
    let empty = Seq::<Seq<char>>::empty();
    lemma_walk_dir(root, empty, empty, limit);
    let walked = up_to_limit(empty, all, limit);
    assert(empty + all =~= all);
    lemma_sort_spec_sorted_permutation(walked);
    let ps = note_paths_spec(root, limit)->Ok_0;
    assert(sort_spec(walked).len() == walked.len()) by {
        assert(sort_spec(walked).to_multiset().len() == walked.to_multiset().len());
    }
    assert(ps == sort_spec(walked)) by {
        match limit {
            Some(k) => {
                if all.len() > k {
                    assert((empty + all.take(k as int)).len() == k);
                }
            },
            None => {},
        }
    }
    match limit {
        Some(k) => {
            if 0 >= k {
                assert(walked.len() == 0);
            } else if all.len() <= k {
                assert(walked.len() == all.len());
            } else {
                assert((empty + all.take(k as int)).len() == k);
            }
        },
        None => {
            assert(walked == all);
        },
    }
    assert forall|i: int| 0 <= i < ps.len() implies all.contains(#[trigger] ps[i]) by {
        assert(ps.to_multiset().count(ps[i]) > 0) by {
            assert(ps.contains(ps[i]));
        }
        assert(walked.contains(ps[i]));
        let j = choose|j: int| 0 <= j < walked.len() && walked[j] == ps[i];
        match limit {
            Some(k) => {
                if 0 >= k {
                } else if all.len() <= k {
                    assert(all[j] == ps[i]);
                } else {
                    assert((empty + all.take(k as int))[j] == all[j]);
                }
            },
            None => {
                assert(all[j] == ps[i]);
            },
        }
    }
}

} // verus!
