//! Unix path semantics on plain strings: components, joining, containment.
//!
//! A component is written as its text: `/` for the root, `.` for a leading
//! current-directory marker, `..` for a parent step, and the name itself for a
//! normal component. No normal component can be `/`, `.` or `..`, so two
//! components are equal exactly when their texts are.
use vstd::prelude::*;

use crate::text::find_char;
use crate::text::find_char_exec;
use crate::text::lemma_find_char;
use crate::text::lemma_find_char_shift;
use crate::text::push_char;
use crate::text::push_str;
use crate::text::to_chars;
use crate::text::views;

verus! {

/// A segment between separators that becomes a component of its own:
/// empty segments and `.` are normalized away.
pub open spec fn kept_segment(seg: Seq<char>) -> bool {
    seg.len() > 0 && seg != seq!['.']
}

/// The components of the separator-delimited segments of `s`, without any
/// leading root or current-directory marker.
pub open spec fn body_components(s: Seq<char>) -> Seq<Seq<char>>
    decreases s.len(),
{
    if s.len() == 0 {
        seq![]
    } else {
        let i = find_char(s, '/', 0);
        proof {
            lemma_find_char(s, '/', 0);
        }
        let seg = s.subrange(0, i);
        let head: Seq<Seq<char>> = if kept_segment(seg) {
            seq![seg]
        } else {
            seq![]
        };
        if i >= s.len() {
            head
        } else {
            head + body_components(s.subrange(i + 1, s.len() as int))
        }
    }
}

pub open spec fn has_root(s: Seq<char>) -> bool {
    s.len() > 0 && s[0] == '/'
}

/// A relative path that starts with a `.` component keeps it.
pub open spec fn leading_cur_dir(s: Seq<char>) -> bool {
    s.len() > 0 && s[0] == '.' && (s.len() == 1 || s[1] == '/')
}

pub open spec fn lead_components(s: Seq<char>) -> Seq<Seq<char>> {
    if has_root(s) {
        seq![seq!['/']]
    } else if leading_cur_dir(s) {
        seq![seq!['.']]
    } else {
        seq![]
    }
}

/// `Path::components` on Unix, each component written as its text.
pub open spec fn path_components(s: Seq<char>) -> Seq<Seq<char>> {
    lead_components(s) + body_components(s)
}

pub open spec fn is_prefix_of<A>(p: Seq<A>, s: Seq<A>) -> bool {
    p.len() <= s.len() && s.subrange(0, p.len() as int) == p
}

/// `child` lies at or under `parent`, component by component.
pub open spec fn is_inside_spec(child: Seq<char>, parent: Seq<char>) -> bool {
    is_prefix_of(path_components(parent), path_components(child))
}

/// `PathBuf::join` on Unix: an absolute `p` replaces `base`; otherwise a
/// separator is inserted unless `base` is empty or already ends with one.
pub open spec fn path_join(base: Seq<char>, p: Seq<char>) -> Seq<char> {
    if has_root(p) {
        p
    } else if base.len() > 0 && base.last() != '/' {
        base + seq!['/'] + p
    } else {
        base + p
    }
}

// ---------------------------------------------------------------------------
// Executable versions
// ---------------------------------------------------------------------------

fn is_kept_segment(s: &[char], lo: usize, hi: usize) -> (b: bool)
    requires
        lo <= hi <= s@.len(),
    ensures
        b == kept_segment(s@.subrange(lo as int, hi as int)),
{
    let seg_len = hi - lo;
    if seg_len == 0 {
        false
    } else if seg_len == 1 && s[lo] == '.' {
        proof {
            assert(s@.subrange(lo as int, hi as int) =~= seq!['.']);
        }
        false
    } else {
        proof {
            if seg_len == 1 {
                assert(s@.subrange(lo as int, hi as int)[0] != '.');
            } else {
                assert(s@.subrange(lo as int, hi as int).len() != seq!['.'].len());
            }
        }
        true
    }
}

fn slice_vec(s: &[char], lo: usize, hi: usize) -> (v: Vec<char>)
    requires
        lo <= hi <= s@.len(),
    ensures
        v@ == s@.subrange(lo as int, hi as int),
{
    let mut v: Vec<char> = Vec::new();
    let mut k = lo;
    while k < hi
        invariant
            lo <= k <= hi <= s@.len(),
            v@ == s@.subrange(lo as int, k as int),
        decreases hi - k,
    {
        v.push(s[k]);
        proof {
            assert(s@.subrange(lo as int, k + 1) =~= s@.subrange(lo as int, k as int).push(s@[k as int]));
        }
        k = k + 1;
    }
    v
}

/// The components of `s`, each as its text.
pub fn components_exec(s: &[char]) -> (r: Vec<Vec<char>>)
    ensures
        views(r@) == path_components(s@),
{
    let mut out: Vec<Vec<char>> = Vec::new();
    if s.len() > 0 && s[0] == '/' {
        let mut root: Vec<char> = Vec::new();
        root.push('/');
        out.push(root);
    } else if s.len() > 0 && s[0] == '.' && (s.len() == 1 || s[1] == '/') {
        let mut cur: Vec<char> = Vec::new();
        cur.push('.');
        out.push(cur);
    }
    proof {
        assert(views(out@) =~= lead_components(s@));
        assert(s@.subrange(0, s@.len() as int) =~= s@);
    }
    let mut p: usize = 0;
    while p < s.len()
        invariant
            p <= s@.len(),
            views(out@) + body_components(s@.subrange(p as int, s@.len() as int))
                == path_components(s@),
        decreases s@.len() - p,
    {
        let ghost rest = s@.subrange(p as int, s@.len() as int);
        let i = find_char_exec(s, '/', p);
        proof {
            lemma_find_char(s@, '/', p as int);
            lemma_find_char_shift(s@, '/', p as int);
            assert(rest.subrange(0, i - p) =~= s@.subrange(p as int, i as int));
        }
        let ghost old_out = out@;
        if is_kept_segment(s, p, i) {
            out.push(slice_vec(s, p, i));
        }
        proof {
            let seg = s@.subrange(p as int, i as int);
            let head: Seq<Seq<char>> = if kept_segment(seg) {
                seq![seg]
            } else {
                seq![]
            };
            assert(views(out@) =~= views(old_out) + head);
            if i >= s@.len() {
                assert(body_components(rest) == head);
                assert(s@.subrange(s@.len() as int, s@.len() as int) =~= Seq::<char>::empty());
                assert(views(out@) + body_components(Seq::<char>::empty()) =~= views(old_out)
                    + body_components(rest));
            } else {
                assert(rest.subrange(i - p + 1, rest.len() as int) =~= s@.subrange(
                    i + 1,
                    s@.len() as int,
                ));
                assert(views(out@) + body_components(s@.subrange(i + 1, s@.len() as int))
                    =~= views(old_out) + body_components(rest));
            }
        }
        if i >= s.len() {
            p = s.len();
        } else {
            p = i + 1;
        }
    }
    proof {
        assert(s@.subrange(p as int, s@.len() as int) =~= Seq::<char>::empty());
        assert(views(out@) + body_components(Seq::<char>::empty()) =~= views(out@));
    }
    out
}

/// Whether the components of `parent` begin the components of `child`:
/// `child` is `parent` itself or lies below it.
pub fn is_inside(child: &str, parent: &str) -> (b: bool)
    ensures
        b == is_inside_spec(child@, parent@),
{
    let c = components_exec(&to_chars(child));
    let p = components_exec(&to_chars(parent));
    if p.len() > c.len() {
        return false;
    }
    let mut i: usize = 0;
    while i < p.len()
        invariant
            p@.len() <= c@.len(),
            i <= p@.len(),
            forall|k: int| 0 <= k < i ==> views(p@)[k] == views(c@)[k],
            views(p@) == path_components(parent@),
            views(c@) == path_components(child@),
        decreases p@.len() - i,
    {
        if !crate::text::chars_eq(&p[i], &c[i]) {
            proof {
                assert(views(p@)[i as int] == p@[i as int]@);
                assert(views(c@)[i as int] == c@[i as int]@);
                assert(views(c@).subrange(0, p@.len() as int)[i as int] == views(c@)[i as int]);
                assert(views(p@).len() == p@.len());
            }
            return false;
        }
        i = i + 1;
    }
    proof {
        assert(views(c@).subrange(0, p@.len() as int) =~= views(p@));
    }
    true
}

/// `base` joined with `p` as `PathBuf::join` does on Unix.
pub fn join_path(base: &str, p: &str) -> (r: String)
    ensures
        r@ == path_join(base@, p@),
{
    let pv = to_chars(p);
    let bv = to_chars(base);
    if pv.len() > 0 && pv[0] == '/' {
        let mut r = String::new();
        push_str(&mut r, p);
        proof {
            assert(r@ =~= p@);
        }
        return r;
    }
    let mut r = String::new();
    push_str(&mut r, base);
    if bv.len() > 0 && bv[bv.len() - 1] != '/' {
        push_char(&mut r, '/');
    }
    push_str(&mut r, p);
    proof {
        assert(r@ =~= path_join(base@, p@));
    }
    r
}

// ---------------------------------------------------------------------------
// Laws
// ---------------------------------------------------------------------------

/// Components of a path followed by a separator and more text: the separator
/// ends the last segment of the first part.
pub proof fn lemma_body_components_concat(u: Seq<char>, y: Seq<char>)
    ensures
        body_components(u + seq!['/'] + y) == body_components(u) + body_components(y),
    decreases u.len(),
{
    let s = u + seq!['/'] + y;
    lemma_find_char(s, '/', 0);
    lemma_find_char(u, '/', 0);
    let i = find_char(u, '/', 0);
    if i < u.len() {
        assert(s[i] == '/');
        assert(find_char(s, '/', 0) == i) by {
            if find_char(s, '/', 0) < i {
                assert(s[find_char(s, '/', 0)] == u[find_char(s, '/', 0)]);
            }
        }
        let u2 = u.subrange(i + 1, u.len() as int);
        assert(s.subrange(0, i) =~= u.subrange(0, i));
        assert(s.subrange(i + 1, s.len() as int) =~= u2 + seq!['/'] + y);
        lemma_body_components_concat(u2, y);
        assert(body_components(s) =~= body_components(u) + body_components(y));
    } else {
        assert(s[u.len() as int] == '/');
        assert(find_char(s, '/', 0) == u.len()) by {
            if find_char(s, '/', 0) < u.len() {
                assert(s[find_char(s, '/', 0)] == u[find_char(s, '/', 0)]);
            }
        }
        assert(s.subrange(0, u.len() as int) =~= u);
        assert(s.subrange(u.len() as int + 1, s.len() as int) =~= y);
        if u.len() == 0 {
            assert(body_components(u) =~= Seq::<Seq<char>>::empty());
            assert(!kept_segment(u));
        } else {
            assert(u.subrange(0, u.len() as int) =~= u);
        }
        assert(body_components(s) =~= body_components(u) + body_components(y));
    }
}

/// Joining a relative path onto a non-empty base only appends components.
pub proof fn lemma_join_components(base: Seq<char>, p: Seq<char>)
    requires
        base.len() > 0,
        !has_root(p),
    ensures
        path_components(path_join(base, p)) == path_components(base) + body_components(p),
{
    let j = path_join(base, p);
    if base.last() != '/' {
        assert(j =~= base + seq!['/'] + p);
        lemma_body_components_concat(base, p);
        assert(j[0] == base[0]);
        if base.len() == 1 {
            assert(j[1] == '/');
        } else {
            assert(j[1] == base[1]);
        }
        assert(lead_components(j) == lead_components(base));
        assert(path_components(j) =~= path_components(base) + body_components(p));
    } else {
        let u = base.drop_last();
        assert(base =~= u + seq!['/'] + Seq::<char>::empty());
        assert(j =~= u + seq!['/'] + p);
        lemma_body_components_concat(u, p);
        lemma_body_components_concat(u, Seq::<char>::empty());
        assert(body_components(Seq::<char>::empty()) =~= Seq::<Seq<char>>::empty());
        assert(j[0] == base[0]);
        if base.len() > 1 {
            assert(j[1] == base[1]);
        }
        assert(lead_components(j) == lead_components(base));
        assert(path_components(j) =~= path_components(base) + body_components(p));
    }
}

/// Every path lies inside itself.
pub proof fn lemma_is_inside_reflexive(p: Seq<char>)
    ensures
        is_inside_spec(p, p),
{
    assert(path_components(p).subrange(0, path_components(p).len() as int) =~= path_components(
        p,
    ));
}

/// Containment is transitive: inside something inside `c` is inside `c`.
pub proof fn lemma_is_inside_transitive(a: Seq<char>, b: Seq<char>, c: Seq<char>)
    requires
        is_inside_spec(a, b),
        is_inside_spec(b, c),
    ensures
        is_inside_spec(a, c),
{
    let ca = path_components(a);
    let cb = path_components(b);
    let cc = path_components(c);
    assert(ca.subrange(0, cc.len() as int) =~= cb.subrange(0, cc.len() as int));
}

/// A relative path joined onto a non-empty base lies inside that base.
pub proof fn lemma_join_is_inside(base: Seq<char>, p: Seq<char>)
    requires
        base.len() > 0,
        !has_root(p),
    ensures
        is_inside_spec(path_join(base, p), base),
        path_join(base, p).len() > 0,
{
    lemma_join_components(base, p);
    let cb = path_components(base);
    assert((cb + body_components(p)).subrange(0, cb.len() as int) =~= cb);
}

} // verus!
