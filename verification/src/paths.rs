//! Paths as sequences of `/`-separated segments, relative to a root.
//!
//! A path is a `Vec<String>` of segments; the context root itself is the
//! empty segment list. Its mathematical model is the deep view
//! `Seq<Seq<char>>`.

use vstd::prelude::*;
use vstd::string::StrSliceExecFns;

verus! {

/// One entry of a recursive directory walk: its path relative to the walked
/// root, as segments, and whether it is a directory.
pub struct WalkEntry {
    pub segs: Vec<String>,
    pub is_dir: bool,
}

/// The model of a walk entry: its path as a segment sequence, and whether it
/// is a directory.
pub ghost struct WalkEntryV {
    pub path: Seq<Seq<char>>,
    pub is_dir: bool,
}

impl WalkEntry {
    /// The segment-sequence model of this entry's path.
    pub open spec fn path(&self) -> Seq<Seq<char>> {
        self.segs.deep_view()
    }
}

impl View for WalkEntry {
    type V = WalkEntryV;

    open spec fn view(&self) -> WalkEntryV {
        WalkEntryV { path: self.segs.deep_view(), is_dir: self.is_dir }
    }
}

impl DeepView for WalkEntry {
    type V = WalkEntryV;

    open spec fn deep_view(&self) -> WalkEntryV {
        self.view()
    }
}

/// `p` is a proper ancestor path of `q`.
pub open spec fn strict_prefix_of(p: Seq<Seq<char>>, q: Seq<Seq<char>>) -> bool {
    p.len() < q.len() && q.subrange(0, p.len() as int) == p
}

/// Segment-wise equality of two paths, decided on the deep views.
pub fn path_eq(a: &Vec<String>, b: &Vec<String>) -> (r: bool)
    ensures
        r == (a.deep_view() == b.deep_view()),
{
    if a.len() != b.len() {
        assert(a.deep_view().len() != b.deep_view().len());
        return false;
    }
    let n = a.len();
    let mut i: usize = 0;
    while i < n
        invariant
            n == a.len() == b.len(),
            i <= n,
            forall|k: int| 0 <= k < i ==> a.deep_view()[k] == b.deep_view()[k],
        decreases n - i,
    {
        if !(a[i] == b[i]) {
            assert(a.deep_view()[i as int] != b.deep_view()[i as int]);
            return false;
        }
        i += 1;
    }
    assert(a.deep_view() =~= b.deep_view());
    true
}

/// Decides whether `a` is a proper ancestor of `b`.
pub fn path_strict_prefix(a: &Vec<String>, b: &Vec<String>) -> (r: bool)
    ensures
        r == strict_prefix_of(a.deep_view(), b.deep_view()),
{
    if a.len() >= b.len() {
        return false;
    }
    let n = a.len();
    let mut i: usize = 0;
    while i < n
        invariant
            n == a.len() < b.len(),
            i <= n,
            forall|k: int| 0 <= k < i ==> a.deep_view()[k] == b.deep_view()[k],
        decreases n - i,
    {
        if !(a[i] == b[i]) {
            assert(b.deep_view().subrange(0, a.deep_view().len() as int)[i as int]
                != a.deep_view()[i as int]);
            return false;
        }
        i += 1;
    }
    assert(b.deep_view().subrange(0, a.deep_view().len() as int) =~= a.deep_view());
    true
}

/// Returns a fresh copy of a path.
pub fn path_clone(p: &Vec<String>) -> (r: Vec<String>)
    ensures
        r@ == p@,
{
    let mut r: Vec<String> = Vec::new();
    let mut i: usize = 0;
    while i < p.len()
        invariant
            i <= p.len(),
            r@.len() == i,
            forall|k: int| 0 <= k < i ==> r@[k] == p@[k],
        decreases p.len() - i,
    {
        r.push(p[i].clone());
        i += 1;
    }
    assert(r@ =~= p@);
    r
}

/// Returns `a` followed by `b`, as a fresh path.
pub fn path_concat(a: &Vec<String>, b: &Vec<String>) -> (r: Vec<String>)
    ensures
        r.deep_view() == a.deep_view() + b.deep_view(),
{
    let mut r: Vec<String> = Vec::new();
    let mut i: usize = 0;
    while i < a.len()
        invariant
            i <= a.len(),
            r@.len() == i,
            forall|k: int| 0 <= k < i ==> r@[k] == a@[k],
        decreases a.len() - i,
    {
        r.push(a[i].clone());
        i += 1;
    }
    let mut j: usize = 0;
    while j < b.len()
        invariant
            j <= b.len(),
            r@.len() == a@.len() + j,
            forall|k: int| 0 <= k < a@.len() ==> r@[k] == a@[k],
            forall|k: int| 0 <= k < j ==> r@[a@.len() + k] == b@[k],
        decreases b.len() - j,
    {
        r.push(b[j].clone());
        j += 1;
    }
    assert(r.deep_view() =~= a.deep_view() + b.deep_view());
    r
}

/// Index of the first `/` in `s`, or `s.len()` when there is none.
pub open spec fn first_sep(s: Seq<char>) -> nat
    decreases s.len(),
{
    if s.len() == 0 {
        0
    } else if s[0] == '/' {
        0
    } else {
        1 + first_sep(s.skip(1))
    }
}

proof fn lemma_first_sep_bounds(s: Seq<char>)
    ensures
        first_sep(s) <= s.len(),
        forall|k: int| 0 <= k < first_sep(s) ==> s[k] != '/',
        first_sep(s) < s.len() ==> s[first_sep(s) as int] == '/',
    decreases s.len(),
{
    if s.len() > 0 && s[0] != '/' {
        lemma_first_sep_bounds(s.skip(1));
        assert forall|k: int| 0 <= k < first_sep(s) implies s[k] != '/' by {
            if k > 0 {
                assert(s.skip(1)[k - 1] != '/');
            }
        }
        if first_sep(s) < s.len() {
            assert(s.skip(1)[first_sep(s) - 1] == '/');
        }
    }
}

/// A raw segment that splitting drops: empty (doubled or trailing `/`) or a
/// lone `.`, which host path handling treats as no step at all.
pub open spec fn seg_dropped(seg: Seq<char>) -> bool {
    seg.len() == 0 || (seg.len() == 1 && seg[0] == '.')
}

/// The segments denoted by a `/`-separated path string, in order, with empty
/// and `.` segments dropped.
pub open spec fn split_path_spec(s: Seq<char>) -> Seq<Seq<char>>
    decreases s.len(),
    via split_path_spec_decreases
{
    if s.len() == 0 {
        Seq::empty()
    } else {
        let m = first_sep(s);
        let seg = s.take(m as int);
        let rest = if m < s.len() {
            s.skip(m as int + 1)
        } else {
            Seq::empty()
        };
        if seg_dropped(seg) {
            split_path_spec(rest)
        } else {
            seq![seg] + split_path_spec(rest)
        }
    }
}

#[via_fn]
proof fn split_path_spec_decreases(s: Seq<char>) {
    lemma_first_sep_bounds(s);
}

/// Splits a path string on `/` into its segments, dropping empty and `.`
/// segments.
pub fn split_segments(s: &str) -> (r: Vec<String>)
    ensures
        r.deep_view() == split_path_spec(s@),
{
    let n = s.unicode_len();
    let mut r: Vec<String> = Vec::new();
    let mut pos: usize = 0;
    proof {
        assert(s@.skip(0) =~= s@);
    }
    while pos < n
        invariant
            pos <= n,
            n == s@.len(),
            r.deep_view() + split_path_spec(s@.skip(pos as int)) == split_path_spec(s@),
        decreases n - pos,
    {
        let ghost tail = s@.skip(pos as int);
        let mut j: usize = pos;
        while j < n && s.get_char(j) != '/'
            invariant
                pos <= j <= n,
                n == s@.len(),
                forall|k: int| pos <= k < j ==> s@[k] != '/',
            decreases n - j,
        {
            j += 1;
        }
        proof {
            lemma_first_sep_bounds(tail);
            assert(forall|t: int| 0 <= t < j - pos ==> tail[t] != '/');
            if first_sep(tail) < j - pos {
                assert(tail[first_sep(tail) as int] == '/');
                assert(false);
            }
            if first_sep(tail) > j - pos {
                assert(j < n);
                assert(tail[j - pos] == '/');
                assert(false);
            }
            assert(first_sep(tail) == j - pos);
        }
        let seg = s.substring_char(pos, j).to_owned();
        proof {
            assert(seg@ =~= tail.take(j - pos));
        }
        let dropped = j == pos || (j == pos + 1 && s.get_char(pos) == '.');
        assert(dropped == seg_dropped(tail.take(j - pos)));
        let ghost r_old = r.deep_view();
        if !dropped {
            r.push(seg);
            proof {
                assert(r.deep_view() =~= r_old.push(tail.take(j - pos)));
                assert(r.deep_view() =~= r_old + seq![tail.take(j - pos)]);
            }
        }
        let next = if j < n {
            j + 1
        } else {
            n
        };
        proof {
            if j < n {
                assert(tail.skip(j - pos + 1) =~= s@.skip(j + 1));
            } else {
                assert(s@.skip(n as int) =~= Seq::<char>::empty());
            }
            assert(r.deep_view() + split_path_spec(s@.skip(next as int)) == split_path_spec(s@))
                by {
                if !dropped {
                    assert(r.deep_view() + split_path_spec(s@.skip(next as int)) =~= r_old + (seq![
                        tail.take(j - pos),
                    ] + split_path_spec(s@.skip(next as int))));
                    assert(seq![tail.take(j - pos)] + split_path_spec(s@.skip(next as int))
                        == split_path_spec(tail));
                } else {
                    assert(split_path_spec(s@.skip(next as int)) == split_path_spec(tail));
                }
            }
        }
        pos = next;
    }
    proof {
        assert(s@.skip(n as int) =~= Seq::<char>::empty());
        assert(r.deep_view() =~= r.deep_view() + split_path_spec(Seq::<char>::empty()));
    }
    r
}

} // verus!
