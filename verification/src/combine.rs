//! Assembling file contents into one text: the compute core of the
//! "combine" utility. Files are optionally sorted by path, each content is
//! optionally preceded by a header line derived from a format string, and a
//! separator stands between consecutive files. Collecting the files and
//! delivering the result (file, clipboard, standard output) happen outside
//! this crate.

use vstd::prelude::*;
use vstd::string::StrSliceExecFns;
use vstd::string::StringExecFns;

verus! {

/// The options of one combine invocation: which files (glob patterns over
/// the context folder), where the result goes, and how it is assembled.
#[derive(Debug)]
pub struct CombineArgs {
    /// Glob patterns or specific paths of files to combine, relative to the
    /// context directory.
    pub patterns: Vec<String>,
    /// Output file for the combined content; standard output otherwise.
    pub output: Option<String>,
    /// Copy the combined content to the clipboard instead.
    pub clipboard: bool,
    /// Put a header line before each file's content.
    pub with_headers: bool,
    /// Header format; `{path}` stands for the file's path.
    pub header_format: String,
    /// Separator between combined files.
    pub separator: String,
    /// Sort files by path before combining.
    pub sort_files: bool,
}

/// Code-point order on texts: `a` comes no later than `b`.
pub open spec fn lex_le(a: Seq<char>, b: Seq<char>) -> bool
    decreases a.len(),
{
    if a.len() == 0 {
        true
    } else if b.len() == 0 {
        false
    } else if a[0] == b[0] {
        lex_le(a.skip(1), b.skip(1))
    } else {
        (a[0] as u32) < (b[0] as u32)
    }
}

/// Decides the code-point order of two texts.
pub fn str_lex_le(a: &str, b: &str) -> (r: bool)
    ensures
        r == lex_le(a@, b@),
{
    let an = a.unicode_len();
    let bn = b.unicode_len();
    let mut i: usize = 0;
    proof {
        assert(a@.skip(0) =~= a@);
        assert(b@.skip(0) =~= b@);
    }
    while i < an && i < bn
        invariant
            i <= an,
            i <= bn,
            an == a@.len(),
            bn == b@.len(),
            lex_le(a@, b@) == lex_le(a@.skip(i as int), b@.skip(i as int)),
        decreases an - i,
    {
        let ca = a.get_char(i);
        let cb = b.get_char(i);
        if ca == cb {
            proof {
                assert(a@.skip(i as int).skip(1) =~= a@.skip(i + 1));
                assert(b@.skip(i as int).skip(1) =~= b@.skip(i + 1));
            }
            i += 1;
        } else {
            return (ca as u32) < (cb as u32);
        }
    }
    i >= an
}

/// The view of one combined file: its path and its content.
pub open spec fn pair_view(p: (String, String)) -> (Seq<char>, Seq<char>) {
    (p.0@, p.1@)
}

/// The views of a list of combined files.
pub open spec fn pairs_view(v: Seq<(String, String)>) -> Seq<(Seq<char>, Seq<char>)> {
    Seq::new(v.len(), |i: int| pair_view(v[i]))
}

/// Where stable insertion puts a file among already arranged ones: after
/// every file whose path comes no later than its own.
pub open spec fn insert_sorted(
    x: (Seq<char>, Seq<char>),
    s: Seq<(Seq<char>, Seq<char>)>,
) -> Seq<(Seq<char>, Seq<char>)>
    decreases s.len(),
{
    if s.len() == 0 {
        seq![x]
    } else if lex_le(s.last().0, x.0) {
        s.push(x)
    } else {
        insert_sorted(x, s.drop_last()).push(s.last())
    }
}

/// The stable arrangement of the files by path: each file in turn inserted
/// after every already placed file whose path comes no later.
pub open spec fn sort_spec(s: Seq<(Seq<char>, Seq<char>)>) -> Seq<(Seq<char>, Seq<char>)>
    decreases s.len(),
{
    if s.len() == 0 {
        Seq::empty()
    } else {
        insert_sorted(s.last(), sort_spec(s.drop_last()))
    }
}

proof fn lemma_insert_sorted_at(
    x: (Seq<char>, Seq<char>),
    s: Seq<(Seq<char>, Seq<char>)>,
    pos: int,
)
    requires
        0 <= pos <= s.len(),
        forall|k: int| pos <= k < s.len() ==> !lex_le((#[trigger] s[k]).0, x.0),
        pos > 0 ==> lex_le(s[pos - 1].0, x.0),
    ensures
        insert_sorted(x, s) == s.insert(pos, x),
    decreases s.len(),
{
    if s.len() == 0 {
        assert(insert_sorted(x, s) =~= s.insert(0, x));
    } else if pos == s.len() {
        assert(lex_le(s.last().0, x.0));
        assert(insert_sorted(x, s) =~= s.insert(pos, x));
    } else {
        assert(!lex_le(s.last().0, x.0));
        lemma_insert_sorted_at(x, s.drop_last(), pos);
        assert(insert_sorted(x, s) =~= s.insert(pos, x));
    }
}

/// Arranges the files by path, stably, as `sort_spec` lays them out.
pub fn sort_pairs(v: Vec<(String, String)>) -> (r: Vec<(String, String)>)
    ensures
        pairs_view(r@) == sort_spec(pairs_view(v@)),
{
    let mut rest = v;
    let mut r: Vec<(String, String)> = Vec::new();
    let ghost orig = pairs_view(rest@);
    let total = rest.len();
    let mut i: usize = 0;
    proof {
        assert(pairs_view(r@) =~= sort_spec(orig.take(0)));
    }
    while i < total
        invariant
            i <= total,
            total == orig.len(),
            pairs_view(rest@) == orig,
            rest@.len() == total,
            pairs_view(r@) == sort_spec(orig.take(i as int)),
        decreases total - i,
    {
        let x = (rest[i].0.clone(), rest[i].1.clone());
        proof {
            assert(pair_view(x) == orig[i as int]);
        }
        let mut pos: usize = r.len();
        while pos > 0 && !str_lex_le(r[pos - 1].0.as_str(), x.0.as_str())
            invariant
                pos <= r@.len(),
                forall|k: int|
                    pos <= k < r@.len() ==> !lex_le((#[trigger] pairs_view(r@)[k]).0, pair_view(x).0),
            decreases pos,
        {
            proof {
                assert(pairs_view(r@)[pos - 1].0 == r@[pos - 1].0@);
            }
            pos -= 1;
        }
        let ghost r_pre = pairs_view(r@);
        proof {
            lemma_insert_sorted_at(pair_view(x), r_pre, pos as int);
        }
        r.insert(pos, x);
        proof {
            assert(pairs_view(r@) =~= r_pre.insert(pos as int, pair_view(x)));
            assert(orig.take(i + 1).drop_last() =~= orig.take(i as int));
            assert(orig.take(i + 1).last() == orig[i as int]);
            assert(pairs_view(r@) == sort_spec(orig.take(i + 1)));
        }
        i += 1;
    }
    proof {
        assert(orig.take(total as int) =~= orig);
    }
    r
}

/// The order is total: of two texts, one comes no later than the other.
pub proof fn lemma_lex_total(a: Seq<char>, b: Seq<char>)
    ensures
        lex_le(a, b) || lex_le(b, a),
    decreases a.len(),
{
    if a.len() > 0 && b.len() > 0 {
        if a[0] == b[0] {
            lemma_lex_total(a.skip(1), b.skip(1));
        } else {
            assert((a[0] as u32) != (b[0] as u32)) by {
                let ua = a[0] as u32;
                let ub = b[0] as u32;
                if ua == ub {
                    vstd::utf8::char_u32_cast(a[0], ua);
                    vstd::utf8::char_u32_cast(b[0], ub);
                    assert(false);
                }
            }
        }
    }
}

/// The order is transitive.
pub proof fn lemma_lex_trans(a: Seq<char>, b: Seq<char>, c: Seq<char>)
    requires
        lex_le(a, b),
        lex_le(b, c),
    ensures
        lex_le(a, c),
    decreases a.len(),
{
    if a.len() > 0 {
        assert(b.len() > 0);
        assert(c.len() > 0);
        if a[0] == b[0] && b[0] == c[0] {
            lemma_lex_trans(a.skip(1), b.skip(1), c.skip(1));
        }
    }
}

/// The files stand in path order.
pub open spec fn sorted_by_path(s: Seq<(Seq<char>, Seq<char>)>) -> bool {
    forall|a: int, b: int| 0 <= a < b < s.len() ==> lex_le((#[trigger] s[a]).0, (#[trigger] s[b]).0)
}

proof fn lemma_insert_sorted_elems(x: (Seq<char>, Seq<char>), s: Seq<(Seq<char>, Seq<char>)>)
    ensures
        insert_sorted(x, s).len() == s.len() + 1,
        forall|a: int|
            0 <= a < insert_sorted(x, s).len() ==> (#[trigger] insert_sorted(x, s)[a] == x
                || s.contains(insert_sorted(x, s)[a])),
    decreases s.len(),
{
    if s.len() == 0 {
    } else if lex_le(s.last().0, x.0) {
        assert forall|a: int| 0 <= a < insert_sorted(x, s).len() implies (
        #[trigger] insert_sorted(x, s)[a] == x || s.contains(insert_sorted(x, s)[a])) by {
            if a < s.len() {
                assert(insert_sorted(x, s)[a] == s[a]);
            }
        }
    } else {
        lemma_insert_sorted_elems(x, s.drop_last());
        let ins = insert_sorted(x, s.drop_last());
        assert forall|a: int| 0 <= a < insert_sorted(x, s).len() implies (
        #[trigger] insert_sorted(x, s)[a] == x || s.contains(insert_sorted(x, s)[a])) by {
            if a < ins.len() {
                assert(insert_sorted(x, s)[a] == ins[a]);
                if ins[a] != x {
                    assert(s.drop_last().contains(ins[a]));
                    let j = choose|j: int|
                        0 <= j < s.drop_last().len() && s.drop_last()[j] == ins[a];
                    assert(s[j] == ins[a]);
                }
            } else {
                assert(insert_sorted(x, s)[a] == s.last());
                assert(s[s.len() - 1] == s.last());
            }
        }
    }
}

proof fn lemma_insert_sorted_keeps_sorted(
    x: (Seq<char>, Seq<char>),
    s: Seq<(Seq<char>, Seq<char>)>,
)
    requires
        sorted_by_path(s),
    ensures
        sorted_by_path(insert_sorted(x, s)),
    decreases s.len(),
{
    if s.len() == 0 {
    } else if lex_le(s.last().0, x.0) {
        assert forall|a: int, b: int|
            0 <= a < b < insert_sorted(x, s).len() implies lex_le(
            (#[trigger] insert_sorted(x, s)[a]).0,
            (#[trigger] insert_sorted(x, s)[b]).0,
        ) by {
            if b < s.len() {
                assert(insert_sorted(x, s)[a] == s[a] && insert_sorted(x, s)[b] == s[b]);
            } else {
                assert(insert_sorted(x, s)[b] == x);
                assert(insert_sorted(x, s)[a] == s[a]);
                if a < s.len() - 1 {
                    assert(lex_le(s[a].0, s.last().0));
                    lemma_lex_trans(s[a].0, s.last().0, x.0);
                }
            }
        }
    } else {
        assert(sorted_by_path(s.drop_last())) by {
            assert forall|a: int, b: int|
                0 <= a < b < s.drop_last().len() implies lex_le(
                (#[trigger] s.drop_last()[a]).0,
                (#[trigger] s.drop_last()[b]).0,
            ) by {
                assert(s[a] == s.drop_last()[a] && s[b] == s.drop_last()[b]);
            }
        }
        lemma_insert_sorted_keeps_sorted(x, s.drop_last());
        lemma_insert_sorted_elems(x, s.drop_last());
        let ins = insert_sorted(x, s.drop_last());
        lemma_lex_total(s.last().0, x.0);
        assert forall|a: int, b: int|
            0 <= a < b < insert_sorted(x, s).len() implies lex_le(
            (#[trigger] insert_sorted(x, s)[a]).0,
            (#[trigger] insert_sorted(x, s)[b]).0,
        ) by {
            if b < ins.len() {
                assert(insert_sorted(x, s)[a] == ins[a] && insert_sorted(x, s)[b] == ins[b]);
            } else {
                assert(insert_sorted(x, s)[b] == s.last());
                assert(insert_sorted(x, s)[a] == ins[a]);
                if ins[a] == x {
                    assert(lex_le(x.0, s.last().0));
                } else {
                    assert(s.drop_last().contains(ins[a]));
                    let j = choose|j: int|
                        0 <= j < s.drop_last().len() && s.drop_last()[j] == ins[a];
                    assert(s[j] == ins[a]);
                    assert(lex_le(s[j].0, s.last().0));
                }
            }
        }
    }
}

proof fn lemma_insert_sorted_multiset(x: (Seq<char>, Seq<char>), s: Seq<(Seq<char>, Seq<char>)>)
    ensures
        insert_sorted(x, s).to_multiset() == s.to_multiset().insert(x),
    decreases s.len(),
{
    broadcast use vstd::seq_lib::group_to_multiset_ensures;

    if s.len() == 0 {
        assert(seq![x] =~= Seq::<(Seq<char>, Seq<char>)>::empty().push(x));
        assert(seq![x].to_multiset() =~= s.to_multiset().insert(x));
    } else if lex_le(s.last().0, x.0) {
        assert(s.push(x).to_multiset() =~= s.to_multiset().insert(x));
    } else {
        lemma_insert_sorted_multiset(x, s.drop_last());
        let ins = insert_sorted(x, s.drop_last());
        assert(ins.push(s.last()).to_multiset() =~= ins.to_multiset().insert(s.last()));
        assert(s.drop_last().push(s.last()) =~= s);
        assert(s.to_multiset() =~= s.drop_last().to_multiset().insert(s.last()));
        assert(s.drop_last().to_multiset().insert(x).insert(s.last())
            =~= s.drop_last().to_multiset().insert(s.last()).insert(x));
    }
}

/// The arrangement really sorts: it is in path order and holds exactly the
/// given files, multiplicities included.
pub proof fn lemma_sort_spec_sorted_permutation(s: Seq<(Seq<char>, Seq<char>)>)
    ensures
        sorted_by_path(sort_spec(s)),
        sort_spec(s).to_multiset() == s.to_multiset(),
    decreases s.len(),
{
    broadcast use vstd::seq_lib::group_to_multiset_ensures;

    if s.len() > 0 {
        lemma_sort_spec_sorted_permutation(s.drop_last());
        lemma_insert_sorted_keeps_sorted(s.last(), sort_spec(s.drop_last()));
        lemma_insert_sorted_multiset(s.last(), sort_spec(s.drop_last()));
        assert(s.drop_last().push(s.last()) =~= s);
        assert(s.to_multiset() =~= s.drop_last().to_multiset().insert(s.last()));
    }
}

/// The placeholder that a header format may carry for the file's path.
pub open spec fn path_placeholder() -> Seq<char> {
    seq!['{', 'p', 'a', 't', 'h', '}']
}

/// The header format with every occurrence of the placeholder replaced by
/// the path, scanning left to right without overlap.
pub open spec fn replace_path_spec(fmt: Seq<char>, path: Seq<char>) -> Seq<char>
    decreases fmt.len(),
{
    if fmt.len() < 6 {
        fmt
    } else if fmt.take(6) == path_placeholder() {
        path + replace_path_spec(fmt.skip(6), path)
    } else {
        seq![fmt[0]] + replace_path_spec(fmt.skip(1), path)
    }
}

/// Replaces every `{path}` in the header format by the path.
pub fn replace_path(fmt: &str, path: &str) -> (r: String)
    ensures
        r@ == replace_path_spec(fmt@, path@),
{
    let n = fmt.unicode_len();
    let mut out = String::new();
    let mut i: usize = 0;
    proof {
        assert(fmt@.skip(0) =~= fmt@);
        assert(out@ + replace_path_spec(fmt@, path@) =~= replace_path_spec(fmt@, path@));
    }
    while i < n
        invariant
            i <= n,
            n == fmt@.len(),
            out@ + replace_path_spec(fmt@.skip(i as int), path@) == replace_path_spec(fmt@, path@),
        decreases n - i,
    {
        let ghost tail = fmt@.skip(i as int);
        let ghost out_pre = out@;
        if n - i >= 6 && fmt.get_char(i) == '{' && fmt.get_char(i + 1) == 'p' && fmt.get_char(
            i + 2,
        ) == 'a' && fmt.get_char(i + 3) == 't' && fmt.get_char(i + 4) == 'h' && fmt.get_char(i + 5)
            == '}' {
            out.append(path);
            proof {
                assert(tail.take(6) =~= path_placeholder());
                assert(tail.skip(6) =~= fmt@.skip(i + 6));
                assert(out@ + replace_path_spec(fmt@.skip(i + 6), path@) =~= out_pre + (path@
                    + replace_path_spec(tail.skip(6), path@)));
            }
            i += 6;
        } else {
            let c = fmt.substring_char(i, i + 1);
            out.append(c);
            proof {
                assert(c@ =~= seq![tail[0]]);
                assert(tail.skip(1) =~= fmt@.skip(i + 1));
                if tail.len() < 6 {
                    assert(replace_path_spec(tail, path@) == tail);
                    assert(replace_path_spec(tail.skip(1), path@) == tail.skip(1));
                    assert(out@ + replace_path_spec(fmt@.skip(i + 1), path@) =~= out_pre + tail);
                } else {
                    assert(tail.take(6) != path_placeholder()) by {
                        if tail.take(6) == path_placeholder() {
                            assert(tail[0] == '{' && tail[1] == 'p' && tail[2] == 'a' && tail[3]
                                == 't' && tail[4] == 'h' && tail[5] == '}');
                        }
                    }
                    assert(out@ + replace_path_spec(fmt@.skip(i + 1), path@) =~= out_pre + (seq![
                        tail[0],
                    ] + replace_path_spec(tail.skip(1), path@)));
                }
            }
            i += 1;
        }
    }
    proof {
        assert(fmt@.skip(n as int) =~= Seq::<char>::empty());
        assert(out@ + replace_path_spec(fmt@.skip(n as int), path@) =~= out@);
    }
    out
}

/// The combined text of an arranged file list: for each file an optional
/// header line — the format with `{path}` replaced by the file's path,
/// then a newline — the file's content, and the separator after every file
/// but the last.
pub open spec fn combine_spec(
    files: Seq<(Seq<char>, Seq<char>)>,
    with_headers: bool,
    header_format: Seq<char>,
    separator: Seq<char>,
) -> Seq<char>
    decreases files.len(),
{
    if files.len() == 0 {
        Seq::empty()
    } else {
        let header = if with_headers {
            replace_path_spec(header_format, files[0].0) + seq!['\n']
        } else {
            Seq::empty()
        };
        let sep = if files.len() > 1 {
            separator
        } else {
            Seq::empty()
        };
        header + files[0].1 + sep + combine_spec(files.skip(1), with_headers, header_format, separator)
    }
}

/// Combines the files' contents into one text as the options say: sorted
/// by path when asked, each content under its header line when asked, the
/// separator between consecutive files.
pub fn combine_contents(files: Vec<(String, String)>, args: &CombineArgs) -> (r: String)
    ensures
        r@ == combine_spec(
            if args.sort_files {
                sort_spec(pairs_view(files@))
            } else {
                pairs_view(files@)
            },
            args.with_headers,
            args.header_format@,
            args.separator@,
        ),
{
    let ordered = if args.sort_files {
        sort_pairs(files)
    } else {
        files
    };
    let ghost fv = pairs_view(ordered@);
    let n = ordered.len();
    let mut out = String::new();
    let mut i: usize = 0;
    proof {
        assert(fv.skip(0) =~= fv);
        assert(out@ + combine_spec(fv, args.with_headers, args.header_format@, args.separator@)
            =~= combine_spec(fv, args.with_headers, args.header_format@, args.separator@));
    }
    while i < n
        invariant
            i <= n,
            n == fv.len(),
            fv == pairs_view(ordered@),
            n == ordered@.len(),
            out@ + combine_spec(
                fv.skip(i as int),
                args.with_headers,
                args.header_format@,
                args.separator@,
            ) == combine_spec(fv, args.with_headers, args.header_format@, args.separator@),
        decreases n - i,
    {
        let ghost out_pre = out@;
        let ghost tail = fv.skip(i as int);
        if args.with_headers {
            let h = replace_path(args.header_format.as_str(), ordered[i].0.as_str());
            out.append(h.as_str());
            out.append("\n");
        }
        out.append(ordered[i].1.as_str());
        if i + 1 < n {
            out.append(args.separator.as_str());
        }
        proof {
            reveal_strlit("\n");
            assert("\n"@ =~= seq!['\n']);
            assert(tail[0] == pair_view(ordered@[i as int]));
            assert(tail.skip(1) =~= fv.skip(i + 1));
            let header = if args.with_headers {
                replace_path_spec(args.header_format@, tail[0].0) + seq!['\n']
            } else {
                Seq::<char>::empty()
            };
            let sep = if tail.len() > 1 {
                args.separator@
            } else {
                Seq::<char>::empty()
            };
            assert(out@ =~= out_pre + header + tail[0].1 + sep);
            assert(out@ + combine_spec(
                fv.skip(i + 1),
                args.with_headers,
                args.header_format@,
                args.separator@,
            ) =~= out_pre + (header + tail[0].1 + sep + combine_spec(
                tail.skip(1),
                args.with_headers,
                args.header_format@,
                args.separator@,
            )));
        }
        i += 1;
    }
    proof {
        assert(fv.skip(n as int) =~= Seq::<(Seq<char>, Seq<char>)>::empty());
        assert(out@ + combine_spec(
            fv.skip(n as int),
            args.with_headers,
            args.header_format@,
            args.separator@,
        ) =~= out@);
    }
    out
}

} // verus!
