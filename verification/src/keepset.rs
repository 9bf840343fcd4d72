//! The keep-set builder: the set of paths, relative to the context root,
//! that a reconciliation pass must not delete.
//!
//! The set always contains the context root itself (the empty path) and
//! every source's destination. A source without file rules claims its whole
//! walked subtree; one with rules claims exactly the walked paths its rules
//! classify as kept. The set only ever grows while sources are processed.

use vstd::prelude::*;

use crate::classify::{keep_decision, match_files_and_mark};
use crate::config::{Source, SourceV};
use crate::paths::{path_clone, path_concat, path_eq, split_path_spec, split_segments, WalkEntry, WalkEntryV};
use crate::pattern::{
    all_rule_texts_valid, glob_pattern_valid, parse_file_rules, rules_of_texts, spec_rule_pattern,
    BadPatternError,
};

verus! {

broadcast use vstd::prelude::Seq::lemma_push_to_set_commute;

/// A set of root-relative paths to preserve, modelled as a set of segment
/// sequences.
pub struct KeepSet {
    pub paths: Vec<Vec<String>>,
}

impl View for KeepSet {
    type V = Set<Seq<Seq<char>>>;

    open spec fn view(&self) -> Set<Seq<Seq<char>>> {
        self.paths.deep_view().to_set()
    }
}

impl KeepSet {
    /// The empty keep set.
    pub fn new() -> (r: KeepSet)
        ensures
            r@ == Set::<Seq<Seq<char>>>::empty(),
    {
        let r = KeepSet { paths: Vec::new() };
        proof {
            assert(r.paths.deep_view() =~= Seq::<Seq<Seq<char>>>::empty());
            assert(r@ =~= Set::<Seq<Seq<char>>>::empty());
        }
        r
    }

    /// Whether the set holds this path.
    pub fn contains(&self, p: &Vec<String>) -> (r: bool)
        ensures
            r == self@.contains(p.deep_view()),
    {
        let mut i: usize = 0;
        while i < self.paths.len()
            invariant
                i <= self.paths@.len(),
                forall|k: int| 0 <= k < i ==> #[trigger] self.paths.deep_view()[k] != p.deep_view(),
            decreases self.paths@.len() - i,
        {
            if path_eq(&self.paths[i], p) {
                proof {
                    assert(self.paths.deep_view()[i as int] == p.deep_view());
                    assert(self.paths.deep_view().contains(p.deep_view()));
                }
                return true;
            }
            i += 1;
        }
        proof {
            assert(!self.paths.deep_view().contains(p.deep_view()));
        }
        false
    }

    /// Adds a path; the set grows by exactly that path.
    pub fn insert(&mut self, p: Vec<String>)
        ensures
            final(self)@ == old(self)@.insert(p.deep_view()),
    {
        let ghost pre = self.paths.deep_view();
        self.paths.push(p);
        proof {
            assert(self.paths.deep_view() =~= pre.push(p.deep_view()));
            assert(self@ =~= old(self)@.insert(p.deep_view()));
        }
    }
}

/// The rule texts a source file list denotes, if one is given.
pub open spec fn files_texts(files: Option<&Vec<String>>) -> Option<Seq<Seq<char>>> {
    match files {
        Some(v) => Some(v.deep_view()),
        None => None,
    }
}

/// The paths one source claims: its destination, and below it either the
/// whole walked subtree (no rules) or exactly the walked paths its rules
/// keep. A rule list that is present but empty claims nothing beyond the
/// destination.
pub open spec fn source_keep_paths(
    dest: Seq<char>,
    files: Option<Seq<Seq<char>>>,
    entries: Seq<WalkEntryV>,
) -> Set<Seq<Seq<char>>> {
    let d = split_path_spec(dest);
    let claimed = match files {
        None => Set::new(
            |p: Seq<Seq<char>>|
                exists|j: int| 0 <= j < entries.len() && p == d + (#[trigger] entries[j]).path,
        ),
        Some(texts) => Set::new(
            |p: Seq<Seq<char>>|
                texts.len() > 0 && exists|j: int|
                    0 <= j < entries.len() && keep_decision(
                        (#[trigger] entries[j]).path,
                        rules_of_texts(texts),
                    ) && p == d + entries[j].path,
        ),
    };
    claimed.insert(d)
}

/// Whether a file list's rules all carry valid patterns (no rules counts as
/// valid).
pub open spec fn files_valid(files: Option<Seq<Seq<char>>>) -> bool {
    match files {
        None => true,
        Some(texts) => all_rule_texts_valid(texts),
    }
}

/// Adds to the keep set everything one destination claims: the destination
/// path itself always; below it the whole walked subtree when there are no
/// file rules, else exactly the walked paths the rules keep. A malformed
/// pattern aborts before anything is added.
pub fn process_destination(
    dest: &str,
    files: Option<&Vec<String>>,
    entries: &Vec<WalkEntry>,
    keep_files: &mut KeepSet,
) -> (r: Result<(), BadPatternError>)
    ensures
        r is Ok <==> files_valid(files_texts(files)),
        r is Ok ==> final(keep_files)@ == old(keep_files)@.union(
            source_keep_paths(dest@, files_texts(files), entries.deep_view()),
        ),
        r is Err ==> final(keep_files)@ == old(keep_files)@,
        r matches Err(e) ==> files_texts(files) matches Some(texts) && {
            &&& e.index < texts.len()
            &&& !glob_pattern_valid(spec_rule_pattern(texts[e.index as int]))
            &&& forall|i: int|
                0 <= i < e.index ==> glob_pattern_valid(spec_rule_pattern(#[trigger] texts[i]))
            &&& e.pattern@ == spec_rule_pattern(texts[e.index as int])
        },
{
    let dest_segs = split_segments(dest);
    let ghost d = split_path_spec(dest@);
    match files {
        None => {
            keep_files.insert(path_clone(&dest_segs));
            let mut i: usize = 0;
            while i < entries.len()
                invariant
                    i <= entries@.len(),
                    dest_segs.deep_view() == d,
                    keep_files@ == old(keep_files)@.insert(d).union(
                        Set::new(
                            |p: Seq<Seq<char>>|
                                exists|j: int|
                                    0 <= j < i && p == d + (#[trigger] entries.deep_view()[j]).path,
                        ),
                    ),
                decreases entries@.len() - i,
            {
                let full = path_concat(&dest_segs, &entries[i].segs);
                proof {
                    assert(full.deep_view() == d + entries.deep_view()[i as int].path);
                }
                let ghost pre = keep_files@;
                keep_files.insert(full);
                proof {
                    assert forall|p: Seq<Seq<char>>| #[trigger]
                        keep_files@.contains(p) <==> old(keep_files)@.insert(d).union(
                        Set::new(
                            |q: Seq<Seq<char>>|
                                exists|j: int|
                                    0 <= j < i + 1 && q == d + (
                                    #[trigger] entries.deep_view()[j]).path,
                        ),
                    ).contains(p) by {
                        if keep_files@.contains(p) && p != d + entries.deep_view()[i as int].path {
                            assert(pre.contains(p));
                        }
                        if p == d + entries.deep_view()[i as int].path {
                            assert(keep_files@.contains(p));
                        }
                    }
                    assert(keep_files@ =~= old(keep_files)@.insert(d).union(
                        Set::new(
                            |q: Seq<Seq<char>>|
                                exists|j: int|
                                    0 <= j < i + 1 && q == d + (
                                    #[trigger] entries.deep_view()[j]).path,
                        ),
                    ));
                }
                i += 1;
            }
            proof {
                assert(keep_files@ =~= old(keep_files)@.union(
                    source_keep_paths(dest@, files_texts(files), entries.deep_view()),
                ));
            }
            Ok(())
        },
        Some(raw) => {
            let rules = match parse_file_rules(raw) {
                Ok(rules) => rules,
                Err(e) => {
                    return Err(e);
                },
            };
            let ghost texts = raw.deep_view();
            proof {
                assert(rules.deep_view().len() == rules@.len());
                assert(rules_of_texts(texts).len() == texts.len());
            }
            let marks = match_files_and_mark(entries, &rules);
            keep_files.insert(path_clone(&dest_segs));
            let mut i: usize = 0;
            while i < marks.len()
                invariant
                    i <= marks@.len(),
                    dest_segs.deep_view() == d,
                    rules.deep_view() == rules_of_texts(texts),
                    texts.len() > 0 ==> marks@.len() == entries@.len(),
                    texts.len() == 0 ==> marks@.len() == 0,
                    rules@.len() == texts.len(),
                    forall|k: int|
                        0 <= k < marks@.len() ==> (#[trigger] marks@[k]).0@ == entries@[k].segs@
                            && marks@[k].1 == keep_decision(
                            entries@[k].path(),
                            rules.deep_view(),
                        ),
                    keep_files@ == old(keep_files)@.insert(d).union(
                        Set::new(
                            |p: Seq<Seq<char>>|
                                texts.len() > 0 && exists|j: int|
                                    0 <= j < i && keep_decision(
                                        (#[trigger] entries.deep_view()[j]).path,
                                        rules_of_texts(texts),
                                    ) && p == d + entries.deep_view()[j].path,
                        ),
                    ),
                decreases marks@.len() - i,
            {
                let ghost pre = keep_files@;
                let kept = marks[i].1;
                if kept {
                    let full = path_concat(&dest_segs, &marks[i].0);
                    proof {
                        assert(marks@[i as int].0.deep_view() =~= entries@[i as int].segs.deep_view());
                        assert(full.deep_view() == d + entries.deep_view()[i as int].path);
                    }
                    keep_files.insert(full);
                }
                proof {
                    let post = old(keep_files)@.insert(d).union(
                        Set::new(
                            |p: Seq<Seq<char>>|
                                texts.len() > 0 && exists|j: int|
                                    0 <= j < i + 1 && keep_decision(
                                        (#[trigger] entries.deep_view()[j]).path,
                                        rules_of_texts(texts),
                                    ) && p == d + entries.deep_view()[j].path,
                        ),
                    );
                    assert forall|p: Seq<Seq<char>>| #[trigger]
                        keep_files@.contains(p) <==> post.contains(p) by {
                        if keep_files@.contains(p) && !pre.contains(p) {
                            assert(kept && p == d + entries.deep_view()[i as int].path);
                        }
                        if post.contains(p) && !pre.contains(p) {
                            assert(kept && p == d + entries.deep_view()[i as int].path);
                            assert(keep_files@.contains(p));
                        }
                    }
                    assert(keep_files@ =~= post);
                }
                i += 1;
            }
            proof {
                if texts.len() > 0 {
                    assert(keep_files@ =~= old(keep_files)@.union(
                        source_keep_paths(dest@, files_texts(files), entries.deep_view()),
                    ));
                } else {
                    assert(keep_files@ =~= old(keep_files)@.union(
                        source_keep_paths(dest@, files_texts(files), entries.deep_view()),
                    ));
                }
            }
            Ok(())
        },
    }
}

/// Whether every source's rule list carries only valid patterns.
pub open spec fn sources_rules_valid(sources: Seq<SourceV>) -> bool {
    forall|i: int| 0 <= i < sources.len() ==> files_valid((#[trigger] sources[i]).files())
}

/// The keep set denoted by a source list and the walks of their
/// destinations (`walks[i]` is the walk below source `i`'s destination):
/// the context root — the empty path — plus every source's claim.
pub open spec fn spec_keep_set(
    sources: Seq<SourceV>,
    walks: Seq<Seq<WalkEntryV>>,
) -> Set<Seq<Seq<char>>>
    decreases sources.len(),
{
    if sources.len() == 0 {
        Set::<Seq<Seq<char>>>::empty().insert(Seq::empty())
    } else {
        spec_keep_set(sources.drop_last(), walks).union(
            source_keep_paths(
                sources.last().dest(),
                sources.last().files(),
                walks[sources.len() - 1],
            ),
        )
    }
}

/// Builds the keep set for a whole reconciliation pass: the context root,
/// and every source's destination and claimed subtree, with `walks[i]` the
/// walk below source `i`'s destination (empty when it does not exist on
/// disk). Sources are processed in order; the set only grows. The first
/// malformed pattern in any source's rules aborts the build.
pub fn build_keep_set(sources: &Vec<Source>, walks: &Vec<Vec<WalkEntry>>) -> (r: Result<
    KeepSet,
    BadPatternError,
>)
    requires
        walks@.len() == sources@.len(),
    ensures
        r is Ok <==> sources_rules_valid(sources.deep_view()),
        r matches Ok(k) ==> k@ == spec_keep_set(sources.deep_view(), walks.deep_view()),
        r matches Err(e) ==> exists|i: int|
            {
                &&& 0 <= i < sources.deep_view().len()
                &&& forall|k: int|
                    0 <= k < i ==> files_valid((#[trigger] sources.deep_view()[k]).files())
                &&& (#[trigger] sources.deep_view()[i]).files() matches Some(texts) && {
                    &&& e.index < texts.len()
                    &&& !glob_pattern_valid(spec_rule_pattern(texts[e.index as int]))
                    &&& e.pattern@ == spec_rule_pattern(texts[e.index as int])
                }
            },
{
    let mut keep = KeepSet::new();
    let root_path: Vec<String> = Vec::new();
    let ghost rp = root_path.deep_view();
    keep.insert(root_path);
    proof {
        assert(rp =~= Seq::<Seq<char>>::empty());
        assert(keep@ =~= spec_keep_set(sources.deep_view().take(0), walks.deep_view()));
    }
    let mut i: usize = 0;
    while i < sources.len()
        invariant
            walks@.len() == sources@.len(),
            i <= sources@.len(),
            keep@ == spec_keep_set(sources.deep_view().take(i as int), walks.deep_view()),
            forall|k: int|
                0 <= k < i ==> files_valid((#[trigger] sources.deep_view()[k]).files()),
        decreases sources@.len() - i,
    {
        let src = &sources[i];
        let dest = src.dest();
        let files = src.files();
        proof {
            assert(files_texts(files) == sources.deep_view()[i as int].files());
            assert(dest@ == sources.deep_view()[i as int].dest());
        }
        let ghost pre = keep@;
        match process_destination(dest, files, &walks[i], &mut keep) {
            Ok(()) => {},
            Err(e) => {
                proof {
                    assert(!files_valid((sources.deep_view()[i as int]).files()));
                }
                return Err(e);
            },
        }
        proof {
            let sdv = sources.deep_view();
            let wdv = walks.deep_view();
            assert(walks@[i as int].deep_view() == wdv[i as int]);
            assert(sdv.take(i + 1).drop_last() =~= sdv.take(i as int));
            assert(sdv.take(i + 1).last() == sdv[i as int]);
            assert(keep@ == pre.union(source_keep_paths(sdv[i as int].dest(), sdv[i as int].files(), wdv[i as int])));
            assert(keep@ == spec_keep_set(sdv.take(i + 1), wdv));
        }
        i += 1;
    }
    proof {
        assert(sources.deep_view().take(sources@.len() as int) =~= sources.deep_view());
    }
    Ok(keep)
}

/// The context root — the empty path — is in every built keep set, whatever
/// the sources: together with the reconciler's plan, which never names a
/// path of depth zero, the root itself is never deleted.
pub proof fn lemma_keep_set_holds_root(sources: Seq<SourceV>, walks: Seq<Seq<WalkEntryV>>)
    ensures
        spec_keep_set(sources, walks).contains(Seq::<Seq<char>>::empty()),
    decreases sources.len(),
{
    if sources.len() > 0 {
        lemma_keep_set_holds_root(sources.drop_last(), walks);
    }
}

/// A source without file rules claims every entry of its destination's
/// walk, each prefixed by the destination path — the whole subtree, though
/// no rule names any entry individually.
pub proof fn lemma_whole_subtree_claimed(dest: Seq<char>, entries: Seq<WalkEntryV>, j: int)
    requires
        0 <= j < entries.len(),
    ensures
        source_keep_paths(dest, None, entries).contains(
            split_path_spec(dest) + entries[j].path,
        ),
{
    let d = split_path_spec(dest);
    let p = d + entries[j].path;
    assert(p == d + (entries[j]).path);
}

/// Every path of one source's claim is in the keep set built from any
/// source list holding that source.
pub proof fn lemma_source_claim_in_keep_set(
    sources: Seq<SourceV>,
    walks: Seq<Seq<WalkEntryV>>,
    i: int,
)
    requires
        0 <= i < sources.len(),
    ensures
        source_keep_paths(sources[i].dest(), sources[i].files(), walks[i]).subset_of(
            spec_keep_set(sources, walks),
        ),
    decreases sources.len(),
{
    if i == sources.len() - 1 {
        assert(sources.last() == sources[i]);
    } else {
        lemma_source_claim_in_keep_set(sources.drop_last(), walks, i);
        assert(sources.drop_last()[i] == sources[i]);
    }
}

/// Keep-set monotonicity: the keep set built from a prefix of the source
/// list is contained in the keep set built from the whole list — processing
/// a further source can never un-keep a path an earlier source kept.
pub proof fn lemma_keep_set_monotonic(
    sources: Seq<SourceV>,
    walks: Seq<Seq<WalkEntryV>>,
    n: int,
)
    requires
        0 <= n <= sources.len(),
    ensures
        spec_keep_set(sources.take(n), walks).subset_of(spec_keep_set(sources, walks)),
    decreases sources.len() - n,
{
    if n == sources.len() {
        assert(sources.take(n) =~= sources);
    } else {
        lemma_keep_set_monotonic(sources, walks, n + 1);
        assert(sources.take(n + 1).drop_last() =~= sources.take(n));
        assert(sources.take(n + 1).len() == n + 1);
        assert(spec_keep_set(sources.take(n + 1), walks) == spec_keep_set(
            sources.take(n),
            walks,
        ).union(
            source_keep_paths(
                sources.take(n + 1).last().dest(),
                sources.take(n + 1).last().files(),
                walks[n],
            ),
        ));
    }
}

} // verus!
