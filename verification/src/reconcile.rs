//! The tree reconciler: prune a walked tree down to a keep set.
//!
//! Reconciliation removes every walked entry whose path is not kept — files
//! unconditionally, directories only once they are empty. Evaluated
//! bottom-up (children before their parent), a single pass settles the
//! whole tree, and an entry is left standing exactly when its path is kept
//! or it is a directory with a kept proper descendant among the walked
//! entries: such a directory never becomes empty. The walked context root
//! itself is not among the entries and is never a removal candidate.

use vstd::prelude::*;

use crate::config::SourceV;
use crate::keepset::{
    lemma_source_claim_in_keep_set, lemma_whole_subtree_claimed, spec_keep_set, KeepSet,
};
use crate::paths::{
    path_clone, path_strict_prefix, split_path_spec, strict_prefix_of, WalkEntry, WalkEntryV,
};

verus! {

/// Whether a walked entry survives reconciliation: its path is kept, or it
/// is a directory with a kept proper descendant among the walked entries.
pub open spec fn survives(
    snap: Seq<WalkEntryV>,
    keep: Set<Seq<Seq<char>>>,
    e: WalkEntryV,
) -> bool {
    keep.contains(e.path) || (e.is_dir && exists|j: int|
        0 <= j < snap.len() && strict_prefix_of(e.path, (#[trigger] snap[j]).path)
            && keep.contains(snap[j].path))
}

pub open spec fn prune_rec(
    snap: Seq<WalkEntryV>,
    keep: Set<Seq<Seq<char>>>,
    rest: Seq<WalkEntryV>,
) -> Seq<WalkEntryV>
    decreases rest.len(),
{
    if rest.len() == 0 {
        Seq::empty()
    } else {
        let before = prune_rec(snap, keep, rest.drop_last());
        if survives(snap, keep, rest.last()) {
            before.push(rest.last())
        } else {
            before
        }
    }
}

/// What reconciliation leaves of a walked tree: exactly the surviving
/// entries, in walk order.
pub open spec fn prune_spec(snap: Seq<WalkEntryV>, keep: Set<Seq<Seq<char>>>) -> Seq<
    WalkEntryV,
> {
    prune_rec(snap, keep, snap)
}

proof fn lemma_prune_rec_membership(
    snap: Seq<WalkEntryV>,
    keep: Set<Seq<Seq<char>>>,
    rest: Seq<WalkEntryV>,
    x: WalkEntryV,
)
    ensures
        prune_rec(snap, keep, rest).contains(x) <==> (rest.contains(x) && survives(
            snap,
            keep,
            x,
        )),
    decreases rest.len(),
{
    if rest.len() > 0 {
        lemma_prune_rec_membership(snap, keep, rest.drop_last(), x);
        let before = prune_rec(snap, keep, rest.drop_last());
        let whole = prune_rec(snap, keep, rest);
        if rest.contains(x) && survives(snap, keep, x) {
            let j = choose|j: int| 0 <= j < rest.len() && rest[j] == x;
            if j < rest.len() - 1 {
                assert(rest.drop_last()[j] == x);
                assert(rest.drop_last().contains(x));
                assert(before.contains(x));
                let i = choose|i: int| 0 <= i < before.len() && before[i] == x;
                if survives(snap, keep, rest.last()) {
                    assert(whole == before.push(rest.last()));
                    assert(whole[i] == x);
                }
                assert(whole.contains(x));
            } else {
                assert(rest.last() == x);
                assert(whole == before.push(x));
                assert(whole[before.len() as int] == x);
                assert(whole.contains(x));
            }
        }
        if whole.contains(x) {
            let i = choose|i: int| 0 <= i < whole.len() && whole[i] == x;
            if survives(snap, keep, rest.last()) {
                assert(whole == before.push(rest.last()));
                if i < before.len() {
                    assert(before[i] == x);
                    assert(before.contains(x));
                    let j = choose|j: int|
                        0 <= j < rest.drop_last().len() && rest.drop_last()[j] == x;
                    assert(rest[j] == x);
                } else {
                    assert(x == rest.last());
                    assert(rest[rest.len() - 1] == x);
                }
            } else {
                assert(whole == before);
                assert(before.contains(x));
                let j = choose|j: int| 0 <= j < rest.drop_last().len() && rest.drop_last()[j] == x;
                assert(rest[j] == x);
            }
            assert(rest.contains(x));
        }
    }
}

/// Membership in the reconciled tree: an entry value is left exactly when
/// it occurs in the walk and survives.
pub proof fn lemma_prune_membership(
    snap: Seq<WalkEntryV>,
    keep: Set<Seq<Seq<char>>>,
    x: WalkEntryV,
)
    ensures
        prune_spec(snap, keep).contains(x) <==> (snap.contains(x) && survives(snap, keep, x)),
{
    lemma_prune_rec_membership(snap, keep, snap, x);
}

proof fn lemma_prune_rec_all_survive(
    snap: Seq<WalkEntryV>,
    keep: Set<Seq<Seq<char>>>,
    rest: Seq<WalkEntryV>,
)
    requires
        forall|j: int| 0 <= j < rest.len() ==> survives(snap, keep, #[trigger] rest[j]),
    ensures
        prune_rec(snap, keep, rest) == rest,
    decreases rest.len(),
{
    if rest.len() > 0 {
        lemma_prune_rec_all_survive(snap, keep, rest.drop_last());
        assert(survives(snap, keep, rest[rest.len() - 1]));
        assert(prune_rec(snap, keep, rest) =~= rest.drop_last().push(rest.last()));
        assert(rest.drop_last().push(rest.last()) =~= rest);
    }
}

/// Everything one pass leaves still survives with respect to what was
/// left: a second pass over the reconciled tree finds nothing to remove.
pub proof fn lemma_pruned_all_survive(snap: Seq<WalkEntryV>, keep: Set<Seq<Seq<char>>>)
    ensures
        forall|j: int|
            0 <= j < prune_spec(snap, keep).len() ==> survives(
                prune_spec(snap, keep),
                keep,
                #[trigger] prune_spec(snap, keep)[j],
            ),
{
    let pruned = prune_spec(snap, keep);
    assert forall|j: int| 0 <= j < pruned.len() implies survives(
        pruned,
        keep,
        #[trigger] pruned[j],
    ) by {
        let e = pruned[j];
        assert(pruned.contains(e));
        lemma_prune_rec_membership(snap, keep, snap, e);
        if !keep.contains(e.path) {
            let k = choose|k: int|
                0 <= k < snap.len() && strict_prefix_of(e.path, snap[k].path) && keep.contains(
                    snap[k].path,
                );
            let d = snap[k];
            assert(snap.contains(d));
            lemma_prune_rec_membership(snap, keep, snap, d);
            assert(pruned.contains(d));
            let m = choose|m: int| 0 <= m < pruned.len() && pruned[m] == d;
            assert(strict_prefix_of(e.path, pruned[m].path) && keep.contains(pruned[m].path));
        }
    }
}

/// Idempotence of reconciliation: pruning what one pass left, against the
/// same keep set, changes nothing — a second run deletes nothing further.
pub proof fn lemma_reconcile_idempotent(snap: Seq<WalkEntryV>, keep: Set<Seq<Seq<char>>>)
    ensures
        prune_spec(prune_spec(snap, keep), keep) == prune_spec(snap, keep),
{
    let pruned = prune_spec(snap, keep);
    lemma_pruned_all_survive(snap, keep);
    lemma_prune_rec_all_survive(pruned, keep, pruned);
}

/// Whole-subtree preservation: every walked entry whose path the keep set
/// holds is left by reconciliation — in particular every file below a
/// destination kept wholesale, though no rule names it individually.
pub proof fn lemma_kept_entry_survives(
    snap: Seq<WalkEntryV>,
    keep: Set<Seq<Seq<char>>>,
    j: int,
)
    requires
        0 <= j < snap.len(),
        keep.contains(snap[j].path),
    ensures
        prune_spec(snap, keep).contains(snap[j]),
{
    lemma_prune_membership(snap, keep, snap[j]);
    assert(snap.contains(snap[j]));
}

/// Whole-subtree preservation, end to end: when source `i` has no file
/// rules, the path of every entry of its destination's walk — destination
/// prefix included — is in the built keep set, and any walked entry of the
/// context tree bearing that path is left by reconciliation, though no rule
/// enumerated it individually.
pub proof fn lemma_whole_subtree_preserved(
    sources: Seq<SourceV>,
    walks: Seq<Seq<WalkEntryV>>,
    i: int,
    j: int,
    snap: Seq<WalkEntryV>,
    k: int,
)
    requires
        0 <= i < sources.len(),
        sources[i].files() is None,
        0 <= j < walks[i].len(),
        0 <= k < snap.len(),
        snap[k].path == split_path_spec(sources[i].dest()) + walks[i][j].path,
    ensures
        spec_keep_set(sources, walks).contains(snap[k].path),
        prune_spec(snap, spec_keep_set(sources, walks)).contains(snap[k]),
{
    lemma_whole_subtree_claimed(sources[i].dest(), walks[i], j);
    lemma_source_claim_in_keep_set(sources, walks, i);
    assert(spec_keep_set(sources, walks).contains(snap[k].path));
    lemma_kept_entry_survives(snap, spec_keep_set(sources, walks), k);
}

/// Empty-directory pruning, removal half: an entry that is not kept and —
/// if a directory — has no kept proper descendant among the walked entries
/// is removed by the pass.
pub proof fn lemma_unkept_entry_pruned(snap: Seq<WalkEntryV>, keep: Set<Seq<Seq<char>>>, j: int)
    requires
        0 <= j < snap.len(),
        !keep.contains(snap[j].path),
        forall|k: int|
            0 <= k < snap.len() && strict_prefix_of(snap[j].path, (#[trigger] snap[k]).path)
                ==> !keep.contains(snap[k].path),
    ensures
        !prune_spec(snap, keep).contains(snap[j]),
{
    lemma_prune_membership(snap, keep, snap[j]);
    assert(!survives(snap, keep, snap[j]));
}

/// Empty-directory pruning, preservation half: a directory with a kept
/// proper descendant among the walked entries is never removed.
pub proof fn lemma_dir_with_kept_descendant_stays(
    snap: Seq<WalkEntryV>,
    keep: Set<Seq<Seq<char>>>,
    j: int,
    k: int,
)
    requires
        0 <= j < snap.len(),
        snap[j].is_dir,
        0 <= k < snap.len(),
        strict_prefix_of(snap[j].path, snap[k].path),
        keep.contains(snap[k].path),
    ensures
        prune_spec(snap, keep).contains(snap[j]),
{
    lemma_prune_membership(snap, keep, snap[j]);
    assert(survives(snap, keep, snap[j]));
    assert(snap.contains(snap[j]));
}

/// Decides whether one walked entry survives reconciliation.
pub fn entry_survives(snap: &Vec<WalkEntry>, keep: &KeepSet, e: &WalkEntry) -> (r: bool)
    ensures
        r == survives(snap.deep_view(), keep@, e@),
{
    if keep.contains(&e.segs) {
        return true;
    }
    if !e.is_dir {
        return false;
    }
    let mut j: usize = 0;
    while j < snap.len()
        invariant
            j <= snap@.len(),
            e@.is_dir,
            forall|k: int|
                0 <= k < j ==> !(strict_prefix_of(e@.path, (#[trigger] snap.deep_view()[k]).path)
                    && keep@.contains(snap.deep_view()[k].path)),
        decreases snap@.len() - j,
    {
        if path_strict_prefix(&e.segs, &snap[j].segs) && keep.contains(&snap[j].segs) {
            proof {
                assert(e@.is_dir);
                assert(snap.deep_view()[j as int].path == snap@[j as int].segs.deep_view());
                assert(strict_prefix_of(e@.path, snap.deep_view()[j as int].path) && keep@.contains(
                    snap.deep_view()[j as int].path,
                ));
                assert(survives(snap.deep_view(), keep@, e@));
            }
            return true;
        }
        proof {
            assert(snap.deep_view()[j as int].path == snap@[j as int].segs.deep_view());
        }
        j += 1;
    }
    false
}

/// What reconciliation will leave of the walked tree: exactly the surviving
/// entries, in walk order.
pub fn surviving_entries(snap: &Vec<WalkEntry>, keep: &KeepSet) -> (r: Vec<WalkEntry>)
    ensures
        r.deep_view() == prune_spec(snap.deep_view(), keep@),
{
    let mut r: Vec<WalkEntry> = Vec::new();
    let mut i: usize = 0;
    proof {
        assert(r.deep_view() =~= prune_rec(snap.deep_view(), keep@, snap.deep_view().take(0)));
    }
    while i < snap.len()
        invariant
            i <= snap@.len(),
            r.deep_view() == prune_rec(snap.deep_view(), keep@, snap.deep_view().take(i as int)),
        decreases snap@.len() - i,
    {
        let ghost pre = r.deep_view();
        let e = &snap[i];
        let keep_it = entry_survives(snap, keep, e);
        if keep_it {
            r.push(WalkEntry { segs: path_clone(&e.segs), is_dir: e.is_dir });
            proof {
                assert(r.deep_view() =~= pre.push(snap.deep_view()[i as int]));
            }
        }
        proof {
            let sdv = snap.deep_view();
            assert(sdv.take(i + 1).drop_last() =~= sdv.take(i as int));
            assert(sdv.take(i + 1).last() == sdv[i as int]);
            assert(r.deep_view() == prune_rec(sdv, keep@, sdv.take(i + 1)));
        }
        i += 1;
    }
    proof {
        assert(snap.deep_view().take(snap@.len() as int) =~= snap.deep_view());
    }
    r
}

/// The removal plan for one reconciliation pass: the paths of every walked
/// entry that does not survive, deepest first, so that executing the plan
/// in order empties each doomed directory before the directory itself is
/// reached. An entry of depth zero — the walked root itself — is never a
/// removal candidate.
pub fn reconcile_plan(snap: &Vec<WalkEntry>, keep: &KeepSet) -> (plan: Vec<Vec<String>>)
    ensures
        forall|p: Seq<Seq<char>>|
            #[trigger] plan.deep_view().contains(p) <==> exists|j: int|
                0 <= j < snap.deep_view().len() && (#[trigger] snap.deep_view()[j]).path == p
                    && !survives(snap.deep_view(), keep@, snap.deep_view()[j]) && p.len() > 0,
        forall|a: int, b: int|
            0 <= a < b < plan.deep_view().len() ==> (#[trigger] plan.deep_view()[a]).len() >= (
            #[trigger] plan.deep_view()[b]).len(),
{
    let ghost sdv = snap.deep_view();
    let mut max_depth: usize = 0;
    let mut i: usize = 0;
    while i < snap.len()
        invariant
            i <= snap@.len(),
            forall|k: int| 0 <= k < i ==> (#[trigger] sdv[k]).path.len() <= max_depth,
            sdv == snap.deep_view(),
        decreases snap@.len() - i,
    {
        if snap[i].segs.len() > max_depth {
            max_depth = snap[i].segs.len();
        }
        proof {
            assert(sdv[i as int].path.len() == snap@[i as int].segs.deep_view().len());
        }
        i += 1;
    }
    let mut plan: Vec<Vec<String>> = Vec::new();
    proof {
        assert(plan.deep_view() =~= Seq::<Seq<Seq<char>>>::empty());
    }
    let mut d: usize = max_depth;
    while d > 0
        invariant
            d <= max_depth,
            sdv == snap.deep_view(),
            forall|k: int| 0 <= k < sdv.len() ==> (#[trigger] sdv[k]).path.len() <= max_depth,
            forall|p: Seq<Seq<char>>|
                #[trigger] plan.deep_view().contains(p) <==> exists|j: int|
                    0 <= j < sdv.len() && (#[trigger] sdv[j]).path == p && !survives(
                        sdv,
                        keep@,
                        sdv[j],
                    ) && p.len() > d,
            forall|a: int| 0 <= a < plan.deep_view().len() ==> (#[trigger] plan.deep_view()[a]).len() > d,
            forall|a: int, b: int|
                0 <= a < b < plan.deep_view().len() ==> (#[trigger] plan.deep_view()[a]).len() >= (
                #[trigger] plan.deep_view()[b]).len(),
        decreases d,
    {
        let mut i: usize = 0;
        while i < snap.len()
            invariant
                i <= snap@.len(),
                d >= 1,
                sdv == snap.deep_view(),
                forall|p: Seq<Seq<char>>|
                    #[trigger] plan.deep_view().contains(p) <==> exists|j: int|
                        0 <= j < sdv.len() && (#[trigger] sdv[j]).path == p && !survives(
                            sdv,
                            keep@,
                            sdv[j],
                        ) && (p.len() > d || (p.len() == d && j < i)),
                forall|a: int|
                    0 <= a < plan.deep_view().len() ==> (#[trigger] plan.deep_view()[a]).len() >= d,
                forall|a: int, b: int|
                    0 <= a < b < plan.deep_view().len() ==> (#[trigger] plan.deep_view()[a]).len()
                        >= (#[trigger] plan.deep_view()[b]).len(),
            decreases snap@.len() - i,
        {
            let e = &snap[i];
            proof {
                assert(sdv[i as int].path == snap@[i as int].segs.deep_view());
            }
            if e.segs.len() == d && !entry_survives(snap, keep, e) {
                let ghost pre = plan.deep_view();
                plan.push(path_clone(&e.segs));
                proof {
                    assert(plan.deep_view() =~= pre.push(sdv[i as int].path));
                    assert forall|p: Seq<Seq<char>>| #[trigger]
                        plan.deep_view().contains(p) <==> exists|j: int|
                            0 <= j < sdv.len() && (#[trigger] sdv[j]).path == p && !survives(
                                sdv,
                                keep@,
                                sdv[j],
                            ) && (p.len() > d || (p.len() == d && j < i + 1)) by {
                        if plan.deep_view().contains(p) {
                            let a = choose|a: int|
                                0 <= a < plan.deep_view().len() && plan.deep_view()[a] == p;
                            if a < pre.len() {
                                assert(pre[a] == p);
                                assert(pre.contains(p));
                            } else {
                                assert(p == sdv[i as int].path);
                            }
                        }
                        if exists|j: int|
                            0 <= j < sdv.len() && (#[trigger] sdv[j]).path == p && !survives(
                                sdv,
                                keep@,
                                sdv[j],
                            ) && (p.len() > d || (p.len() == d && j < i + 1)) {
                            let j = choose|j: int|
                                0 <= j < sdv.len() && (#[trigger] sdv[j]).path == p && !survives(
                                    sdv,
                                    keep@,
                                    sdv[j],
                                ) && (p.len() > d || (p.len() == d && j < i + 1));
                            if p.len() > d || (p.len() == d && j < i) {
                                assert(pre.contains(p));
                                let a = choose|a: int| 0 <= a < pre.len() && pre[a] == p;
                                assert(plan.deep_view()[a] == p);
                            } else {
                                assert(plan.deep_view()[pre.len() as int] == sdv[i as int].path);
                                assert(sdv[j].path.len() == d);
                            }
                            assert(plan.deep_view().contains(p));
                        }
                    }
                }
            } else {
                proof {
                    assert forall|p: Seq<Seq<char>>| #[trigger]
                        plan.deep_view().contains(p) <==> exists|j: int|
                            0 <= j < sdv.len() && (#[trigger] sdv[j]).path == p && !survives(
                                sdv,
                                keep@,
                                sdv[j],
                            ) && (p.len() > d || (p.len() == d && j < i + 1)) by {
                        if exists|j: int|
                            0 <= j < sdv.len() && (#[trigger] sdv[j]).path == p && !survives(
                                sdv,
                                keep@,
                                sdv[j],
                            ) && (p.len() > d || (p.len() == d && j < i + 1)) {
                            let j = choose|j: int|
                                0 <= j < sdv.len() && (#[trigger] sdv[j]).path == p && !survives(
                                    sdv,
                                    keep@,
                                    sdv[j],
                                ) && (p.len() > d || (p.len() == d && j < i + 1));
                            if !(p.len() > d || (p.len() == d && j < i)) {
                                assert(j == i);
                                assert(sdv[i as int].path.len() == d);
                                assert(!survives(sdv, keep@, sdv[i as int]));
                                assert(false);
                            }
                        }
                    }
                }
            }
            i += 1;
        }
        d -= 1;
    }
    plan
}

} // verus!
