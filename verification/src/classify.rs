//! The path classifier: given a rule list and the entries of a walked root,
//! label every entry keep or discard.
//!
//! The policy: rules are partitioned into keep and delete patterns. With no
//! keep pattern present every path is kept by default; otherwise a path must
//! match some keep pattern. A matching delete pattern always wins. An empty
//! rule list classifies nothing at all: the result is empty, deliberately,
//! so a caller treats "no rules" as "nothing decided" rather than "keep
//! everything".

use vstd::prelude::*;

use crate::paths::{path_clone, WalkEntry};
use crate::pattern::{glob_seg_matches, rule_matches, FileRule, RuleV};

verus! {

/// Whether the rule list contains at least one keep rule.
pub open spec fn has_keep_rule(rules: Seq<RuleV>) -> bool {
    exists|i: int| 0 <= i < rules.len() && (#[trigger] rules[i]).keep
}

/// Whether some keep rule of the list matches the path.
pub open spec fn some_keep_matches(rules: Seq<RuleV>, path: Seq<Seq<char>>) -> bool {
    exists|i: int|
        0 <= i < rules.len() && (#[trigger] rules[i]).keep && glob_seg_matches(
            rules[i].pattern,
            path,
        )
}

/// Whether some delete rule of the list matches the path.
pub open spec fn some_delete_matches(rules: Seq<RuleV>, path: Seq<Seq<char>>) -> bool {
    exists|i: int|
        0 <= i < rules.len() && !(#[trigger] rules[i]).keep && glob_seg_matches(
            rules[i].pattern,
            path,
        )
}

/// Whether a path relative to the classified root survives under a non-empty
/// rule list: kept by default when no keep pattern exists, otherwise only
/// when a keep pattern matches; a matching delete pattern always discards.
pub open spec fn keep_decision(path: Seq<Seq<char>>, rules: Seq<RuleV>) -> bool {
    (!has_keep_rule(rules) || some_keep_matches(rules, path)) && !some_delete_matches(rules, path)
}

fn rules_have_keep(rules: &Vec<FileRule>) -> (r: bool)
    ensures
        r == has_keep_rule(rules.deep_view()),
{
    let mut i: usize = 0;
    while i < rules.len()
        invariant
            i <= rules@.len(),
            forall|k: int| 0 <= k < i ==> !(#[trigger] rules.deep_view()[k]).keep,
        decreases rules@.len() - i,
    {
        if matches!(&rules[i], FileRule::Keep(_)) {
            assert(rules.deep_view()[i as int].keep);
            return true;
        }
        i += 1;
    }
    false
}

fn any_keep_matches(rules: &Vec<FileRule>, segs: &Vec<String>) -> (r: bool)
    ensures
        r == some_keep_matches(rules.deep_view(), segs.deep_view()),
{
    let mut i: usize = 0;
    while i < rules.len()
        invariant
            i <= rules@.len(),
            forall|k: int|
                0 <= k < i ==> !((#[trigger] rules.deep_view()[k]).keep && glob_seg_matches(
                    rules.deep_view()[k].pattern,
                    segs.deep_view(),
                )),
        decreases rules@.len() - i,
    {
        let is_keep = matches!(&rules[i], FileRule::Keep(_));
        if is_keep && rule_matches(&rules[i], segs) {
            assert((rules.deep_view()[i as int]).keep && glob_seg_matches(
                rules.deep_view()[i as int].pattern,
                segs.deep_view(),
            ));
            return true;
        }
        i += 1;
    }
    false
}

fn any_delete_matches(rules: &Vec<FileRule>, segs: &Vec<String>) -> (r: bool)
    ensures
        r == some_delete_matches(rules.deep_view(), segs.deep_view()),
{
    let mut i: usize = 0;
    while i < rules.len()
        invariant
            i <= rules@.len(),
            forall|k: int|
                0 <= k < i ==> !(!(#[trigger] rules.deep_view()[k]).keep && glob_seg_matches(
                    rules.deep_view()[k].pattern,
                    segs.deep_view(),
                )),
        decreases rules@.len() - i,
    {
        let is_delete = matches!(&rules[i], FileRule::Delete(_));
        if is_delete && rule_matches(&rules[i], segs) {
            assert(!(rules.deep_view()[i as int]).keep && glob_seg_matches(
                rules.deep_view()[i as int].pattern,
                segs.deep_view(),
            ));
            return true;
        }
        i += 1;
    }
    false
}

/// Classifies every walked entry against the rule list, in walk order: each
/// result pair carries the entry's path and its keep decision. An empty rule
/// list yields an empty result.
pub fn match_files_and_mark(entries: &Vec<WalkEntry>, rules: &Vec<FileRule>) -> (r: Vec<
    (Vec<String>, bool),
>)
    ensures
        rules@.len() == 0 ==> r@.len() == 0,
        rules@.len() > 0 ==> {
            &&& r@.len() == entries@.len()
            &&& forall|i: int|
                0 <= i < entries@.len() ==> (#[trigger] r@[i]).0@ == entries@[i].segs@ && r@[i].1
                    == keep_decision(entries@[i].path(), rules.deep_view())
        },
{
    let mut r: Vec<(Vec<String>, bool)> = Vec::new();
    if rules.len() == 0 {
        return r;
    }
    let default_keep = !rules_have_keep(rules);
    let mut i: usize = 0;
    while i < entries.len()
        invariant
            rules@.len() > 0,
            default_keep == !has_keep_rule(rules.deep_view()),
            i <= entries@.len(),
            r@.len() == i,
            forall|k: int|
                0 <= k < i ==> (#[trigger] r@[k]).0@ == entries@[k].segs@ && r@[k].1
                    == keep_decision(entries@[k].path(), rules.deep_view()),
        decreases entries@.len() - i,
    {
        let e = &entries[i];
        let should_keep = (default_keep || any_keep_matches(rules, &e.segs)) && !any_delete_matches(
            rules,
            &e.segs,
        );
        assert(should_keep == keep_decision(entries@[i as int].path(), rules.deep_view()));
        r.push((path_clone(&e.segs), should_keep));
        i += 1;
    }
    r
}

} // verus!
