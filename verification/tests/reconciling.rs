use copilot_context::config::Source;
use copilot_context::keepset::{build_keep_set, KeepSet};
use copilot_context::paths::{split_segments, WalkEntry};
use copilot_context::reconcile::{entry_survives, reconcile_plan, surviving_entries};

fn entry(path: &str, is_dir: bool) -> WalkEntry {
    WalkEntry { segs: split_segments(path), is_dir }
}

fn path_source(name: &str, dest: &str, files: Option<Vec<&str>>) -> Source {
    Source::Path {
        name: name.to_string(),
        path: "dummy".to_string(),
        dest: dest.to_string(),
        files: files.map(|v| v.into_iter().map(|s| s.to_string()).collect()),
    }
}

fn plan_paths(plan: &[Vec<String>]) -> Vec<String> {
    plan.iter().map(|p| p.join("/")).collect()
}

#[test]
fn test_clean_removes_unspecified_files() {
    let sources = vec![path_source("keep-source", "keep", None)];
    let walks = vec![vec![entry("file1.txt", false), entry("file2.txt", false)]];
    let keep = build_keep_set(&sources, &walks).unwrap();

    let snap = vec![
        entry("keep", true),
        entry("keep/file1.txt", false),
        entry("keep/file2.txt", false),
        entry("remove", true),
        entry("remove/file1.txt", false),
        entry("remove/file2.txt", false),
        entry("remove/subdir", true),
        entry("remove/subdir/file3.txt", false),
    ];
    let plan = plan_paths(&reconcile_plan(&snap, &keep));
    assert!(!plan.contains(&"keep".to_string()));
    assert!(!plan.contains(&"keep/file1.txt".to_string()));
    assert!(!plan.contains(&"keep/file2.txt".to_string()));
    assert!(plan.contains(&"remove/file1.txt".to_string()));
    assert!(plan.contains(&"remove/file2.txt".to_string()));
    assert!(plan.contains(&"remove/subdir/file3.txt".to_string()));
    assert!(plan.contains(&"remove/subdir".to_string()));
    assert!(plan.contains(&"remove".to_string()));
}

#[test]
fn test_plan_is_ordered_children_before_parents() {
    let sources = vec![path_source("keep-source", "keep", None)];
    let keep = build_keep_set(&sources, &vec![Vec::new()]).unwrap();
    let snap = vec![
        entry("remove", true),
        entry("remove/subdir", true),
        entry("remove/subdir/file3.txt", false),
    ];
    let plan = plan_paths(&reconcile_plan(&snap, &keep));
    assert_eq!(
        plan,
        vec![
            "remove/subdir/file3.txt".to_string(),
            "remove/subdir".to_string(),
            "remove".to_string(),
        ]
    );
}

#[test]
fn test_reconcile_is_idempotent() {
    let sources = vec![path_source("src-source", "src", Some(vec!["**/*.rs", "!**/*.txt"]))];
    let walks = vec![vec![
        entry("file1.rs", false),
        entry("file3.txt", false),
        entry("subdir", true),
        entry("subdir/file4.rs", false),
        entry("subdir/file5.txt", false),
    ]];
    let keep = build_keep_set(&sources, &walks).unwrap();
    let snap = vec![
        entry("src", true),
        entry("src/file1.rs", false),
        entry("src/file3.txt", false),
        entry("src/subdir", true),
        entry("src/subdir/file4.rs", false),
        entry("src/subdir/file5.txt", false),
    ];
    let left = surviving_entries(&snap, &keep);
    let second_plan = reconcile_plan(&left, &keep);
    assert!(second_plan.is_empty());
    let left_again = surviving_entries(&left, &keep);
    assert_eq!(
        left.iter().map(|e| e.segs.join("/")).collect::<Vec<_>>(),
        left_again.iter().map(|e| e.segs.join("/")).collect::<Vec<_>>()
    );
}

#[test]
fn test_whole_subtree_survives_reconciliation() {
    let sources = vec![path_source("keep-source", "keep", None)];
    let walks = vec![vec![entry("sub", true), entry("sub/file.txt", false)]];
    let keep = build_keep_set(&sources, &walks).unwrap();
    let snap = vec![
        entry("keep", true),
        entry("keep/sub", true),
        entry("keep/sub/file.txt", false),
        entry("stray.txt", false),
    ];
    let left: Vec<String> =
        surviving_entries(&snap, &keep).iter().map(|e| e.segs.join("/")).collect();
    assert!(left.contains(&"keep".to_string()));
    assert!(left.contains(&"keep/sub".to_string()));
    assert!(left.contains(&"keep/sub/file.txt".to_string()));
    assert!(!left.contains(&"stray.txt".to_string()));
}

#[test]
fn test_empty_directory_is_pruned_and_occupied_one_stays() {
    let sources = vec![path_source("src-source", "src", Some(vec!["**/*.rs"]))];
    let walks = vec![vec![
        entry("good", true),
        entry("good/lib.rs", false),
        entry("bad", true),
        entry("bad/notes.txt", false),
    ]];
    let keep = build_keep_set(&sources, &walks).unwrap();
    let snap = vec![
        entry("src", true),
        entry("src/good", true),
        entry("src/good/lib.rs", false),
        entry("src/bad", true),
        entry("src/bad/notes.txt", false),
    ];
    let plan = plan_paths(&reconcile_plan(&snap, &keep));
    assert!(plan.contains(&"src/bad".to_string()));
    assert!(plan.contains(&"src/bad/notes.txt".to_string()));
    assert!(!plan.contains(&"src/good".to_string()));
    assert!(!plan.contains(&"src".to_string()));
}

#[test]
fn test_directory_with_kept_descendant_survives() {
    let mut keep = KeepSet::new();
    keep.insert(split_segments("a/b/c.txt"));
    let snap = vec![
        entry("a", true),
        entry("a/b", true),
        entry("a/b/c.txt", false),
    ];
    assert!(entry_survives(&snap, &keep, &entry("a", true)));
    assert!(entry_survives(&snap, &keep, &entry("a/b", true)));
    assert!(entry_survives(&snap, &keep, &entry("a/b/c.txt", false)));
    assert!(!entry_survives(&snap, &keep, &entry("other", true)));
}

#[test]
fn test_every_entry_either_survives_or_is_planned() {
    let mut keep = KeepSet::new();
    keep.insert(split_segments("keep/file.txt"));
    let snap = vec![
        entry("keep", true),
        entry("keep/file.txt", false),
        entry("gone", true),
        entry("gone/old.txt", false),
    ];
    let left: Vec<String> =
        surviving_entries(&snap, &keep).iter().map(|e| e.segs.join("/")).collect();
    let plan = plan_paths(&reconcile_plan(&snap, &keep));
    for e in &snap {
        let p = e.segs.join("/");
        assert!(left.contains(&p) != plan.contains(&p));
    }
}

#[test]
fn test_unkept_file_never_survives_even_with_kept_descendant_path() {
    let mut keep = KeepSet::new();
    keep.insert(split_segments("a/b"));
    let snap = vec![entry("a", false), entry("a/b", false)];
    assert!(!entry_survives(&snap, &keep, &entry("a", false)));
}
