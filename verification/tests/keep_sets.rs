use copilot_context::config::Source;
use copilot_context::keepset::{build_keep_set, process_destination, KeepSet};
use copilot_context::paths::{split_segments, WalkEntry};

fn entry(path: &str, is_dir: bool) -> WalkEntry {
    WalkEntry { segs: split_segments(path), is_dir }
}

fn path_source(name: &str, dest: &str, files: Option<Vec<&str>>) -> Source {
    Source::Path {
        name: name.to_string(),
        path: "dummy".to_string(),
        dest: dest.to_string(),
        files: files.map(|v| v.into_iter().map(|s| s.to_string()).collect()),
    }
}

fn has(keep: &KeepSet, path: &str) -> bool {
    keep.contains(&split_segments(path))
}

#[test]
fn test_whole_subtree_without_rules() {
    let mut keep = KeepSet::new();
    let entries = vec![
        entry("sub", true),
        entry("sub/file.txt", false),
        entry("top.md", false),
    ];
    process_destination("keep", None, &entries, &mut keep).unwrap();
    assert!(has(&keep, "keep"));
    assert!(has(&keep, "keep/sub"));
    assert!(has(&keep, "keep/sub/file.txt"));
    assert!(has(&keep, "keep/top.md"));
    assert!(!has(&keep, "sub"));
    assert!(!has(&keep, "other"));
}

#[test]
fn test_rules_filter_the_claimed_subtree() {
    let mut keep = KeepSet::new();
    let entries = vec![
        entry("file1.rs", false),
        entry("file3.txt", false),
        entry("subdir", true),
        entry("subdir/file4.rs", false),
        entry("subdir/file5.txt", false),
    ];
    let rules: Vec<String> = vec!["**/*.rs".to_string(), "!**/*.txt".to_string()];
    process_destination("src", Some(&rules), &entries, &mut keep).unwrap();
    assert!(has(&keep, "src"));
    assert!(has(&keep, "src/file1.rs"));
    assert!(has(&keep, "src/subdir/file4.rs"));
    assert!(!has(&keep, "src/file3.txt"));
    assert!(!has(&keep, "src/subdir"));
    assert!(!has(&keep, "src/subdir/file5.txt"));
}

#[test]
fn test_missing_destination_claims_only_itself() {
    let mut keep = KeepSet::new();
    process_destination("vendor/repo1", None, &Vec::new(), &mut keep).unwrap();
    assert!(has(&keep, "vendor/repo1"));
    assert!(!has(&keep, "vendor"));
}

#[test]
fn test_empty_rule_list_claims_only_the_destination() {
    let mut keep = KeepSet::new();
    let entries = vec![entry("a.txt", false)];
    let rules: Vec<String> = Vec::new();
    process_destination("dest", Some(&rules), &entries, &mut keep).unwrap();
    assert!(has(&keep, "dest"));
    assert!(!has(&keep, "dest/a.txt"));
}

#[test]
fn test_malformed_rule_aborts_without_adding() {
    let mut keep = KeepSet::new();
    let entries = vec![entry("a.txt", false)];
    let rules: Vec<String> = vec!["[".to_string()];
    let err = process_destination("dest", Some(&rules), &entries, &mut keep).unwrap_err();
    assert_eq!(err.index, 0);
    assert!(!has(&keep, "dest"));
}

#[test]
fn test_build_keep_set_always_holds_the_root() {
    let keep = build_keep_set(&Vec::new(), &Vec::new()).unwrap();
    assert!(keep.contains(&Vec::new()));
}

#[test]
fn test_build_keep_set_aggregates_sources() {
    let sources = vec![
        path_source("keep-source", "keep", None),
        path_source("src-source", "src", Some(vec!["*.rs"])),
    ];
    let walks = vec![
        vec![entry("file1.txt", false)],
        vec![entry("main.rs", false), entry("notes.txt", false)],
    ];
    let keep = build_keep_set(&sources, &walks).unwrap();
    assert!(keep.contains(&Vec::new()));
    assert!(has(&keep, "keep"));
    assert!(has(&keep, "keep/file1.txt"));
    assert!(has(&keep, "src"));
    assert!(has(&keep, "src/main.rs"));
    assert!(!has(&keep, "src/notes.txt"));
}

#[test]
fn test_keep_set_grows_monotonically() {
    let first = vec![path_source("keep-source", "keep", None)];
    let both = vec![
        path_source("keep-source", "keep", None),
        path_source("other", "other", None),
    ];
    let walk_keep = vec![entry("file1.txt", false), entry("file2.txt", false)];
    let walk_other = vec![entry("data.bin", false)];

    let keep_first = build_keep_set(&first, &vec![clone_entries(&walk_keep)]).unwrap();
    let keep_both =
        build_keep_set(&both, &vec![clone_entries(&walk_keep), walk_other]).unwrap();

    for p in ["keep", "keep/file1.txt", "keep/file2.txt"] {
        assert!(has(&keep_first, p));
        assert!(has(&keep_both, p));
    }
    assert!(has(&keep_both, "other/data.bin"));
    assert!(!has(&keep_first, "other/data.bin"));
}

fn clone_entries(v: &[WalkEntry]) -> Vec<WalkEntry> {
    v.iter()
        .map(|e| WalkEntry { segs: e.segs.clone(), is_dir: e.is_dir })
        .collect()
}

#[test]
fn test_sh_source_keeps_whole_output_directory() {
    let sources = vec![Source::Sh {
        name: "test-script".to_string(),
        script: "echo 'test'".to_string(),
        dest: "script_output".to_string(),
    }];
    let walks = vec![vec![
        entry("result1.txt", false),
        entry("result2.log", false),
        entry("subdir", true),
        entry("subdir/nested.txt", false),
    ]];
    let keep = build_keep_set(&sources, &walks).unwrap();
    assert!(has(&keep, "script_output"));
    assert!(has(&keep, "script_output/result1.txt"));
    assert!(has(&keep, "script_output/result2.log"));
    assert!(has(&keep, "script_output/subdir/nested.txt"));
    assert!(!has(&keep, "other_dir/file.txt"));
}
