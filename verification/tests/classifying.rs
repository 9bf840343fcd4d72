use copilot_context::classify::match_files_and_mark;
use copilot_context::paths::{split_segments, WalkEntry};
use copilot_context::pattern::parse_file_rules;

fn entry(path: &str, is_dir: bool) -> WalkEntry {
    WalkEntry { segs: split_segments(path), is_dir }
}

fn classify(paths: &[&str], rules: &[&str]) -> Vec<(String, bool)> {
    let entries: Vec<WalkEntry> = paths.iter().map(|p| entry(p, false)).collect();
    let raw: Vec<String> = rules.iter().map(|r| r.to_string()).collect();
    let parsed = parse_file_rules(&raw).unwrap();
    match_files_and_mark(&entries, &parsed)
        .into_iter()
        .map(|(segs, keep)| (segs.join("/"), keep))
        .collect()
}

#[test]
fn test_default_exclude_with_keep_patterns() {
    let marks = classify(&["a.rs", "b.txt"], &["*.rs"]);
    assert_eq!(marks, vec![("a.rs".to_string(), true), ("b.txt".to_string(), false)]);
}

#[test]
fn test_delete_overrides_keep() {
    let marks = classify(&["foo.log", "bar.txt"], &["*", "!foo.log"]);
    assert_eq!(marks, vec![("foo.log".to_string(), false), ("bar.txt".to_string(), true)]);
}

#[test]
fn test_delete_only_defaults_to_keep() {
    let marks = classify(&["a.txt", "b.md"], &["!*.txt"]);
    assert_eq!(marks, vec![("a.txt".to_string(), false), ("b.md".to_string(), true)]);
}

#[test]
fn test_empty_rules() {
    let marks = classify(&["test.txt"], &[]);
    assert!(marks.is_empty());
}

#[test]
fn test_match_files_and_mark_keep_and_delete() {
    let marks = classify(&["foo.log", "bar.txt", "baz.md"], &["!foo.log", "*.txt", "*.md"]);
    let keep: Vec<&str> = marks.iter().filter(|(_, k)| *k).map(|(p, _)| p.as_str()).collect();
    let delete: Vec<&str> = marks.iter().filter(|(_, k)| !*k).map(|(p, _)| p.as_str()).collect();
    assert!(keep.contains(&"bar.txt"));
    assert!(keep.contains(&"baz.md"));
    assert!(delete.contains(&"foo.log"));

    let marks = classify(&["foo.log", "bar.txt", "baz.md"], &["*.txt"]);
    let keep: Vec<&str> = marks.iter().filter(|(_, k)| *k).map(|(p, _)| p.as_str()).collect();
    assert!(keep.contains(&"bar.txt"));
    assert!(!keep.contains(&"baz.md"));
    assert!(!keep.contains(&"foo.log"));

    let marks = classify(&["foo.log", "bar.txt", "baz.md"], &["!*.txt"]);
    let keep: Vec<&str> = marks.iter().filter(|(_, k)| *k).map(|(p, _)| p.as_str()).collect();
    assert!(!keep.contains(&"bar.txt"));
    assert!(keep.contains(&"baz.md"));
    assert!(keep.contains(&"foo.log"));
}

#[test]
fn test_match_files_and_mark_default_keep() {
    let marks = classify(&["foo.txt"], &["!bar.txt"]);
    let mut found = false;
    for (path, keep) in marks {
        if path == "foo.txt" {
            assert!(keep);
            found = true;
        }
    }
    assert!(found);
}

#[test]
fn test_recursive_patterns_across_subdirectories() {
    let marks = classify(
        &[
            "file1.rs",
            "file2.rs",
            "file3.txt",
            "subdir/file4.rs",
            "subdir/file5.txt",
        ],
        &["**/*.rs", "!**/*.txt"],
    );
    assert_eq!(
        marks,
        vec![
            ("file1.rs".to_string(), true),
            ("file2.rs".to_string(), true),
            ("file3.txt".to_string(), false),
            ("subdir/file4.rs".to_string(), true),
            ("subdir/file5.txt".to_string(), false),
        ]
    );
}

#[test]
fn test_directories_are_classified_like_files() {
    let entries = vec![entry("src", true), entry("src/a.rs", false)];
    let parsed = parse_file_rules(&vec!["**/*.rs".to_string()]).unwrap();
    let marks = match_files_and_mark(&entries, &parsed);
    assert_eq!(marks.len(), 2);
    assert!(!marks[0].1);
    assert!(marks[1].1);
}
