use copilot_context::pattern::{parse_file_rules, rule_matches, FileRule};

fn segs(path: &str) -> Vec<String> {
    copilot_context::paths::split_segments(path)
}

#[test]
fn test_parse_file_rules() {
    let rules = parse_file_rules(&vec![
        "*".to_string(),
        "!foo.log".to_string(),
        "bar.txt".to_string(),
    ])
    .unwrap();
    assert_eq!(rules.len(), 3);
}

#[test]
fn test_file_rule_patterns() {
    let rules =
        parse_file_rules(&vec!["foo/*.rs".to_string(), "!foo/bar.rs".to_string()]).unwrap();
    match &rules[0] {
        FileRule::Keep(_) => assert!(rule_matches(&rules[0], &segs("foo/main.rs"))),
        _ => panic!("Expected Keep pattern"),
    }
    match &rules[1] {
        FileRule::Delete(_) => assert!(rule_matches(&rules[1], &segs("foo/bar.rs"))),
        _ => panic!("Expected Delete pattern"),
    }

    let keep_rules = parse_file_rules(&vec!["*.rs".to_string()]).unwrap();
    let has_keep_patterns = keep_rules
        .iter()
        .any(|rule| matches!(rule, FileRule::Keep(_)));
    assert!(has_keep_patterns);

    let delete_rules = parse_file_rules(&vec!["!*.rs".to_string()]).unwrap();
    let has_keep_patterns = delete_rules
        .iter()
        .any(|rule| matches!(rule, FileRule::Keep(_)));
    assert!(!has_keep_patterns);
}

#[test]
fn test_parse_keeps_rule_order_and_tags() {
    let rules = parse_file_rules(&vec!["!a".to_string(), "b".to_string()]).unwrap();
    assert!(matches!(&rules[0], FileRule::Delete(p) if p == "a"));
    assert!(matches!(&rules[1], FileRule::Keep(p) if p == "b"));
}

#[test]
fn test_parse_malformed_pattern_is_error() {
    let err = parse_file_rules(&vec!["ok.txt".to_string(), "a[".to_string()]).unwrap_err();
    assert_eq!(err.index, 1);
    assert_eq!(err.pattern, "a[");
}

#[test]
fn test_parse_malformed_delete_pattern_reports_remainder() {
    let err = parse_file_rules(&vec!["!b[".to_string()]).unwrap_err();
    assert_eq!(err.index, 0);
    assert_eq!(err.pattern, "b[");
}

#[test]
fn test_rule_matches_goes_through_glob() {
    let rules = parse_file_rules(&vec!["*.rs".to_string(), "!**/*.txt".to_string()]).unwrap();
    assert!(rule_matches(&rules[0], &segs("main.rs")));
    assert!(!rule_matches(&rules[0], &segs("notes.txt")));
    // default glob options let `*` cross `/`
    assert!(rule_matches(&rules[0], &segs("sub/main.rs")));
    assert!(rule_matches(&rules[1], &segs("a/b/notes.txt")));
    assert!(rule_matches(&rules[1], &segs("notes.txt")));
    assert!(!rule_matches(&rules[1], &segs("notes.md")));
}

#[test]
fn test_split_segments_drops_empty_and_dot() {
    assert_eq!(segs("a/b/c"), vec!["a", "b", "c"]);
    assert_eq!(segs("a//b/"), vec!["a", "b"]);
    assert_eq!(segs("./a/./b"), vec!["a", "b"]);
    assert_eq!(segs("."), Vec::<String>::new());
    assert_eq!(segs(""), Vec::<String>::new());
}
