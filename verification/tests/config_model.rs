use copilot_context::config::{
    default_context_config, make_source, ContextConfig, Source, SourceUpdate,
};
use copilot_context::materialize::{git_clone_args, http_status_is_success, script_is_blank};

fn sample_config() -> ContextConfig {
    ContextConfig {
        version: 1,
        dest: Some(".copilot-context".to_string()),
        sources: vec![
            Source::Repo {
                name: "repo1".to_string(),
                repo: "https://github.com/example/repo.git".to_string(),
                branch: Some("main".to_string()),
                dest: "vendor/repo1".to_string(),
                files: Some(vec!["*".to_string()]),
            },
            Source::Url {
                name: "url1".to_string(),
                url: "https://example.com/file.txt".to_string(),
                dest: "file.txt".to_string(),
                files: None,
            },
        ],
    }
}

#[test]
fn test_add_source_appends() {
    let mut config = sample_config();
    config.add_source(Source::Sh {
        name: "script1".to_string(),
        script: "echo hi".to_string(),
        dest: "scripts".to_string(),
    });
    assert_eq!(config.sources.len(), 3);
    assert_eq!(config.sources[2].name(), "script1");
}

#[test]
fn test_remove_source_by_name() {
    let mut config = sample_config();
    assert!(config.remove_source("repo1"));
    assert_eq!(config.sources.len(), 1);
    assert_eq!(config.sources[0].name(), "url1");
    assert!(!config.remove_source("repo1"));
    assert_eq!(config.sources.len(), 1);
}

#[test]
fn test_update_source_overwrites_named_fields() {
    let mut config = sample_config();
    let update = SourceUpdate::from_args(
        None,
        None,
        None,
        Some("vendor/elsewhere".to_string()),
        Some("dev".to_string()),
        None,
        None,
    );
    assert!(config.update_source("repo1", update));
    match &config.sources[0] {
        Source::Repo { repo, branch, dest, files, .. } => {
            assert_eq!(repo, "https://github.com/example/repo.git");
            assert_eq!(branch.as_deref(), Some("dev"));
            assert_eq!(dest, "vendor/elsewhere");
            assert_eq!(files.as_ref().unwrap(), &vec!["*".to_string()]);
        }
        _ => panic!("Expected repo source"),
    }
}

#[test]
fn test_update_source_missing_name_changes_nothing() {
    let mut config = sample_config();
    let update = SourceUpdate::from_args(
        None,
        None,
        None,
        Some("moved".to_string()),
        None,
        None,
        None,
    );
    assert!(!config.update_source("nobody", update));
    match &config.sources[0] {
        Source::Repo { dest, .. } => assert_eq!(dest, "vendor/repo1"),
        _ => panic!("Expected repo source"),
    }
}

#[test]
fn test_make_source_each_kind() {
    let repo = make_source(
        "repo",
        "r".to_string(),
        Some("https://example.com/r.git".to_string()),
        None,
        None,
        "vendor/r".to_string(),
        Some("main".to_string()),
        None,
        None,
    );
    assert!(matches!(repo, Source::Repo { .. }));

    let url = make_source(
        "url",
        "u".to_string(),
        None,
        Some("https://example.com/f.txt".to_string()),
        None,
        "f.txt".to_string(),
        None,
        None,
        None,
    );
    assert!(matches!(url, Source::Url { .. }));

    let path = make_source(
        "path",
        "p".to_string(),
        None,
        None,
        Some("README.md".to_string()),
        "notes/README.md".to_string(),
        None,
        None,
        None,
    );
    assert!(matches!(path, Source::Path { .. }));

    let sh = make_source(
        "sh",
        "s".to_string(),
        None,
        None,
        None,
        "scripts".to_string(),
        None,
        None,
        Some("echo hi".to_string()),
    );
    match sh {
        Source::Sh { name, script, dest } => {
            assert_eq!(name, "s");
            assert_eq!(script, "echo hi");
            assert_eq!(dest, "scripts");
        }
        _ => panic!("Expected sh source"),
    }
}

#[test]
fn test_source_name_accessor() {
    let config = sample_config();
    assert_eq!(config.sources[0].name(), "repo1");
    assert_eq!(config.sources[1].name(), "url1");
}

#[test]
fn test_default_config_shape() {
    let config = default_context_config();
    assert_eq!(config.version, 1);
    assert_eq!(config.dest.as_deref(), Some(".copilot-context"));
    assert_eq!(config.sources.len(), 4);
    assert!(matches!(&config.sources[0], Source::Repo { .. }));
    assert!(matches!(&config.sources[1], Source::Url { .. }));
    assert!(matches!(&config.sources[2], Source::Path { .. }));
    assert!(matches!(&config.sources[3], Source::Sh { .. }));
    match &config.sources[0] {
        Source::Repo { name, repo, branch, dest, files } => {
            assert_eq!(name, "example-repo");
            assert_eq!(repo, "https://github.com/example/repo.git");
            assert_eq!(branch.as_deref(), Some("main"));
            assert_eq!(dest, "vendor/example-repo");
            assert_eq!(files.as_ref().unwrap()[0], "*");
        }
        _ => panic!("Expected repo source"),
    }
}

#[test]
fn test_git_clone_args_with_and_without_branch() {
    let with_branch = git_clone_args(
        "https://example.com/r.git",
        "vendor/r",
        &Some("main".to_string()),
    );
    assert_eq!(
        with_branch,
        vec!["clone", "--depth=1", "--branch", "main", "https://example.com/r.git", "vendor/r"]
    );
    let without = git_clone_args("https://example.com/r.git", "vendor/r", &None);
    assert_eq!(
        without,
        vec!["clone", "--depth=1", "https://example.com/r.git", "vendor/r"]
    );
}

#[test]
fn test_script_is_blank() {
    assert!(script_is_blank(""));
    assert!(script_is_blank(" \t\r\n"));
    assert!(!script_is_blank("echo hi"));
    assert!(!script_is_blank("  x  "));
}

#[test]
fn test_http_status_boundaries() {
    assert!(http_status_is_success(200));
    assert!(http_status_is_success(204));
    assert!(http_status_is_success(299));
    assert!(!http_status_is_success(199));
    assert!(!http_status_is_success(300));
    assert!(!http_status_is_success(404));
}
