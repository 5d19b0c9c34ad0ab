use code_search::pathfilter::GitignoreMatcher;

fn rules(lines: &[&str]) -> Vec<String> {
    lines.iter().map(|l| l.to_string()).collect()
}

fn test_repo_matcher() -> GitignoreMatcher {
    GitignoreMatcher::new(
        "/repo",
        &vec![(String::new(), rules(&["target/", "*.o", "*.tmp"]))],
    )
}

#[test]
fn test_create_matcher() {
    let matcher = test_repo_matcher();
    assert_eq!(matcher.codebase_path(), "/repo");
}

#[test]
fn test_is_ignored_target() {
    let matcher = test_repo_matcher();

    assert!(matcher.is_ignored("target", true));
    assert!(matcher.is_ignored("target/", true));
    assert!(matcher.is_ignored("target/debug", false));
}

#[test]
fn test_is_not_ignored_source() {
    let matcher = test_repo_matcher();

    assert!(!matcher.is_ignored("main.rs", false));
    assert!(!matcher.is_ignored("src/lib.rs", false));
    assert!(!matcher.is_ignored("tests/test.rs", false));
}

#[test]
fn test_is_ignored_patterns() {
    let matcher = test_repo_matcher();

    assert!(matcher.is_ignored("src/test.o", false));
    assert!(matcher.is_ignored("test.tmp", false));

    assert!(!matcher.is_ignored("src/lib.rs", false));
}

#[test]
fn test_filter_paths() {
    let matcher = test_repo_matcher();

    let paths = vec![
        "main.rs".to_string(),
        "src/lib.rs".to_string(),
        "target/debug".to_string(),
        "src/test.o".to_string(),
        "test.tmp".to_string(),
        "tests/test.rs".to_string(),
    ];

    let filtered = matcher.filter_paths(&paths);

    assert_eq!(filtered.len(), 3);
    assert!(filtered.contains(&"main.rs".to_string()));
    assert!(filtered.contains(&"src/lib.rs".to_string()));
    assert!(filtered.contains(&"tests/test.rs".to_string()));
}

#[test]
fn test_absolute_paths() {
    let matcher = test_repo_matcher();

    assert!(!matcher.is_ignored("/repo/main.rs", false));
    assert!(matcher.is_ignored("/repo/target", true));
}

#[test]
fn test_outside_root_is_not_ignored() {
    let matcher = test_repo_matcher();
    assert!(!matcher.is_ignored("/elsewhere/target", true));
}

#[test]
fn test_nested_gitignore() {
    let matcher = GitignoreMatcher::new(
        "/repo",
        &vec![
            (String::new(), rules(&["*.log"])),
            ("src".to_string(), rules(&["generated/"])),
        ],
    );

    assert!(matcher.is_ignored("app.log", false));
    assert!(!matcher.is_ignored("src/main.rs", false));
    assert!(matcher.is_ignored("src/generated", true));
    assert!(matcher.is_ignored("src/generated/code.rs", false));
}

#[test]
fn test_allow_list_overrides_ignore() {
    let matcher = GitignoreMatcher::new(
        "/repo",
        &vec![(String::new(), rules(&["*.log", "!keep.log"]))],
    );
    assert!(matcher.is_ignored("app.log", false));
    assert!(!matcher.is_ignored("keep.log", false));
}
