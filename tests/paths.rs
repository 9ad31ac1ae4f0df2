use utils_box::paths::{is_not_hidden, IncludePathsBuilder, SeekStep};

#[test]
fn builder_collects_directories() {
    let paths = IncludePathsBuilder::new()
        .include_known("/test/")
        .include_known("/2/")
        .include_known("test_data/")
        .include_unknown("utils-box")
        .build();
    assert_eq!(
        paths.known_paths(),
        &vec!["/test/".to_string(), "/2/".to_string(), "test_data/".to_string()]
    );
    assert_eq!(paths.unknown_paths(), &vec!["utils-box".to_string()]);
    let empty = IncludePathsBuilder::default().build();
    assert!(empty.known_paths().is_empty());
}

#[test]
fn known_candidates_join_paths() {
    let paths = IncludePathsBuilder::new()
        .include_known("/test/")
        .include_known("/2")
        .include_known("")
        .build();
    assert_eq!(
        paths.known_candidates("a/b.tar"),
        vec!["/test/a/b.tar".to_string(), "/2/a/b.tar".to_string(), "a/b.tar".to_string()]
    );
    assert_eq!(
        paths.known_candidates("/abs/f"),
        vec!["/abs/f".to_string(), "/abs/f".to_string(), "/abs/f".to_string()]
    );
}

#[test]
fn seek_takes_first_existing_known_path() {
    let paths = IncludePathsBuilder::new()
        .include_known("/test/")
        .include_known("/2/")
        .include_known("test_data/")
        .build();
    let file = "test_archives.tar";
    assert_eq!(
        paths.seek_in_known(file, &vec![false, true, true]),
        Some("/2/test_archives.tar".to_string())
    );
    match paths.seek(file, &vec![false, false, true]) {
        SeekStep::Found(p) => assert_eq!(p, "test_data/test_archives.tar"),
        SeekStep::SearchUnknown => panic!("expected a known path"),
    }
    assert!(matches!(
        paths.seek(file, &vec![false, false, false]),
        SeekStep::SearchUnknown
    ));
}

#[test]
fn glob_patterns_search_at_any_depth() {
    let paths = IncludePathsBuilder::new()
        .include_known("test_data/")
        .include_known("/x")
        .build();
    assert_eq!(
        paths.glob_patterns("test_*.tar"),
        vec!["test_data/**/test_*.tar".to_string(), "/x/**/test_*.tar".to_string()]
    );
}

#[test]
fn search_glob_prefers_known_matches() {
    let paths = IncludePathsBuilder::new().include_known("d").build();
    assert_eq!(
        paths.search_glob(vec!["d/a.tar".to_string()]),
        Some(vec!["d/a.tar".to_string()])
    );
    assert_eq!(paths.search_glob(vec![]), None);
}

#[test]
fn hidden_names() {
    assert!(!is_not_hidden(".git"));
    assert!(is_not_hidden("src"));
    assert!(is_not_hidden(""));
}
