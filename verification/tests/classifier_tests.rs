use source_extractor::classifier::is_source_extension;
use source_extractor::paths::is_selected_path;

#[test]
fn recognizes_common_source_extensions() {
    assert!(is_source_extension("go"));
    assert!(is_source_extension("rs"));
    assert!(is_source_extension("cpp"));
    assert!(is_source_extension("java"));
    assert!(is_source_extension("py"));
    assert!(is_source_extension("kt"));
    assert!(is_source_extension("c"));
    assert!(is_source_extension("c++"));
    assert!(is_source_extension("c#"));
    assert!(is_source_extension("f#"));
    assert!(is_source_extension("racket"));
}

#[test]
fn rejects_non_source_extensions() {
    assert!(!is_source_extension("md"));
    assert!(!is_source_extension("txt"));
    assert!(!is_source_extension("png"));
    assert!(!is_source_extension(""));
    assert!(!is_source_extension("rsx"));
}

#[test]
fn matching_is_case_sensitive() {
    assert!(!is_source_extension("PY"));
    assert!(!is_source_extension("RS"));
    assert!(!is_source_extension("Go"));
}

#[test]
fn selects_paths_by_extension_only() {
    assert!(is_selected_path("a/main.rs"));
    assert!(is_selected_path("deep/ly/nested/util.go"));
    assert!(is_selected_path("top.py"));
    assert!(!is_selected_path("a/readme.md"));
    assert!(!is_selected_path("Makefile"));
    assert!(!is_selected_path("a/b/noext"));
}

#[test]
fn dotfiles_and_trailing_dots_are_not_selected() {
    assert!(!is_selected_path(".gitignore"));
    assert!(!is_selected_path("dir/.rs"));
    assert!(!is_selected_path("file."));
}
