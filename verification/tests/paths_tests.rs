use source_extractor::paths::extension_of;
use source_extractor::paths::file_name_of;

#[test]
fn file_name_is_last_component() {
    assert_eq!(file_name_of("a/b/c.rs"), "c.rs");
    assert_eq!(file_name_of("c.rs"), "c.rs");
    assert_eq!(file_name_of("a/"), "");
}

#[test]
fn extension_is_after_last_dot() {
    assert_eq!(extension_of("a/main.rs"), Some("rs"));
    assert_eq!(extension_of("archive.tar.gz"), Some("gz"));
    assert_eq!(extension_of("x/y/z.c++"), Some("c++"));
}

#[test]
fn no_dot_means_no_extension() {
    assert_eq!(extension_of("Makefile"), None);
    assert_eq!(extension_of("a/b/noext"), None);
    assert_eq!(extension_of(""), None);
}

#[test]
fn leading_dot_alone_is_no_extension() {
    assert_eq!(extension_of(".gitignore"), None);
    assert_eq!(extension_of("dir/.profile"), None);
    assert_eq!(extension_of(".tar.gz"), Some("gz"));
}

#[test]
fn trailing_dot_gives_empty_extension() {
    assert_eq!(extension_of("file."), Some(""));
}

#[test]
fn dot_in_directory_does_not_count() {
    assert_eq!(extension_of("v1.2/readme"), None);
    assert_eq!(extension_of("v1.2/main.rs"), Some("rs"));
}
