use source_extractor::pipeline::extract_document;
use source_extractor::pipeline::FileContent;
use source_extractor::pipeline::WalkItem;

fn text_file(path: &str, content: &str) -> WalkItem {
    WalkItem::File {
        path: String::from(path),
        content: FileContent::Text(String::from(content)),
    }
}

fn binary_file(path: &str) -> WalkItem {
    WalkItem::File {
        path: String::from(path),
        content: FileContent::Undecodable,
    }
}

fn expected_record(path: &str, content: &str) -> String {
    format!(
        "File: {}\n{}\n{}\n{}\n\n",
        path,
        "-".repeat(80),
        content,
        "=".repeat(80)
    )
}

#[test]
fn empty_walk_gives_empty_document() {
    let doc = extract_document(&vec![]).unwrap();
    assert_eq!(doc, "");
}

#[test]
fn end_to_end_tree_with_mixed_files() {
    let items = vec![
        text_file("a/main.rs", "fn main() {}"),
        text_file("a/readme.md", "docs"),
        text_file("a/lib/util.go", "package util"),
    ];
    let doc = extract_document(&items).unwrap();
    let expected = format!(
        "{}{}",
        expected_record("a/main.rs", "fn main() {}"),
        expected_record("a/lib/util.go", "package util")
    );
    assert_eq!(doc, expected);
    assert!(!doc.contains("readme.md"));
    assert!(!doc.contains("docs"));
}

#[test]
fn unrecognized_files_leave_no_record() {
    let items = vec![
        text_file("notes.txt", "remember"),
        text_file("Makefile", "all:"),
        text_file("logo.png", "not really an image"),
    ];
    let doc = extract_document(&items).unwrap();
    assert_eq!(doc, "");
}

#[test]
fn splitting_on_equals_separator_reconstructs_contents() {
    let files = [
        ("a/main.rs", "fn main() {}"),
        ("a/lib/util.go", "package util\n\nfunc F() {}\n"),
        ("empty.py", ""),
    ];
    let items: Vec<WalkItem> = files.iter().map(|(p, c)| text_file(p, c)).collect();
    let doc = extract_document(&items).unwrap();
    let sep = format!("\n{}\n\n", "=".repeat(80));
    let chunks: Vec<&str> = doc.split(&sep).collect();
    assert_eq!(chunks.len(), files.len() + 1);
    assert_eq!(*chunks.last().unwrap(), "");
    for (chunk, (path, content)) in chunks.iter().zip(files.iter()) {
        let rebuilt = format!("File: {}\n{}\n{}", path, "-".repeat(80), content);
        assert_eq!(*chunk, rebuilt);
    }
}

#[test]
fn each_selected_file_appears_exactly_once() {
    let items = vec![
        text_file("one.rs", "a"),
        text_file("two.go", "b"),
        text_file("skip.md", "c"),
    ];
    let doc = extract_document(&items).unwrap();
    assert_eq!(doc.matches("File: one.rs\n").count(), 1);
    assert_eq!(doc.matches("File: two.go\n").count(), 1);
    assert_eq!(doc.matches("File: skip.md\n").count(), 0);
}

#[test]
fn run_is_deterministic() {
    let items = vec![
        text_file("a/main.rs", "fn main() {}"),
        WalkItem::Unreadable,
        text_file("a/lib/util.go", "package util"),
    ];
    let first = extract_document(&items).unwrap();
    let second = extract_document(&items).unwrap();
    assert_eq!(first, second);
}

#[test]
fn unreadable_entries_do_not_abort_or_leave_traces() {
    let with_unreadable = vec![
        WalkItem::Unreadable,
        text_file("a.rs", "a"),
        WalkItem::Unreadable,
        text_file("b.go", "b"),
        WalkItem::Unreadable,
    ];
    let without = vec![text_file("a.rs", "a"), text_file("b.go", "b")];
    let doc_with = extract_document(&with_unreadable).unwrap();
    let doc_without = extract_document(&without).unwrap();
    assert_eq!(doc_with, doc_without);
}

#[test]
fn one_binary_source_file_aborts_the_run() {
    let items = vec![
        text_file("ok1.go", "package one"),
        binary_file("broken.py"),
        text_file("ok2.go", "package two"),
    ];
    let err = extract_document(&items).unwrap_err();
    assert_eq!(err.path, "broken.py");
}

#[test]
fn binary_file_with_unrecognized_extension_is_never_read() {
    let items = vec![
        text_file("ok.rs", "fn f() {}"),
        binary_file("image.png"),
    ];
    let doc = extract_document(&items).unwrap();
    assert_eq!(doc, expected_record("ok.rs", "fn f() {}"));
}

#[test]
fn abort_reports_the_first_offending_file() {
    let items = vec![
        binary_file("first.rs"),
        binary_file("second.go"),
    ];
    let err = extract_document(&items).unwrap_err();
    assert_eq!(err.path, "first.rs");
}
