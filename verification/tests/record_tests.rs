use source_extractor::record::render_record;

fn expected_record(path: &str, content: &str) -> String {
    format!(
        "File: {}\n{}\n{}\n{}\n\n",
        path,
        "-".repeat(80),
        content,
        "=".repeat(80)
    )
}

#[test]
fn record_frames_path_and_content() {
    let r = render_record("a/main.rs", "fn main() {}");
    assert_eq!(r, expected_record("a/main.rs", "fn main() {}"));
}

#[test]
fn record_of_empty_content() {
    let r = render_record("empty.go", "");
    assert_eq!(r, expected_record("empty.go", ""));
}

#[test]
fn record_keeps_content_verbatim() {
    let content = "line one\n\nline three with trailing newline\n";
    let r = render_record("x.py", content);
    assert_eq!(r, expected_record("x.py", content));
    assert!(r.contains(content));
}
