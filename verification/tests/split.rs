use frontmatter_mcp::document::replace_front;
use frontmatter_mcp::{join, split};

#[test]
fn split_no_frontmatter() {
    let (fm, body) = split("just body\n");
    assert!(fm.is_none());
    assert_eq!(body, "just body\n");
}

#[test]
fn split_basic() {
    let (fm, body) = split("---\nfoo: bar\n---\nbody\n");
    assert_eq!(fm.as_deref(), Some("foo: bar"));
    assert_eq!(body, "body\n");
}

#[test]
fn split_empty_frontmatter() {
    let (fm, body) = split("---\n---\nbody\n");
    assert_eq!(fm.as_deref(), Some(""));
    assert_eq!(body, "body\n");
}

#[test]
fn split_no_body() {
    let (fm, body) = split("---\nfoo: 1\n---");
    assert_eq!(fm.as_deref(), Some("foo: 1"));
    assert_eq!(body, "");
}

#[test]
fn split_trailing_spaces_on_sep() {
    let (fm, body) = split("---   \nfoo: 1\n---   \nbody\n");
    assert_eq!(fm.as_deref(), Some("foo: 1"));
    assert_eq!(body, "body\n");
}

#[test]
fn join_round_trip() {
    let text = "---\nfoo: bar\n---\nbody\n";
    let (fm, body) = split(text);
    assert_eq!(join(&fm.unwrap(), &body), text);
}

#[test]
fn join_no_body() {
    assert_eq!(join("foo: 1", ""), "---\nfoo: 1\n---");
}

#[test]
fn split_accepts_windows_line_breaks() {
    assert_eq!(
        split("---\r\nfoo: 1\r\n---\t\r\nbody\r\n"),
        (Some("foo: 1\r".to_owned()), "body\r\n".to_owned())
    );
}

#[test]
fn split_needs_both_separators() {
    for text in [
        "", "---", "---\n", "---\nfoo: 1", "---\nfoo: 1\n", "--\nfoo\n---\n", "--- x\n---\n",
        " ---\n---\n", "---\r---\n",
    ] {
        assert_eq!(split(text), (None, text.to_owned()));
    }
}

#[test]
fn split_looks_at_whole_lines() {
    assert_eq!(
        split("---\na\n----\nb ---\n--- c\n---\nbody\n---\nrest"),
        (Some("a\n----\nb ---\n--- c".to_owned()), "body\n---\nrest".to_owned())
    );
    assert_eq!(split("---\n\n---\n"), (Some(String::new()), String::new()));
}

#[test]
fn joined_parts_come_apart_again() {
    for (front, body) in [
        ("a: 1", "body"), ("", ""), ("", "---\n"), ("a\n\n", "\n"), ("--- x", "---"), ("-", "é\r\n"),
    ] {
        let text = join(front, body);
        assert_eq!(split(&text), (Some(front.to_owned()), body.to_owned()));
    }
    // But not where a line of the front matter is itself a separator line.
    for front in ["---", "a\n--- ", "---\nb"] {
        assert_ne!(split(&join(front, "body")), (Some(front.to_owned()), "body".to_owned()));
    }
}

#[test]
fn split_parts_join_and_come_apart() {
    for text in ["---\n---\nb", "---  \r\na\r\n---", "---\na\nb\n---\n\nc", "no front matter"] {
        let (front, body) = split(text);
        assert!(text.ends_with(&body));
        if let Some(front) = front {
            assert_eq!(split(&join(&front, &body)), (Some(front), body));
        }
    }
}

#[test]
fn replacing_keeps_the_separator_lines() {
    assert_eq!(replace_front("---\na\n---\n", "b"), "---\nb\n---\n");
    assert_eq!(replace_front("---\na\n---", "b"), "---\nb\n---");
    assert_eq!(replace_front("--- \r\na\r\n---\t\r\nbody", "b"), "--- \r\nb\n---\t\r\nbody");
    assert_eq!(replace_front("---\n---\nbody", "b"), "---\nb\n---\nbody");
    assert_eq!(replace_front("body", "b"), "---\nb\n---\nbody");
    assert_eq!(replace_front("", "b"), "---\nb\n---");
    let text = "---  \na\r\n---\r\nbody";
    assert_eq!(replace_front(text, &split(text).0.unwrap()), text);
}
