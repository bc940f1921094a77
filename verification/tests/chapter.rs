use frontmatter_mcp::value::Json;
use frontmatter_mcp::{bump_version, read_meta, read_meta_typed, split, write_meta};

const CHAPTER_FM: &str = r#"---
arc: 1
chapter: 1
title: WHAT
subtitle: NICE
day: Sunday
start: 2025-03-16 08:30:00
finish: 2025-03-16 11:30:00
pov: 3rd Person
characters:
  - "[[Char1]]"
  - "[[Char2]]"
  - "[[Char3]]"
mood:
  - Mood1
  - Mood2
  - Mood3
status: draft
version: 1.1.7
updated: 2026-05-23 17:24:36
context: Shorty chapter context
summary: Brief chapter summary goes here
prev: "[[The Prev Chapter]]"
next: "[[The Next Chapter]]"
tags:
  - Tag1
  - Tag1/SubTag
---

Body of the chapter goes here.
"#;

fn text(s: &str) -> Json {
    Json::String(s.to_owned())
}

fn member<'a>(v: &'a Json, name: &str) -> &'a Json {
    match v {
        Json::Object(members) => &members.iter().rev().find(|m| m.0 == name).unwrap().1,
        _ => panic!("no object"),
    }
}

fn as_str(v: &Json) -> &str {
    match v {
        Json::String(s) => s,
        _ => panic!("no string"),
    }
}

fn chapter_typed() -> Json {
    read_meta_typed(CHAPTER_FM, None).unwrap()
}

fn field_type(result: &Json, key: &str) -> String {
    as_str(member(member(result, key), "type")).to_owned()
}

fn items_type(result: &Json, key: &str) -> String {
    as_str(member(member(result, key), "items_type")).to_owned()
}

#[test]
fn chapter_integers() {
    let r = chapter_typed();
    assert_eq!(field_type(&r, "arc"), "integer");
    assert_eq!(field_type(&r, "chapter"), "integer");
}

#[test]
fn chapter_plain_strings() {
    let r = chapter_typed();
    assert_eq!(field_type(&r, "title"), "string");
    assert_eq!(field_type(&r, "status"), "string");
    assert_eq!(field_type(&r, "day"), "string");
    assert_eq!(field_type(&r, "pov"), "string");
}

#[test]
fn chapter_datetimes() {
    let r = chapter_typed();
    assert_eq!(field_type(&r, "start"), "datetime");
    assert_eq!(field_type(&r, "finish"), "datetime");
    assert_eq!(field_type(&r, "updated"), "datetime");
}

#[test]
fn chapter_wikilinks() {
    let r = chapter_typed();
    assert_eq!(field_type(&r, "prev"), "wikilink");
    assert_eq!(field_type(&r, "next"), "wikilink");
}

#[test]
fn chapter_wikilink_array() {
    let r = chapter_typed();
    assert_eq!(field_type(&r, "characters"), "array");
    assert_eq!(items_type(&r, "characters"), "wikilink");
}

#[test]
fn chapter_string_arrays() {
    let r = chapter_typed();
    assert_eq!(field_type(&r, "mood"), "array");
    assert_eq!(items_type(&r, "mood"), "string");
    assert_eq!(field_type(&r, "tags"), "array");
    assert_eq!(items_type(&r, "tags"), "string");
}

#[test]
fn chapter_version_is_string() {
    // "1.1.7" should be a plain string, not mistaken for a number
    let r = chapter_typed();
    assert_eq!(field_type(&r, "version"), "string");
    assert_eq!(as_str(member(member(&r, "version"), "value")), "1.1.7");
}

#[test]
fn chapter_body_untouched() {
    let (_, body_before) = split(CHAPTER_FM);
    let content = write_meta(CHAPTER_FM, Vec::new(), false).unwrap();
    let (_, body_after) = split(&content);
    assert_eq!(body_before, body_after);
}

fn key_order(text: &str) -> Vec<String> {
    let (fm, _) = split(text);
    let fm = fm.unwrap_or_default();
    // Collect only top-level keys (lines that start a mapping entry)
    fm.lines()
        .filter(|l| !l.starts_with(' ') && !l.starts_with('-') && l.contains(':'))
        .map(|l| l.split(':').next().unwrap().trim().to_owned())
        .collect()
}

#[test]
fn write_preserves_key_order_for_updated_fields() {
    let src = "---\narc: 1\ntitle: WHAT\nstatus: draft\nversion: 1.0.0\n---\nbody\n";
    let before = key_order(src);
    let updates = vec![
        ("title".to_owned(), text("CHANGED")),
        ("status".to_owned(), text("published")),
    ];
    let after_text = write_meta(src, updates, false).unwrap();
    let after = key_order(&after_text);
    assert_eq!(before, after, "key order changed after updating existing fields");
    assert_eq!(
        after_text,
        "---\narc: 1\ntitle: CHANGED\nstatus: published\nversion: 1.0.0\n---\nbody\n"
    );
}

#[test]
fn write_preserves_key_order_with_touch_updated() {
    // updated is in the middle — it must stay there after auto-touch
    let src = "---\narc: 1\ntitle: WHAT\nupdated: 2026-01-01 00:00:00\nstatus: draft\n---\nbody\n";
    let before = key_order(src);
    let updates = vec![("status".to_owned(), text("published"))];
    let after_text = write_meta(src, updates, true).unwrap(); // touch_updated = true
    let after = key_order(&after_text);
    assert_eq!(before, after, "updated field shifted position after touch_updated");
    assert_ne!(
        read_meta(&after_text, Some("updated")).unwrap(),
        text("2026-01-01 00:00:00")
    );
}

#[test]
fn bump_preserves_key_order() {
    let src = "---\narc: 1\nversion: 1.0.0\nupdated: 2026-01-01 00:00:00\nstatus: draft\n---\nbody\n";
    let before = key_order(src);
    let (version, after_text) = bump_version(src, "minor").unwrap();
    let after = key_order(&after_text);
    assert_eq!(before, after, "key order changed after bump_version");
    assert_eq!(version, "1.1.0");
}

#[test]
fn write_appends_new_keys_at_end() {
    let src = "---\narc: 1\ntitle: WHAT\n---\nbody\n";
    let updates = vec![("newfield".to_owned(), text("hello"))];
    let after_text = write_meta(src, updates, false).unwrap();
    let after = key_order(&after_text);
    assert_eq!(&after[..2], &["arc", "title"], "original keys moved");
    assert_eq!(after.last().unwrap(), "newfield", "new key not appended at end");
}

#[test]
fn chapter_write_preserves_full_key_order() {
    let before = key_order(CHAPTER_FM);
    // Update several scattered fields
    let updates = vec![
        ("arc".to_owned(), Json::Number(2.into())),
        ("status".to_owned(), text("published")),
        ("mood".to_owned(), Json::Array(vec![text("Hopeful")])),
        ("prev".to_owned(), text("[[New Prev]]")),
    ];
    let after_text = write_meta(CHAPTER_FM, updates, true).unwrap();
    let after = key_order(&after_text);
    assert_eq!(before, after, "key order changed after writing chapter frontmatter");
}

#[test]
fn chapter_reads_the_same_without_types() {
    let typed = chapter_typed();
    let plain = read_meta(CHAPTER_FM, None).unwrap();
    let names = |v: &Json| match v {
        Json::Object(members) => members.iter().map(|m| m.0.clone()).collect::<Vec<String>>(),
        _ => panic!("no object"),
    };
    assert_eq!(names(&typed), names(&plain));
    for name in names(&plain) {
        assert_eq!(member(member(&typed, &name), "value"), member(&plain, &name));
        assert_eq!(&read_meta(CHAPTER_FM, Some(&name)).unwrap(), member(&plain, &name));
        assert_eq!(&read_meta_typed(CHAPTER_FM, Some(&name)).unwrap(), member(&typed, &name));
    }
}
