use frontmatter_mcp::error::MetaError;
use frontmatter_mcp::frontmatter::{dump_yaml, parse_yaml};
use frontmatter_mcp::meta::{
    bump_version_at, checked_bump_version, checked_bump_version_at, write_meta_at,
};
use frontmatter_mcp::semver::SemverError;
use frontmatter_mcp::value::Json;
use frontmatter_mcp::{join, read_meta, read_meta_typed, split, write_meta};

const NOW: &str = "2026-02-03 04:05:06";

fn text(s: &str) -> Json {
    Json::String(s.to_owned())
}

fn number(i: i64) -> Json {
    Json::Number(i.into())
}

fn pairs(list: Vec<(&str, Json)>) -> Vec<(String, Json)> {
    list.into_iter().map(|(name, value)| (name.to_owned(), value)).collect()
}

fn object(list: Vec<(&str, Json)>) -> Json {
    Json::Object(pairs(list))
}

/// A document with one key, after that was set to `value`.
fn written(value: Json) -> String {
    write_meta("---\nother: 1\n---\nbody", pairs(vec![("key", value)]), false).unwrap()
}

#[test]
fn missing_keys_read_as_null() {
    assert_eq!(read_meta("---\na: 1\n---\n", Some("b")).unwrap(), Json::Null);
    assert_eq!(read_meta("no front matter", Some("b")).unwrap(), Json::Null);
    assert_eq!(read_meta("no front matter", None).unwrap(), Json::Object(vec![]));
    assert_eq!(
        read_meta_typed("---\na: 1\n---\n", Some("b")).unwrap(),
        object(vec![("value", Json::Null), ("type", text("null"))])
    );
}

#[test]
fn front_matter_that_is_no_mapping_reads_as_none() {
    assert_eq!(read_meta("---\n- a\n- b\n---\n", None).unwrap(), Json::Object(vec![]));
    assert_eq!(read_meta("---\njust text\n---\n", None).unwrap(), Json::Object(vec![]));
    assert_eq!(read_meta("---\n \t\u{a0}\u{3000}\n---\n", None).unwrap(), Json::Object(vec![]));
    assert_eq!(read_meta("---\n---\n", None).unwrap(), Json::Object(vec![]));
}

#[test]
fn broken_yaml_is_refused() {
    let src = "---\na: [1\n---\nbody";
    let e = read_meta(src, None).unwrap_err();
    assert!(matches!(e, MetaError::InvalidYaml(_)));
    assert_eq!(e.message(), "invalid YAML frontmatter");
    assert!(matches!(read_meta_typed(src, Some("a")), Err(MetaError::InvalidYaml(_))));
    assert!(matches!(write_meta(src, vec![], true), Err(MetaError::InvalidYaml(_))));
    assert!(matches!(checked_bump_version(src, "minor"), Some(Err(MetaError::InvalidYaml(_)))));
}

#[test]
fn keys_that_are_no_strings_are_left_out() {
    let src = "---\n1: a\ntrue: b\nnull: c\nd: e\n---\n";
    assert_eq!(read_meta(src, None).unwrap(), object(vec![("d", text("e"))]));
    // But they are kept when the front matter is written.
    assert_eq!(
        write_meta(src, pairs(vec![("d", text("f"))]), false).unwrap(),
        "---\n1: a\ntrue: b\nnull: c\nd: f\n---\n"
    );
}

#[test]
fn tags_are_left_out() {
    let src = "---\na: !thing x\nb: !!binary aGk=\n---\n";
    assert_eq!(read_meta(src, Some("a")).unwrap(), text("x"));
    let typed = read_meta_typed(src, Some("a")).unwrap();
    assert_eq!(typed, object(vec![("value", text("x")), ("type", text("string"))]));
    assert_eq!(write_meta(src, vec![], false).unwrap(), src);
}

#[test]
fn nested_tags_cannot_be_written() {
    let mut mapping = parse_yaml("a: 1").unwrap();
    let tagged = |value: serde_yaml::Value| {
        serde_yaml::Value::Tagged(Box::new(serde_yaml::value::TaggedValue {
            tag: serde_yaml::value::Tag::new("t"),
            value,
        }))
    };
    mapping.insert("b".into(), tagged(tagged(serde_yaml::Value::Null)));
    let e = dump_yaml(&mapping).unwrap_err();
    assert!(matches!(e, MetaError::Unserializable(_)));
    assert_eq!(e.message(), "failed to serialise YAML");
}

#[test]
fn infinite_and_undefined_numbers_read_as_null() {
    let src = "---\na: .inf\nb: .nan\nc: -.inf\nd: 1.5\n---\n";
    assert_eq!(
        read_meta(src, None).unwrap(),
        object(vec![
            ("a", Json::Null),
            ("b", Json::Null),
            ("c", Json::Null),
            ("d", Json::Number(serde_json::Number::from_f64(1.5).unwrap())),
        ])
    );
}

#[test]
fn great_integers_become_floats() {
    let src = "---\na: 18446744073709551615\nb: 9223372036854775807\n---\n";
    let float = |f: f64| Json::Number(serde_json::Number::from_f64(f).unwrap());
    assert_eq!(read_meta(src, Some("a")).unwrap(), float(18446744073709551615.0));
    assert_eq!(read_meta(src, Some("b")).unwrap(), number(i64::MAX));
    let doc = written(Json::Number(u64::MAX.into()));
    assert_eq!(read_meta(&doc, Some("key")).unwrap(), float(18446744073709551615.0));
    // 2^63 + 1024 is as near to the float below as to the one above.
    for n in [9223372036854775808u64, 9223372036854776832, 9223372036854776833, 9223372036854778879] {
        let doc = written(Json::Number(n.into()));
        assert_eq!(read_meta(&doc, Some("key")).unwrap(), float(n as f64));
    }
}

#[test]
fn windows_line_breaks_are_tolerated() {
    let src = "---\r\na: 1\r\nb:\r\n  - x\r\n---\r\nbody\r\nmore\r\n";
    let unix = "---\na: 1\nb:\n  - x\n---\nbody\nmore\n";
    assert_eq!(read_meta(src, None).unwrap(), read_meta(unix, None).unwrap());
    let out = write_meta(src, pairs(vec![("a", number(2))]), false).unwrap();
    assert_eq!(out, "---\r\na: 2\nb:\r\n  - x\r\n---\r\nbody\r\nmore\r\n");
    // The line break before the closing line counts to the last line.
    let block = "---\r\na: |\r\n  x\r\n---\r\n";
    assert_eq!(
        read_meta(block, None).unwrap(),
        read_meta("---\na: |\n  x\n---\n", None).unwrap()
    );
}

#[test]
fn write_makes_front_matter_where_there_is_none() {
    let out = write_meta_at("# Title\n\ntext", pairs(vec![("a", number(1))]), Some(NOW)).unwrap();
    assert_eq!(out, "---\na: 1\nupdated: 2026-02-03 04:05:06\n---\n# Title\n\ntext");
    assert_eq!(write_meta_at("", vec![], None).unwrap(), "---\n{}\n---");
    assert_eq!(write_meta_at("---\nopen", vec![], None).unwrap(), "---\n{}\n---\n---\nopen");
}

#[test]
fn write_sets_only_what_it_is_given() {
    let src = "---\na: 0x1 # one\nb: two\nc:\n    - '3'\n---\nbody\n---\nrest";
    let out = write_meta_at(src, pairs(vec![("b", text("three")), ("d", Json::Null)]), None).unwrap();
    assert_eq!(out, "---\na: 0x1 # one\nb: three\nc:\n    - '3'\nd: null\n---\nbody\n---\nrest");
    for key in ["a", "c"] {
        assert_eq!(read_meta(&out, Some(key)).unwrap(), read_meta(src, Some(key)).unwrap());
    }
    assert_eq!(read_meta(&out, Some("b")).unwrap(), text("three"));
    assert_eq!(split(&out).1, split(src).1);
}

#[test]
fn other_lines_stay_as_they_are() {
    assert_eq!(
        write_meta(
            "---\ntitle: \"Alpha\"\nstatus: draft\n---\nbody\n",
            pairs(vec![("status", text("done"))]),
            false
        )
        .unwrap(),
        "---\ntitle: \"Alpha\"\nstatus: done\n---\nbody\n"
    );
    let src = "---\n# about\n\n\"a b\": 'x'   # y\n\n# c\nlist: [1,\n  2,\n]\nseq:\n- 1\n-   2\n\
               text: |\n  one\n\n  # two\n\n# end\nlast: {k:  v}\n\n---  \nbody";
    let out = write_meta_at(src, pairs(vec![("text", text("t")), ("new", number(1))]), None).unwrap();
    assert_eq!(
        out,
        "---\n# about\n\n\"a b\": 'x'   # y\n\n# c\nlist: [1,\n  2,\n]\nseq:\n- 1\n-   2\n\
         text: t\n\n# end\nlast: {k:  v}\n\nnew: 1\n---  \nbody"
    );
    let out = write_meta_at(src, pairs(vec![("seq", Json::Null), ("list", Json::Null)]), None).unwrap();
    assert_eq!(
        out,
        "---\n# about\n\n\"a b\": 'x'   # y\n\n# c\nlist: null\nseq: null\n\
         text: |\n  one\n\n  # two\n\n# end\nlast: {k:  v}\n\n---  \nbody"
    );
    // A write of nothing changes nothing.
    assert_eq!(write_meta_at(src, vec![], None).unwrap(), src);
    // Brackets and quoted strings may go on at the start of a line.
    let src = "---\na: 'A'\nlist: [\n1,\nx: y,\n]\ns: 'p\n\n  q: r'\nz: \"Z\"\n---\n";
    let put = |key| write_meta_at(src, pairs(vec![(key, number(1))]), None).unwrap();
    assert_eq!(put("list"), "---\na: 'A'\nlist: 1\ns: 'p\n\n  q: r'\nz: \"Z\"\n---\n");
    assert_eq!(put("s"), "---\na: 'A'\nlist: [\n1,\nx: y,\n]\ns: 1\nz: \"Z\"\n---\n");
}

#[test]
fn text_blocks_leave_other_lines_alone() {
    let put = |src: &str, list| write_meta_at(src, pairs(list), None).unwrap();
    // At the end a text block needs a line feed of its own.
    let src = "---\ntitle: \"A\"\nnote: x\n---\n";
    assert_eq!(
        put(src, vec![("note", text("a\nb\n"))]),
        "---\ntitle: \"A\"\nnote: |\n  a\n  b\n\n---\n"
    );
    assert_eq!(
        put(src, vec![("note", text("a\n\n")), ("z", number(1))]),
        "---\ntitle: \"A\"\nnote: |+\n  a\n\nz: 1\n---\n"
    );
    // A text block that was last reads as another string once lines follow it.
    let src = "---\ntitle: \"A\"\nnote: |\n  a\n---\n";
    assert_eq!(read_meta(src, Some("note")).unwrap(), text("a"));
    let out = put(src, vec![("z", number(1))]);
    assert_eq!(out, "---\ntitle: \"A\"\nnote: a\nz: 1\n---\n");
    assert_eq!(put(src, vec![("title", text("B"))]), "---\ntitle: B\nnote: |\n  a\n---\n");
}

#[test]
fn anchors_leave_other_lines_alone() {
    let put = |src: &str, list| write_meta_at(src, pairs(list), None).unwrap();
    let src = "---\nt: \"A\"   # title\na: &x {k: 'v'}\nb: *x\nc: [*x, 1]\nd: 'D'\n---\n";
    assert_eq!(
        put(src, vec![("e", number(1))]),
        "---\nt: \"A\"   # title\na: &x {k: 'v'}\nb: *x\nc: [*x, 1]\nd: 'D'\ne: 1\n---\n"
    );
    // An entry that takes its value from another can be set.
    assert_eq!(
        put(src, vec![("b", number(1))]),
        "---\nt: \"A\"   # title\na: &x {k: 'v'}\nb: 1\nc: [*x, 1]\nd: 'D'\n---\n"
    );
    // Where the anchor goes, the entries that lean on it are written out.
    assert_eq!(
        put(src, vec![("a", number(1))]),
        "---\nt: \"A\"   # title\na: 1\nb:\n  k: v\nc:\n- k: v\n- 1\nd: 'D'\n---\n"
    );
}

#[test]
fn entries_in_braces_stay_as_they_are() {
    let put = |src: &str, list| write_meta_at(src, pairs(list), None).unwrap();
    let a = || vec![("a", number(3))];
    assert_eq!(put("---\n{a: 1, b: 0x2}\n---\n", a()), "---\n{\"a\": 3, b: 0x2}\n---\n");
    assert_eq!(
        put("---\n{ a: 1 , 'b': [ x, 'y, z' ] , }\n---\nbody", vec![("a", text("p\"q")), ("c", Json::Null)]),
        "---\n{ \"a\": \"p\\\"q\" , 'b': [ x, 'y, z' ] , \"c\": null, }\n---\nbody"
    );
    assert_eq!(
        put("---\n{\n  \"a\": {\"x\": \"}, \\\"\"},  # one\n  b: 'it''s, {',\n  c: don't\n}\n---\n", a()),
        "---\n{\n  \"a\": 3,  # one\n  b: 'it''s, {',\n  c: don't\n}\n---\n"
    );
    assert_eq!(
        put("---\n!!map &m {a: 0, b: 'x'} # end\n---\n", a()),
        "---\n!!map &m {\"a\": 3, b: 'x'} # end\n---\n"
    );
    // A sequence or a mapping may be a key.
    let src = "---\n{[1, 2]: x, {p: q}: 'y', !t k: 1, a: 1}\n---\n";
    assert_eq!(put(src, a()), "---\n{[1, 2]: x, {p: q}: 'y', !t k: 1, \"a\": 3}\n---\n");
    // An entry that leans on one that is set.
    assert_eq!(
        put("---\n{a: &x 1, b: *x, c: 'C'}\n---\n", a()),
        "---\n{\"a\": 3, \"b\": 1, c: 'C'}\n---\n"
    );
}

#[test]
fn indented_entries_stay_as_they_are() {
    let src = "---\n  # about\n  a: 'x'\n  b:\n    - 1\n\n  # c\n  c: \"z\"\n---\n";
    let out = write_meta_at(src, pairs(vec![("b", Json::Array(vec![number(2)])), ("d", text("p\nq"))]), None);
    assert_eq!(
        out.unwrap(),
        "---\n  # about\n  a: 'x'\n  b:\n  - 2\n\n  # c\n  c: \"z\"\n  d: |-\n    p\n    q\n---\n"
    );
}

#[test]
fn what_cannot_be_patched_is_written_anew() {
    // No mapping, or nothing at all.
    let a = || pairs(vec![("a", number(1))]);
    assert_eq!(write_meta_at("---\ntext\n---\n", a(), None).unwrap(), "---\na: 1\n---\n");
    assert_eq!(write_meta_at("---\n---\n", a(), None).unwrap(), "---\na: 1\n---\n");
    assert_eq!(write_meta_at("---\n \n---\n", a(), None).unwrap(), "---\na: 1\n---\n");
    assert_eq!(write_meta_at("---\n{}\n---\n", a(), None).unwrap(), "---\na: 1\n---\n");
}

#[test]
fn what_follows_the_closing_dashes_stays() {
    let foo = || pairs(vec![("foo", number(2))]);
    assert_eq!(write_meta_at("---\nfoo: 1\n---\n", foo(), None).unwrap(), "---\nfoo: 2\n---\n");
    assert_eq!(write_meta_at("---\nfoo: 1\n---", foo(), None).unwrap(), "---\nfoo: 2\n---");
    assert_eq!(
        write_meta_at("--- \nfoo: 1\n---\t\r\nbody", foo(), None).unwrap(),
        "--- \nfoo: 2\n---\t\r\nbody"
    );
}

#[test]
fn later_updates_win() {
    let out = write_meta_at(
        "---\na: 1\n---\n",
        pairs(vec![("a", number(2)), ("b", number(3)), ("a", number(4)), ("updated", number(5))]),
        Some(NOW),
    )
    .unwrap();
    assert_eq!(out, "---\na: 4\nb: 3\nupdated: 2026-02-03 04:05:06\n---\n");
}

#[test]
fn touching_sets_the_time() {
    let out = write_meta("---\na: 1\n---\n", vec![], true).unwrap();
    let typed = read_meta_typed(&out, Some("updated")).unwrap();
    let Json::Object(members) = typed else {
        panic!("no object");
    };
    assert_eq!(members[1], ("type".to_owned(), text("datetime")));
    let Json::String(now) = &members[0].1 else {
        panic!("no string");
    };
    assert_eq!(now.len(), 19);
    assert_eq!(read_meta(&write_meta("", vec![], false).unwrap(), Some("updated")).unwrap(), Json::Null);
}

#[test]
fn what_is_written_reads_back() {
    let values = || {
        vec![
            Json::Null,
            Json::Bool(true),
            number(-7),
            number(i64::MIN),
            Json::Number(serde_json::Number::from_f64(-0.0).unwrap()),
            Json::Number(serde_json::Number::from_f64(1e300).unwrap()),
            Json::Number(serde_json::Number::from_f64(5e-324).unwrap()),
            Json::Array(vec![]),
            Json::Object(vec![]),
            Json::Array(vec![number(1), Json::Array(vec![text("x"), Json::Object(vec![])])]),
            object(vec![("a", object(vec![("b", Json::Array(vec![object(vec![("c", number(1)), ("d", text(""))])]))]))]),
        ]
    };
    for (value, same) in values().into_iter().zip(values()) {
        let doc = written(value);
        assert_eq!(read_meta(&doc, Some("key")).unwrap(), same);
        assert_eq!(read_meta(&doc, Some("other")).unwrap(), number(1));
        assert_eq!(split(&doc).1, "body");
    }
}

#[test]
fn texts_read_back() {
    let mut texts: Vec<String> = Vec::new();
    for s in [
        "", " ", "a ", " a", "true", "True", "TRUE", "null", "~", "Null", "yes", "no", "y", "n", "on",
        "off", "1", "-1", "+1", "0x1F", "0o17", "0b1", "1e3", "1.0", ".5", "5.", ".inf", "-.inf", ".nan",
        "007", "1_000", "99999999999999999999", "-99999999999999999999", "2025-03-16", "12:30", "---",
        "--- a", "...", "-", "- a", "--", "?", "? a", ":", ": a", "a:", "a: b", "a #b", "#a", "a#b",
        "[a]", "{a}", "a, b", "&a", "*a", "!a", "|", ">", "'", "\"", "a'b", "a\"b", "%a", "@a", "`a",
        "<<", "=", "\\", "\\n", "é", "日本語", "\u{1f600}", "\t", "a\tb", "\u{feff}", "\u{fffe}", "\u{7f}",
        "\u{0}", "\u{1b}", "\u{a0}", "\u{3000}", "\u{200b}", "[[A Note]]", "a\u{1f600}b: c",
    ] {
        texts.push(s.to_owned());
        texts.push(format!("{s}{s}"));
        texts.push(format!("x {s} y"));
        texts.push(s.repeat(200));
    }
    for code in 0..0x3000u32 {
        if let Some(c) = char::from_u32(code) {
            texts.push(c.to_string());
            texts.push(format!("a{c} b"));
        }
    }
    // As values of the last key and of another, as items and as keys.
    for t in &texts {
        let value = || Json::Array(vec![text(t), object(vec![(t.as_str(), text(t))])]);
        let updates = pairs(vec![("first", text(t)), (t.as_str(), value()), ("last", text(t))]);
        let doc = write_meta_at("---\nother: 1\n---\nbody", updates, None).unwrap();
        assert_eq!(split(&doc).1, "body", "{t:?}");
        if t != "first" && t != "last" {
            assert_eq!(read_meta(&doc, Some(t)).unwrap(), value(), "{t:?}");
        }
        assert_eq!(read_meta(&doc, Some("first")).unwrap(), text(t), "{t:?}");
        assert_eq!(read_meta(&doc, Some("last")).unwrap(), text(t), "{t:?}");
    }
}

#[test]
fn texts_of_several_lines_read_back() {
    let alphabet = ['a', ' ', '\n', '-', '#', ':', '\r', '\'', '\u{85}'];
    let mut texts: Vec<String> = vec![String::new()];
    let mut last: Vec<String> = vec![String::new()];
    for _ in 0..4 {
        last = last
            .iter()
            .flat_map(|t| alphabet.iter().map(move |c| format!("{t}{c}")))
            .collect();
        texts.extend(last.iter().cloned());
    }
    texts.push("---\n---".to_owned());
    texts.push("a\n  b\n\n c\n\n\n\td\n e".to_owned());
    texts.push("\n\n  x\n---\n... \n# y".to_owned());
    texts.push("a\n\n\n".to_owned());
    texts.push("  a\n b\n\n".to_owned());
    // As values, as items and as keys.
    for t in &texts {
        let value = || {
            Json::Array(vec![text(t), Json::Array(vec![text(t), object(vec![("k", text(t))])])])
        };
        let updates = pairs(vec![("first", text(t)), ("list", value()), (t, text(t)), ("last", text(t))]);
        let doc = write_meta_at("---\nother: 1\n---\nbody", updates, None).unwrap();
        assert_eq!(split(&doc).1, "body", "{t:?}");
        assert_eq!(read_meta(&doc, Some("first")).unwrap(), text(t), "{t:?}");
        assert_eq!(read_meta(&doc, Some("list")).unwrap(), value(), "{t:?}");
        assert_eq!(read_meta(&doc, Some(t)).unwrap(), text(t), "{t:?}");
        assert_eq!(read_meta(&doc, Some("last")).unwrap(), text(t), "{t:?}");
    }
    for t in ["a\n", "\n", "a\n\n", " \n"] {
        assert_eq!(read_meta(&written(text(t)), Some("key")).unwrap(), text(t), "{t:?}");
        let src = format!("---\na: 1\nb: {t:?}\n---\n");
        let doc = write_meta_at(&src, pairs(vec![("a", number(2))]), None).unwrap();
        assert_eq!(read_meta(&doc, Some("b")).unwrap(), text(t), "{t:?}");
    }
}

#[test]
fn tags_and_special_numbers_read_back() {
    let src = "---\na: !t x\nb: !t-2 [1, !u {k: v}]\nc: !t\n  k: !u 'true'\nd: !t null\ne: .inf\n\
               f: -.inf\ng: .nan\nh: \"x\\ry\\u0085\"\n.inf: 1\n-0.0: 2\n---\n";
    let names = ["a", "b", "c", "d", "e", "f", "g", "h"];
    // By lines, and written anew.
    let doc = write_meta_at(src, pairs(vec![("new", number(1))]), None).unwrap();
    let anew = join(&dump_yaml(&parse_yaml(&split(src).0.unwrap()).unwrap()).unwrap(), "");
    for text in [doc.as_str(), anew.as_str()] {
        for name in names {
            assert_eq!(read_meta(text, Some(name)).unwrap(), read_meta(src, Some(name)).unwrap());
        }
        let mapping = |t: &str| parse_yaml(&split(t).0.unwrap()).unwrap();
        let mut found = mapping(text);
        found.remove("new");
        assert_eq!(found, mapping(src));
    }
}

#[test]
fn no_text_ends_the_front_matter() {
    for t in [
        "---", "---\n", "\n---\n", "a\n---\nb", "a\r---\rb", "a\r\n---\r\nb", " ---\n---", "\n\n---",
        "a\u{85}---", "a\u{2028}---\u{2029}---", "--- ", "---\t\n--- \n",
    ] {
        for key in ["key", t] {
            let updates = pairs(vec![
                (key, Json::Array(vec![text(t), Json::Array(vec![text(t)])])),
                ("last", text(t)),
            ]);
            let doc = write_meta_at("---\nother: 1\n---\nbody\n---\n", updates, None).unwrap();
            assert_eq!(split(&doc).1, "body\n---\n", "{t:?}");
        }
    }
}

#[test]
fn deep_values_read_back() {
    let deep = |n: usize| (0..n).fold(text("x"), |v, _| Json::Array(vec![v]));
    let doc = written(deep(127));
    assert_eq!(read_meta(&doc, Some("key")).unwrap(), deep(127));
    // One level more can be written, but not read.
    assert!(read_meta(&written(deep(128)), Some("key")).is_err());
}

#[test]
fn bump_sets_version_and_time() {
    let src = "---\nversion: 1.1.7\na: 1\n---\nbody";
    let (version, out) = bump_version_at(src, "patch", NOW).unwrap();
    assert_eq!(version, "1.1.8");
    assert_eq!(out, "---\nversion: 1.1.8\na: 1\nupdated: 2026-02-03 04:05:06\n---\nbody");
    assert_eq!(bump_version_at(src, "minor", NOW).unwrap().0, "1.2.0");
    assert_eq!(bump_version_at(src, "major", NOW).unwrap().0, "2.0.0");
}

#[test]
fn bump_starts_from_the_first_version() {
    assert_eq!(
        bump_version_at("body", "patch", NOW).unwrap(),
        ("0.1.1".to_owned(), format!("---\nversion: 0.1.1\nupdated: {NOW}\n---\nbody"))
    );
    // A version that is no string counts as none.
    assert_eq!(bump_version_at("---\nversion: 3\n---\n", "minor", NOW).unwrap().0, "0.2.0");
    assert_eq!(bump_version_at("---\nversion: !v 1.2.3\n---\n", "minor", NOW).unwrap().0, "1.3.0");
}

#[test]
fn bump_refuses_what_is_no_version() {
    let bump = |v: &str, level: &str| match bump_version_at(&format!("---\nversion: '{v}'\n---\n"), level, NOW) {
        Err(MetaError::Semver(e)) => e,
        _ => panic!("bumped"),
    };
    assert_eq!(bump("1.2", "patch"), SemverError::Invalid("1.2".to_owned()));
    assert_eq!(bump("1.2", "patch").message(), "invalid semver '1.2'");
    assert_eq!(bump("x.2.3", "patch").message(), "invalid major component");
    assert_eq!(bump("1.x.3", "patch").message(), "invalid minor component");
    assert_eq!(bump("1.2.x", "patch").message(), "invalid patch component");
    assert_eq!(bump("1.2.3", "huge").message(), "level must be major/minor/patch, got 'huge'");
    assert_eq!(
        MetaError::Semver(SemverError::Minor(String::new())).message(),
        "invalid minor component"
    );
}

#[test]
fn bump_does_not_overflow() {
    let src = "---\nversion: 1.2.18446744073709551615\n---\n";
    assert!(checked_bump_version_at(src, "patch", NOW).is_none());
    assert!(checked_bump_version(src, "patch").is_none());
    assert_eq!(checked_bump_version(src, "minor").unwrap().unwrap().0, "1.3.0");
    assert_eq!(checked_bump_version_at(src, "minor", NOW).unwrap().unwrap().0, "1.3.0");
    assert!(matches!(checked_bump_version_at(src, "huge", NOW), Some(Err(MetaError::Semver(_)))));
}

#[test]
fn writing_again_changes_nothing() {
    let updates = || pairs(vec![("a", number(2)), ("z", object(vec![("k", text("v"))]))]);
    let once = write_meta_at("---\na: 1\nb: 2\n---\nbody", updates(), Some(NOW)).unwrap();
    assert_eq!(write_meta_at(&once, updates(), Some(NOW)).unwrap(), once);
}

#[test]
fn front_matter_is_trimmed() {
    let mapping = parse_yaml("a: |\n  x\n\n").unwrap();
    assert_eq!(dump_yaml(&mapping).unwrap(), "a: |\n  x");
    assert_eq!(join(&dump_yaml(&parse_yaml("").unwrap()).unwrap(), "b"), "---\n{}\n---\nb");
}
