use frontmatter_mcp::frontmatter::{dump_mapping, parse_yaml};
use serde_yaml::value::{Tag, TaggedValue};
use serde_yaml::{Mapping, Value};

fn tagged(name: &str, value: Value) -> Value {
    Value::Tagged(Box::new(TaggedValue { tag: Tag::new(name), value }))
}

fn list(items: Vec<Value>) -> Value {
    Value::Sequence(items)
}

fn mapping(entries: Vec<(Value, Value)>) -> Mapping {
    entries.into_iter().collect()
}

fn reads_back(m: Mapping) {
    let text = dump_mapping(&m).unwrap();
    assert!(!text.contains('\r'), "{text:?}");
    let read: Vec<(Value, Value)> = parse_yaml(&text).unwrap().into_iter().collect();
    let all: Vec<(Value, Value)> = m.into_iter().collect();
    assert_eq!(read, all, "{text:?}");
}

/// `value` wherever a value can stand, and `key` wherever a key can stand.
fn everywhere(key: &Value, value: &Value) {
    let (k, v) = (|| key.clone(), || value.clone());
    reads_back(mapping(vec![(k(), v())]));
    reads_back(mapping(vec![("first".into(), v()), (k(), Value::Null), ("last".into(), v())]));
    let inner = || Value::Mapping(mapping(vec![(k(), v()), ("k".into(), v())]));
    let items = || list(vec![v(), list(vec![v(), inner()]), inner(), v()]);
    reads_back(mapping(vec![(k(), items()), ("a".into(), inner()), ("z".into(), items())]));
    if !value.is_null() && !matches!(value, Value::Tagged(_)) {
        let t = || tagged("t", v());
        reads_back(mapping(vec![(k(), t()), ("a".into(), list(vec![t(), list(vec![t()])]))]));
        reads_back(mapping(vec![("a".into(), tagged("u", list(vec![t()])))]));
        reads_back(mapping(vec![("a".into(), tagged("u", Value::Mapping(mapping(vec![(k(), t())]))))]));
    }
}

#[test]
fn plain_texts_read_back_everywhere() {
    let alphabet = [
        'a', ' ', '\n', '-', '#', ':', '\r', '\'', '"', '\t', '!', '?', '\u{85}', '\u{2028}', '\u{2029}',
    ];
    let mut texts: Vec<String> = vec![String::new()];
    let mut last: Vec<String> = vec![String::new()];
    for _ in 0..3 {
        last = last
            .iter()
            .flat_map(|t| alphabet.iter().map(move |c| format!("{t}{c}")))
            .collect();
        texts.extend(last.iter().cloned());
    }
    for s in [
        "true", "Null", "~", "yes", "0x1F", "1e3", "1.0", ".inf", ".nan", "007", "1_000", "---", "...",
        "--- a", "- a", "? a", ": a", "a: b", "a #b", "[a]", "{a}", "a, b", "&a", "*a", "!a", "!!str a",
        "|", ">", "%a", "@a", "`a", "<<", "=", "\\", "\\n", "é", "日本語", "\u{1f600}", "\u{feff}",
        "\u{fffe}", "\u{ffff}", "\u{7f}", "\u{0}", "\u{1b}", "\u{a0}", "\u{3000}", "\u{e000}", "\u{10ffff}",
        "a\n  b\n\n c\n\n\n\td\n e", "\n\n  x\n---\n... \n# y", "a\r\nb\u{85}c\rd\n",
    ] {
        texts.push(s.to_owned());
        texts.push(format!("x {s} y"));
        texts.push(format!("{s}\n"));
        texts.push(format!("{s} ").repeat(90));
        texts.push(format!("{s}\n").repeat(90));
    }
    for code in 0..0x3000u32 {
        if let Some(c) = char::from_u32(code) {
            texts.push(c.to_string());
            texts.push(format!("a{c} b"));
        }
    }
    for t in texts {
        let value = Value::String(t);
        everywhere(&value, &value);
    }
}

#[test]
fn plain_numbers_read_back_everywhere() {
    for number in [
        0.0, -0.0, 1.0, -1.5, 0.1, 1e300, -1e-300, 5e-324, f64::MAX, f64::MIN_POSITIVE, f64::INFINITY,
        f64::NEG_INFINITY, f64::NAN, -f64::NAN, 1e15, 1e16, 1e17, 123456789012345680.0, 1e-5, 1e-7,
    ] {
        let value = Value::Number(number.into());
        everywhere(&value, &value);
        if number == 0.0 {
            // Both zeros are the same key, but they are told apart as values.
            let text = dump_mapping(&mapping(vec![("a".into(), value)])).unwrap();
            let read = parse_yaml(&text).unwrap()["a"].as_f64().unwrap();
            assert_eq!(read.to_bits(), number.to_bits());
        }
    }
    for number in [0, 1, -1, i64::MAX, i64::MIN] {
        let value = Value::Number(number.into());
        everywhere(&value, &value);
    }
    let value = Value::Number(u64::MAX.into());
    everywhere(&value, &value);
}

#[test]
fn other_plain_values_read_back_everywhere() {
    let empty = || Value::Mapping(Mapping::new());
    for value in [
        Value::Null,
        Value::Bool(true),
        Value::Bool(false),
        list(vec![]),
        empty(),
        list(vec![list(vec![]), empty(), Value::Null]),
        tagged("t", Value::Null),
        tagged("t", list(vec![])),
        tagged("t", empty()),
        tagged("T-0_z", "true".into()),
        tagged("0", Value::Bool(true)),
        tagged("-", 1.into()),
        tagged("_", "".into()),
        tagged("null", "a\n".into()),
        tagged("str", "a".into()),
    ] {
        for key in [Value::Null, Value::Bool(false), "true".into(), 7.into(), "k".into()] {
            everywhere(&key, &value);
        }
    }
}

#[test]
fn deep_plain_values_read_back() {
    let deep = |n: usize, tag: bool| {
        (0..n).fold(Value::from("x"), |v, i| {
            let v = if i % 2 == 0 { list(vec![v]) } else { Value::Mapping(mapping(vec![("k".into(), v)])) };
            if tag { tagged("t", v) } else { v }
        })
    };
    for tag in [false, true] {
        reads_back(mapping(vec![("a".into(), deep(127, tag)), ("b".into(), deep(127, tag))]));
    }
}
