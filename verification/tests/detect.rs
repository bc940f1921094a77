use frontmatter_mcp::classify::{annotate, classify_string, is_date, is_datetime, is_wikilink};
use frontmatter_mcp::infer_type;
use frontmatter_mcp::value::{Json, Yaml};

fn string(s: &str) -> Yaml {
    Yaml::String(s.to_owned())
}

fn member<'a>(v: &'a Json, name: &str) -> Option<&'a Json> {
    match v {
        Json::Object(members) => members.iter().rev().find(|m| m.0 == name).map(|m| &m.1),
        _ => None,
    }
}

#[test]
fn detect_integer() {
    let v = Yaml::Number(1i64.into());
    assert_eq!(infer_type(&v), ("integer", None));
}

#[test]
fn detect_float() {
    let v = Yaml::Number(1.5f64.into());
    assert_eq!(infer_type(&v), ("float", None));
}

#[test]
fn detect_boolean() {
    assert_eq!(infer_type(&Yaml::Bool(true)), ("boolean", None));
}

#[test]
fn detect_null() {
    assert_eq!(infer_type(&Yaml::Null), ("null", None));
}

#[test]
fn detect_plain_string() {
    let v = Yaml::String("hello".into());
    assert_eq!(infer_type(&v), ("string", None));
}

#[test]
fn detect_wikilink() {
    let v = Yaml::String("[[My Note]]".into());
    assert_eq!(infer_type(&v), ("wikilink", None));
}

#[test]
fn detect_date() {
    let v = Yaml::String("2025-03-16".into());
    assert_eq!(infer_type(&v), ("date", None));
}

#[test]
fn detect_datetime_space() {
    let v = Yaml::String("2025-03-16 08:30:00".into());
    assert_eq!(infer_type(&v), ("datetime", None));
}

#[test]
fn detect_datetime_t() {
    let v = Yaml::String("2025-03-16T08:30:00".into());
    assert_eq!(infer_type(&v), ("datetime", None));
}

#[test]
fn detect_wikilink_array() {
    let v = Yaml::Sequence(vec![
        Yaml::String("[[Char1]]".into()),
        Yaml::String("[[Char2]]".into()),
    ]);
    assert_eq!(infer_type(&v), ("array", Some("wikilink")));
}

#[test]
fn detect_string_array() {
    let v = Yaml::Sequence(vec![
        Yaml::String("Mood1".into()),
        Yaml::String("Mood2".into()),
    ]);
    assert_eq!(infer_type(&v), ("array", Some("string")));
}

#[test]
fn detect_integer_array() {
    let v = Yaml::Sequence(vec![Yaml::Number(1i64.into()), Yaml::Number(2i64.into())]);
    assert_eq!(infer_type(&v), ("array", Some("integer")));
}

#[test]
fn detect_mixed_array() {
    let v = Yaml::Sequence(vec![Yaml::String("foo".into()), Yaml::Number(1i64.into())]);
    assert_eq!(infer_type(&v), ("array", Some("mixed")));
}

#[test]
fn detect_other_arrays() {
    let of = |items: Vec<Yaml>| infer_type(&Yaml::Sequence(items));
    assert_eq!(of(vec![]), ("array", Some("string")));
    assert_eq!(of(vec![string("2025-03-16"), string("2025-03-17")]), ("array", Some("date")));
    assert_eq!(
        of(vec![string("2025-03-16 08:30:00"), string("2025-03-16T08:30:00Z")]),
        ("array", Some("datetime"))
    );
    assert_eq!(of(vec![string("2025-03-16"), string("[[A]]")]), ("array", Some("string")));
    assert_eq!(
        of(vec![Yaml::Number(1i64.into()), Yaml::Number(1.5f64.into())]),
        ("array", Some("float"))
    );
    assert_eq!(of(vec![Yaml::Bool(true), Yaml::Bool(false)]), ("array", Some("boolean")));
    assert_eq!(of(vec![Yaml::Null, Yaml::Null]), ("array", Some("null")));
    assert_eq!(of(vec![Yaml::Sequence(vec![]), Yaml::Sequence(vec![])]), ("array", Some("array")));
    assert_eq!(of(vec![Yaml::Mapping(vec![])]), ("array", Some("object")));
    assert_eq!(of(vec![Yaml::Number(1.5f64.into())]), ("array", Some("float")));
    let tagged = |v: Yaml| Yaml::Tagged("!t".to_owned(), Box::new(v));
    assert_eq!(of(vec![tagged(string("[[A]]")), string("[[B]]")]), ("array", Some("wikilink")));
    assert_eq!(of(vec![tagged(string("a")), string("[[B]]")]), ("array", Some("string")));
    assert_eq!(of(vec![Yaml::Null, Yaml::Bool(true)]), ("array", Some("mixed")));
    assert_eq!(of(vec![Yaml::Sequence(vec![]), Yaml::Mapping(vec![])]), ("array", Some("mixed")));
}

#[test]
fn detect_object_and_tagged() {
    assert_eq!(infer_type(&Yaml::Mapping(vec![])), ("object", None));
    let inner = Yaml::Tagged("!b".to_owned(), Box::new(string("2025-03-16")));
    let tagged = Yaml::Tagged("!a".to_owned(), Box::new(inner));
    assert_eq!(infer_type(&tagged), ("date", None));
    let list = Yaml::Tagged("!a".to_owned(), Box::new(Yaml::Sequence(vec![Yaml::Bool(true)])));
    assert_eq!(infer_type(&list), ("array", Some("boolean")));
}

#[test]
fn detect_great_integer() {
    assert_eq!(infer_type(&Yaml::Number(u64::MAX.into())), ("integer", None));
    assert_eq!(infer_type(&Yaml::Number(i64::MIN.into())), ("integer", None));
}

#[test]
fn wikilink_needs_something_between_the_brackets() {
    assert!(!is_wikilink("[[]]"));
    assert!(is_wikilink("[[é]]"));
    assert!(is_wikilink("[[]]]"));
    assert!(!is_wikilink("[[a] ]"));
    assert!(!is_wikilink("[a]"));
    assert!(!is_wikilink(""));
}

#[test]
fn date_has_exactly_ten_characters() {
    assert!(is_date("0000-99-99"));
    assert!(!is_date("2025-03-1"));
    assert!(!is_date("2025-03-160"));
    assert!(!is_date("2025/03/16"));
    assert!(!is_date("2025-03-1é"));
    assert!(!is_date("2025-03é6"));
}

#[test]
fn datetime_may_have_a_time_zone() {
    for zone in [
        "", "Z", "z", "+02:00", "-11:30", "+0200", "+02", "-2", "+2:00", "+02:00:00", "+020000", " +02:00",
        " +0200", " Z", "\tZ", " UTC", "UTC", " CEST", " UTC+2", " GMT+01:00", "A", " Europe/Berlin",
        " America/Port-au-Prince", " Etc/GMT+5", "+01:00[Europe/Berlin]", "Z[UTC]", " [Europe/Berlin]",
        ".5", ".000Z", ".123456+02:00", ".5 UTC",
    ] {
        assert!(is_datetime(&format!("2025-03-16T08:30:00{zone}")), "{zone:?}");
        assert!(is_datetime(&format!("2025-03-16 08:30:00{zone}")), "{zone:?}");
    }
    for rest in [
        " or later", " and more", " later", " Tomorrow", "+02:0x", "+02:", "+", "+020", "+02000", "ZZ",
        " UTC or so", " Europe/Berlin or so", "/Berlin ", "+01:00[Europe/Berlin", "[]", "[",
        ".", ".x", ". Z", " ", ":00", "0", "-", "é", " (UTC)", "[[A]]",
    ] {
        let s = format!("2025-03-16 08:30:00{rest}");
        assert!(!is_datetime(&s), "{rest:?}");
        assert_eq!(classify_string(&s), "string");
    }
    assert!(!is_datetime("2025-03-16_08:30:00"));
    assert!(!is_datetime("2025-03-16 08:30"));
    assert!(!is_datetime("2025-03-16 08-30-00"));
    assert!(!is_datetime("2025-03-1é 08:30:00"));
    assert!(!is_datetime("2025-03-é6 08:30:00 and more"));
}

#[test]
fn no_string_has_two_types() {
    for s in ["[[2025-03-16]]", "2025-03-16", "2025-03-16 08:30:00", "a"] {
        let types = [is_wikilink(s), is_date(s), is_datetime(s)];
        assert!(types.iter().filter(|t| **t).count() <= 1, "{s}");
    }
    assert_eq!(classify_string("[[2025-03-16 08:30:00]]"), "wikilink");
}

#[test]
fn annotation_has_the_value_and_its_type() {
    let v = annotate(Yaml::Sequence(vec![Yaml::Bool(true)]));
    assert_eq!(member(&v, "value"), Some(&Json::Array(vec![Json::Bool(true)])));
    assert_eq!(member(&v, "type"), Some(&Json::String("array".to_owned())));
    assert_eq!(member(&v, "items_type"), Some(&Json::String("boolean".to_owned())));
    let v = annotate(Yaml::Null);
    assert_eq!(member(&v, "value"), Some(&Json::Null));
    assert_eq!(member(&v, "type"), Some(&Json::String("null".to_owned())));
    assert_eq!(member(&v, "items_type"), None);
}
