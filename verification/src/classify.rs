//! The types that are told apart among YAML values.

use vstd::prelude::*;

use crate::convert::{yaml_to_json, yaml_to_json_spec};
use crate::number::{is_integer, Num};
use crate::semver::is_digit;
use crate::text::{chars_of, same};
use crate::value::{
    lemma_yaml_trees, push_member, yaml_trees, Json, JsonTree, Yaml, YamlTree,
};
use crate::zone::{check_suffix, time_suffix};

verus! {

/// `[[...]]`, with something between the brackets.
pub open spec fn wikilink(s: Seq<char>) -> bool {
    let n = s.len() as int;
    n > 4 && s[0] == '[' && s[1] == '[' && s[n - 2] == ']' && s[n - 1] == ']'
}

/// The characters of `s` from `from` up to `to` are digits, but for `mark` at `a` and at `b`.
pub open spec fn digits_but(s: Seq<char>, from: int, to: int, mark: char, a: int, b: int) -> bool {
    forall|i: int|
        from <= i < to ==> if i == a || i == b {
            #[trigger] s[i] == mark
        } else {
            is_digit(s[i])
        }
}

/// `YYYY-MM-DD`.
pub open spec fn date(s: Seq<char>) -> bool {
    s.len() == 10 && digits_but(s, 0, 10, '-', 4, 7)
}

/// `YYYY-MM-DD HH:MM:SS` or `YYYY-MM-DDTHH:MM:SS`, with a fraction of a second and a time zone or
/// without.
pub open spec fn datetime(s: Seq<char>) -> bool {
    &&& s.len() >= 19
    &&& date(s.take(10))
    &&& s[10] == ' ' || s[10] == 'T'
    &&& digits_but(s, 11, 19, ':', 13, 16)
    &&& time_suffix(s.skip(19))
}

/// The type of a string.
pub open spec fn string_type(s: Seq<char>) -> Seq<char> {
    if wikilink(s) {
        "wikilink"@
    } else if datetime(s) {
        "datetime"@
    } else if date(s) {
        "date"@
    } else {
        "string"@
    }
}

/// The type of a value. A tag does not count.
pub open spec fn kind_of(t: YamlTree) -> Seq<char>
    decreases t,
{
    match t {
        YamlTree::Null => "null"@,
        YamlTree::Bool(_) => "boolean"@,
        YamlTree::Number(Num::Int(_)) => "integer"@,
        YamlTree::Number(Num::Float(_)) => "float"@,
        YamlTree::Str(s) => string_type(s),
        YamlTree::List(_) => "array"@,
        YamlTree::Entries(_) => "object"@,
        YamlTree::Tagged(_, value) => kind_of(*value),
    }
}

/// All of `items` have the type `name`.
pub open spec fn all_of(items: Seq<YamlTree>, name: Seq<char>) -> bool {
    forall|i: int| 0 <= i < items.len() ==> kind_of(#[trigger] items[i]) == name
}

/// One of the types of strings.
pub open spec fn is_string_type(name: Seq<char>) -> bool {
    name == "wikilink"@ || name == "datetime"@ || name == "date"@ || name == "string"@
}

/// One of the types of numbers.
pub open spec fn is_number_type(name: Seq<char>) -> bool {
    name == "integer"@ || name == "float"@
}

/// All of `items` are strings, of whatever types.
pub open spec fn all_strings(items: Seq<YamlTree>) -> bool {
    forall|i: int| 0 <= i < items.len() ==> is_string_type(kind_of(#[trigger] items[i]))
}

/// All of `items` are numbers, of whatever types.
pub open spec fn all_numbers(items: Seq<YamlTree>) -> bool {
    forall|i: int| 0 <= i < items.len() ==> is_number_type(kind_of(#[trigger] items[i]))
}

/// The type that the items of a sequence have in common: the one type that they all have, or
/// `string` for strings of several types, or `float` for numbers of both types. Other items are
/// mixed. Without items it is `string`.
pub open spec fn items_type(items: Seq<YamlTree>) -> Seq<char> {
    if items.len() == 0 {
        "string"@
    } else if all_of(items, kind_of(items[0])) {
        kind_of(items[0])
    } else if all_strings(items) {
        "string"@
    } else if all_numbers(items) {
        "float"@
    } else {
        "mixed"@
    }
}

/// The type of a value and, for a sequence, that of its items. A tag does not count.
pub open spec fn type_spec(t: YamlTree) -> (Seq<char>, Option<Seq<char>>)
    decreases t,
{
    match t {
        YamlTree::List(items) => ("array"@, Some(items_type(items))),
        YamlTree::Tagged(_, value) => type_spec(*value),
        _ => (kind_of(t), None),
    }
}

/// A value with its type.
pub open spec fn annotate_spec(t: YamlTree) -> JsonTree {
    let plain = map![
        "value"@ => yaml_to_json_spec(t),
        "type"@ => JsonTree::Str(type_spec(t).0),
    ];
    match type_spec(t).1 {
        Some(items) => JsonTree::Object(plain.insert("items_type"@, JsonTree::Str(items))),
        None => JsonTree::Object(plain),
    }
}

/// Whether `cs` has digits from `from` up to `to`, but for `mark` at `a` and at `b`.
fn check_digits(cs: &Vec<char>, from: usize, to: usize, mark: char, a: usize, b: usize) -> (r: bool)
    requires
        from <= to <= cs@.len(),
    ensures
        r == digits_but(cs@, from as int, to as int, mark, a as int, b as int),
{
    let mut i: usize = from;
    while i < to
        invariant
            from <= i <= to <= cs@.len(),
            digits_but(cs@, from as int, i as int, mark, a as int, b as int),
        decreases to - i,
    {
        let c = cs[i];
        let fits = if i == a || i == b {
            c == mark
        } else {
            '0' <= c && c <= '9'
        };
        if !fits {
            assert(cs@[i as int] == c);
            return false;
        }
        i += 1;
    }
    true
}

/// Whether `s` is a wikilink, `[[...]]`.
pub fn is_wikilink(s: &str) -> (r: bool)
    ensures
        r == wikilink(s@),
{
    let cs = chars_of(s);
    let n = cs.len();
    n > 4 && cs[0] == '[' && cs[1] == '[' && cs[n - 2] == ']' && cs[n - 1] == ']'
}

/// Whether `s` is a date, `YYYY-MM-DD`.
pub fn is_date(s: &str) -> (r: bool)
    ensures
        r == date(s@),
{
    let cs = chars_of(s);
    cs.len() == 10 && check_digits(&cs, 0, 10, '-', 4, 7)
}

/// Whether `s` is a date and a time, `YYYY-MM-DD HH:MM:SS` or `YYYY-MM-DDTHH:MM:SS`, with a
/// fraction of a second and a time zone or without.
pub fn is_datetime(s: &str) -> (r: bool)
    ensures
        r == datetime(s@),
{
    let cs = chars_of(s);
    if cs.len() < 19 {
        return false;
    }
    proof {
        let head = s@.take(10);
        assert(forall|i: int| 0 <= i < 10 ==> #[trigger] head[i] == s@[i]);
        if digits_but(s@, 0, 10, '-', 4, 7) {
            assert(digits_but(head, 0, 10, '-', 4, 7));
        }
        if digits_but(head, 0, 10, '-', 4, 7) {
            assert forall|i: int| 0 <= i < 10 implies if i == 4 || i == 7 {
                #[trigger] s@[i] == '-'
            } else {
                is_digit(s@[i])
            } by {
                assert(head[i] == s@[i]);
            }
        }
    }
    check_digits(&cs, 0, 10, '-', 4, 7) && (cs[10] == ' ' || cs[10] == 'T') && check_digits(
        &cs,
        11,
        19,
        ':',
        13,
        16,
    ) && check_suffix(&cs, 19)
}

/// The type of a string.
pub fn classify_string(s: &str) -> (r: &'static str)
    ensures
        r@ == string_type(s@),
{
    if is_wikilink(s) {
        "wikilink"
    } else if is_datetime(s) {
        "datetime"
    } else if is_date(s) {
        "date"
    } else {
        "string"
    }
}

/// The type of a value.
fn name_of(v: &Yaml) -> (r: &'static str)
    ensures
        r@ == kind_of(v@),
    decreases v,
{
    match v {
        Yaml::Null => "null",
        Yaml::Bool(_) => "boolean",
        Yaml::Number(n) => if is_integer(n) {
            "integer"
        } else {
            "float"
        },
        Yaml::String(s) => classify_string(s.as_str()),
        Yaml::Sequence(_) => "array",
        Yaml::Mapping(_) => "object",
        Yaml::Tagged(_, value) => name_of(value),
    }
}

/// The type that the items of a sequence have in common.
pub fn classify_items(seq: &Vec<Yaml>) -> (r: &'static str)
    ensures
        r@ == items_type(yaml_trees(seq@)),
{
    let ghost items = yaml_trees(seq@);
    proof {
        lemma_yaml_trees(seq@);
    }
    if seq.len() == 0 {
        return "string";
    }
    let first = name_of(&seq[0]);
    let mut alike = true;
    let mut strings = true;
    let mut numbers = true;
    let mut k: usize = 0;
    while k < seq.len()
        invariant
            k <= seq@.len(),
            items.len() == seq@.len(),
            forall|i: int| 0 <= i < seq@.len() ==> #[trigger] items[i] == seq@[i]@,
            first@ == kind_of(items[0]),
            alike == forall|i: int| 0 <= i < k ==> kind_of(#[trigger] items[i]) == first@,
            strings == forall|i: int|
                0 <= i < k ==> is_string_type(kind_of(#[trigger] items[i])),
            numbers == forall|i: int|
                0 <= i < k ==> is_number_type(kind_of(#[trigger] items[i])),
        decreases seq@.len() - k,
    {
        let name = name_of(&seq[k]);
        assert(name@ == kind_of(items[k as int]));
        alike = alike && same(name, first);
        strings = strings && (same(name, "wikilink") || same(name, "datetime") || same(name, "date")
            || same(name, "string"));
        numbers = numbers && (same(name, "integer") || same(name, "float"));
        k += 1;
    }
    if alike {
        first
    } else if strings {
        "string"
    } else if numbers {
        "float"
    } else {
        "mixed"
    }
}

/// The type of a value and, for a sequence, that of its items.
pub fn infer_type(v: &Yaml) -> (r: (&'static str, Option<&'static str>))
    ensures
        r.0@ == type_spec(v@).0,
        match r.1 {
            Some(items) => type_spec(v@).1 == Some(items@),
            None => type_spec(v@).1 is None,
        },
    decreases v,
{
    match v {
        Yaml::Sequence(items) => ("array", Some(classify_items(items))),
        Yaml::Tagged(_, value) => infer_type(value),
        _ => (name_of(v), None),
    }
}

/// A value as JSON, wrapped together with its type and, for a sequence, the type of its items.
pub fn annotate(v: Yaml) -> (r: Json)
    ensures
        r@ == annotate_spec(v@),
{
    let (name, items) = infer_type(&v);
    let mut members: Vec<(String, Json)> = Vec::new();
    push_member(&mut members, "value", yaml_to_json(v));
    push_member(&mut members, "type", Json::String(name.to_owned()));
    if let Some(items) = items {
        push_member(&mut members, "items_type", Json::String(items.to_owned()));
    }
    Json::Object(members)
}

/// No string is of two types: of a wikilink, a date with a time and a date it is at most one.
pub proof fn string_types_exclude_each_other(s: Seq<char>)
    ensures
        !(wikilink(s) && datetime(s)),
        !(wikilink(s) && date(s)),
        !(datetime(s) && date(s)),
{
    if datetime(s) {
        assert(is_digit(s.take(10)[0]));
        assert(s.take(10)[0] == s[0]);
    }
    if date(s) {
        assert(is_digit(s[0]));
    }
}

/// The type of the items is given for sequences and for nothing else, behind any number of tags.
pub proof fn items_type_is_for_sequences(t: YamlTree)
    ensures
        type_spec(t).1 is Some <==> type_spec(t).0 == "array"@,
    decreases t,
{
    reveal_strlit("null");
    reveal_strlit("boolean");
    reveal_strlit("integer");
    reveal_strlit("float");
    reveal_strlit("wikilink");
    reveal_strlit("datetime");
    reveal_strlit("date");
    reveal_strlit("string");
    reveal_strlit("array");
    reveal_strlit("object");
    assert("array"@[0] == 'a');
    if let YamlTree::Tagged(_, value) = t {
        items_type_is_for_sequences(*value);
    }
}

/// Each value has one of ten types, and the items of a sequence have one of these or are mixed.
pub proof fn types_are_these(t: YamlTree)
    ensures
        seq![
            "null"@, "boolean"@, "integer"@, "float"@, "date"@, "datetime"@, "wikilink"@, "string"@,
            "array"@, "object"@,
        ].contains(type_spec(t).0),
        type_spec(t).0 == kind_of(t),
        type_spec(t).1 matches Some(items) ==> items == "mixed"@ || seq![
            "null"@, "boolean"@, "integer"@, "float"@, "date"@, "datetime"@, "wikilink"@, "string"@,
            "array"@, "object"@,
        ].contains(items),
    decreases t,
{
    let types = seq![
        "null"@, "boolean"@, "integer"@, "float"@, "date"@, "datetime"@, "wikilink"@, "string"@,
        "array"@, "object"@,
    ];
    assert(types[0] == "null"@ && types[1] == "boolean"@ && types[2] == "integer"@);
    assert(types[3] == "float"@ && types[4] == "date"@ && types[5] == "datetime"@);
    assert(types[6] == "wikilink"@ && types[7] == "string"@ && types[8] == "array"@);
    assert(types[9] == "object"@);
    if let YamlTree::List(items) = t {
        if items.len() > 0 {
            types_are_these(items[0]);
        }
    }
    if let YamlTree::Tagged(_, value) = t {
        types_are_these(*value);
    }
}

/// Items that all have one type have that type in common.
pub proof fn items_of_one_type_have_it(items: Seq<YamlTree>, name: Seq<char>)
    requires
        items.len() > 0,
        forall|i: int| 0 <= i < items.len() ==> type_spec(#[trigger] items[i]).0 == name,
    ensures
        items_type(items) == name,
{
    assert forall|i: int| 0 <= i < items.len() implies kind_of(#[trigger] items[i]) == name by {
        types_are_these(items[i]);
    }
    assert(kind_of(items[0]) == name);
}

/// What a value is wrapped in tells the value that would be read without it, and its type.
pub proof fn annotation_holds_the_value(t: YamlTree)
    ensures
        annotate_spec(t) is Object,
        annotate_spec(t)->Object_0["value"@] == yaml_to_json_spec(t),
        annotate_spec(t)->Object_0["type"@] == JsonTree::Str(type_spec(t).0),
        annotate_spec(t)->Object_0.dom().contains("items_type"@) <==> type_spec(t).1 is Some,
        type_spec(t).1 matches Some(items) ==> annotate_spec(t)->Object_0["items_type"@]
            == JsonTree::Str(items),
{
    reveal_strlit("value");
    reveal_strlit("type");
    reveal_strlit("items_type");
    assert("value"@.len() == 5);
    assert("type"@.len() == 4);
    assert("items_type"@.len() == 10);
}

/// The value behind any number of tags.
pub open spec fn without_tags(t: YamlTree) -> YamlTree
    decreases t,
{
    match t {
        YamlTree::Tagged(_, value) => without_tags(*value),
        _ => t,
    }
}

proof fn lemma_type_names()
    ensures
        "null"@.len() == 4 && "null"@[0] == 'n',
        "boolean"@.len() == 7 && "boolean"@[0] == 'b',
        "integer"@.len() == 7 && "integer"@[0] == 'i',
        "float"@.len() == 5 && "float"@[0] == 'f',
        "wikilink"@.len() == 8 && "wikilink"@[0] == 'w',
        "datetime"@.len() == 8 && "datetime"@[0] == 'd',
        "date"@.len() == 4 && "date"@[0] == 'd',
        "string"@.len() == 6 && "string"@[0] == 's',
        "array"@.len() == 5 && "array"@[0] == 'a',
        "object"@.len() == 6 && "object"@[0] == 'o',
        "mixed"@.len() == 5 && "mixed"@[0] == 'm',
{
    reveal_strlit("null");
    reveal_strlit("boolean");
    reveal_strlit("integer");
    reveal_strlit("float");
    reveal_strlit("wikilink");
    reveal_strlit("datetime");
    reveal_strlit("date");
    reveal_strlit("string");
    reveal_strlit("array");
    reveal_strlit("object");
    reveal_strlit("mixed");
}

/// The type tells what kind of value it is, behind any tags and whatever the value holds: exactly a
/// mapping is an object, exactly a sequence an array, exactly a string has one of the four types of
/// strings, and so on.
pub proof fn type_tells_the_kind(t: YamlTree)
    ensures
        type_spec(t).0 == "null"@ <==> without_tags(t) is Null,
        type_spec(t).0 == "boolean"@ <==> without_tags(t) is Bool,
        type_spec(t).0 == "integer"@ <==> (without_tags(t) matches YamlTree::Number(Num::Int(_))),
        type_spec(t).0 == "float"@ <==> (without_tags(t) matches YamlTree::Number(Num::Float(_))),
        type_spec(t).0 == "array"@ <==> without_tags(t) is List,
        type_spec(t).0 == "object"@ <==> without_tags(t) is Entries,
        (type_spec(t).0 == "wikilink"@ || type_spec(t).0 == "datetime"@ || type_spec(t).0 == "date"@
            || type_spec(t).0 == "string"@) <==> without_tags(t) is Str,
        type_spec(t).1 is Some <==> without_tags(t) is List,
        type_spec(t) == type_spec(without_tags(t)),
    decreases t,
{
    lemma_type_names();
    if let YamlTree::Tagged(_, value) = t {
        type_tells_the_kind(*value);
    }
}

/// `inner` between two pairs of square brackets.
pub open spec fn linked(inner: Seq<char>) -> Seq<char> {
    seq!['[', '['] + inner + seq![']', ']']
}

/// The four types of strings: a wikilink has something between two pairs of square brackets, a date
/// is `YYYY-MM-DD`, and a date with a time has a blank or a `T` and `HH:MM:SS` behind the date and
/// then nothing but what may follow the seconds. Any other string is a plain one.
pub proof fn string_types_by_form(s: Seq<char>)
    ensures
        type_spec(YamlTree::Str(s)).0 == "wikilink"@ <==> exists|inner: Seq<char>|
            inner.len() > 0 && s == #[trigger] linked(inner),
        type_spec(YamlTree::Str(s)).0 == "date"@ <==> s.len() == 10 && s[4] == '-' && s[7] == '-' && (
        forall|i: int| 0 <= i < 10 && i != 4 && i != 7 ==> '0' <= #[trigger] s[i] <= '9'),
        type_spec(YamlTree::Str(s)).0 == "datetime"@ <==> s.len() >= 19 && s[4] == '-' && s[7] == '-'
            && (s[10] == ' ' || s[10] == 'T') && s[13] == ':' && s[16] == ':' && (forall|i: int|
            0 <= i < 19 && i != 4 && i != 7 && i != 10 && i != 13 && i != 16 ==> '0' <= #[trigger] s[i]
                <= '9') && time_suffix(s.skip(19)),
        wikilink(s) <==> type_spec(YamlTree::Str(s)).0 == "wikilink"@,
        date(s) <==> type_spec(YamlTree::Str(s)).0 == "date"@,
        datetime(s) <==> type_spec(YamlTree::Str(s)).0 == "datetime"@,
        string_type(s) == type_spec(YamlTree::Str(s)).0,
{
    lemma_type_names();
    string_types_exclude_each_other(s);
    let n = s.len() as int;
    if wikilink(s) {
        let inner = s.subrange(2, n - 2);
        assert(s =~= linked(inner));
    }
    if exists|inner: Seq<char>|
        inner.len() > 0 && s == #[trigger] linked(inner) {
        let inner = choose|inner: Seq<char>|
            inner.len() > 0 && s == #[trigger] linked(inner);
        assert(s[0] == '[' && s[1] == '[' && s[n - 2] == ']' && s[n - 1] == ']');
    }
    if s.len() >= 10 {
        let head = s.take(10);
        assert(forall|i: int| 0 <= i < 10 ==> #[trigger] head[i] == s[i]);
        if s.len() == 10 {
            assert(head =~= s);
        }
        if date(head) {
            assert(head[4] == '-' && head[7] == '-');
            assert forall|i: int| 0 <= i < 10 && i != 4 && i != 7 implies '0' <= #[trigger] s[i]
                <= '9' by {
                assert(head[i] == s[i]);
                assert(is_digit(head[i]));
            }
        }
        if s[4] == '-' && s[7] == '-' && (forall|i: int|
            0 <= i < 10 && i != 4 && i != 7 ==> '0' <= #[trigger] s[i] <= '9') {
            assert(digits_but(head, 0, 10, '-', 4, 7));
        }
    }
    if s.len() >= 19 {
        if digits_but(s, 11, 19, ':', 13, 16) {
            assert(s[13] == ':' && s[16] == ':');
            assert forall|i: int| 11 <= i < 19 && i != 13 && i != 16 implies '0' <= #[trigger] s[i]
                <= '9' by {
                assert(is_digit(s[i]));
            }
        }
    }
}

/// The items of a sequence have the one type in common that they all have. Strings of several types
/// are strings, integers and floats together are floats, and anything else is mixed. A sequence
/// without items is one of strings.
pub proof fn items_have_a_type_in_common(items: Seq<YamlTree>)
    ensures
        type_spec(YamlTree::List(items)).1 == Some(items_type(items)),
        items.len() == 0 ==> items_type(items) == "string"@,
        items.len() > 0 ==> {
            let alike = forall|i: int|
                0 <= i < items.len() ==> type_spec(#[trigger] items[i]).0 == type_spec(items[0]).0;
            let strings = forall|i: int|
                0 <= i < items.len() ==> without_tags(#[trigger] items[i]) is Str;
            let numbers = forall|i: int|
                0 <= i < items.len() ==> without_tags(#[trigger] items[i]) is Number;
            &&& alike ==> items_type(items) == type_spec(items[0]).0
            &&& !alike && strings ==> items_type(items) == "string"@
            &&& !alike && numbers ==> items_type(items) == "float"@
            &&& !alike && !strings && !numbers ==> items_type(items) == "mixed"@
        },
{
    lemma_type_names();
    if items.len() > 0 {
        assert forall|i: int| 0 <= i < items.len() implies {
            &&& kind_of(#[trigger] items[i]) == type_spec(items[i]).0
            &&& is_string_type(kind_of(items[i])) == (without_tags(items[i]) is Str)
            &&& is_number_type(kind_of(items[i])) == (without_tags(items[i]) is Number)
        } by {
            types_are_these(items[i]);
            type_tells_the_kind(items[i]);
        }
        assert(kind_of(items[0]) == type_spec(items[0]).0);
        if forall|i: int|
            0 <= i < items.len() ==> type_spec(#[trigger] items[i]).0 == type_spec(items[0]).0 {
            assert(all_of(items, kind_of(items[0])));
        }
        if all_of(items, kind_of(items[0])) {
            assert forall|i: int| 0 <= i < items.len() implies type_spec(#[trigger] items[i]).0
                == type_spec(items[0]).0 by {
                assert(kind_of(items[i]) == kind_of(items[0]));
            }
        }
        if all_strings(items) {
            assert forall|i: int| 0 <= i < items.len() implies without_tags(
                #[trigger] items[i],
            ) is Str by {
                assert(is_string_type(kind_of(items[i])));
            }
        }
        if all_numbers(items) {
            assert forall|i: int| 0 <= i < items.len() implies without_tags(
                #[trigger] items[i],
            ) is Number by {
                assert(is_number_type(kind_of(items[i])));
            }
        }
    }
}

/// A value is wrapped in an object with its value and its type and, for a sequence, the type of the
/// items, and with nothing else.
pub proof fn annotation_holds_nothing_else(t: YamlTree, name: Seq<char>)
    ensures
        annotate_spec(t)->Object_0.dom().contains(name) <==> name == "value"@ || name == "type"@ || (
        name == "items_type"@ && without_tags(t) is List),
{
    annotation_holds_the_value(t);
    type_tells_the_kind(t);
}

} // verus!
