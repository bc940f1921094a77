//! Patching front matter part by part, so that other entries stay as they are.
//!
//! Front matter is cut into parts: at its lines, or at the commas between its entries where all of
//! it is a mapping in braces. A part with one entry that is set gives way to the new entry; every
//! other part stays. New entries are appended. Whether the result is what was meant is for the
//! caller to see by reading it.

use vstd::prelude::*;

use crate::convert::{yaml_to_json, yaml_to_json_spec};
use crate::entries::{lemma_position, lookup};
use crate::flow::{is_white, white, white_end};
use crate::frontmatter::{dump_lines, dump_mapping, parse_spec, parse_yaml, same_mapping};
use crate::json::{json_text, to_text};
use crate::layout::{join_parts, joined, texts, Layout, LayoutView};
use crate::text::{around, chars_of, drop_line_feed, same, string_of, unended};
use crate::value::{Json, JsonTree, YamlTree};
use crate::yaml::{
    mapping_entries, mapping_get, mapping_insert, mapping_into_entries, open_value, value_tree,
    yaml_of, YamlNode,
};

verus! {

/// The entries that the first `i` parts write.
pub open spec fn entries_to(l: LayoutView, i: int) -> Option<Seq<(YamlTree, YamlTree)>> {
    if i <= 0 {
        Some(Seq::empty())
    } else {
        parse_spec(l.with(l.parts.take(i)))
    }
}

/// The first `n` parts, of which each that is not YAML together with those before it is joined with
/// the next: a string or a bracket goes on there.
pub open spec fn whole_parts(l: LayoutView, n: int) -> Seq<Seq<char>>
    decreases n,
{
    if n <= 0 {
        Seq::empty()
    } else {
        let before = whole_parts(l, n - 1);
        if n == 1 || entries_to(l, n - 1) is Some {
            before.push(l.parts[n - 1])
        } else {
            before.drop_last().push(before.last().push(l.sep()) + l.parts[n - 1])
        }
    }
}

/// Front matter that is cut only where it is YAML up to there.
pub open spec fn whole(l: LayoutView) -> LayoutView {
    LayoutView { parts: whole_parts(l, l.parts.len() as int), ..l }
}

/// The key of the one entry that part `i` adds to those of the parts before it, if that is a
/// string.
pub open spec fn part_key(l: LayoutView, i: int) -> Option<Seq<char>> {
    match (entries_to(l, i), entries_to(l, i + 1)) {
        (Some(before), Some(after)) => if after.len() == before.len() + 1 {
            match after.last().0 {
                YamlTree::Str(key) => Some(key),
                _ => None,
            }
        } else {
            None
        },
        _ => None,
    }
}

/// Part `i` stays: it is not that of an entry with one of `names`.
pub open spec fn stays(l: LayoutView, i: int, names: Seq<Seq<char>>) -> bool {
    match part_key(l, i) {
        Some(key) => !names.contains(key),
        None => true,
    }
}

/// `s` with `margin` blanks before each of its lines.
pub open spec fn indented(s: Seq<char>, margin: nat) -> Seq<char>
    decreases s.len(),
{
    let blanks = Seq::new(margin, |i: int| ' ');
    if s.len() == 0 {
        blanks
    } else if s.last() == '\n' {
        indented(s.drop_last(), margin).push('\n') + blanks
    } else {
        indented(s.drop_last(), margin).push(s.last())
    }
}

/// The text of an entry: its lines without the line feed behind the last of them, or JSON between
/// braces.
pub open spec fn entry_text(l: LayoutView, key: Seq<char>, value: YamlTree) -> Option<Seq<char>> {
    if l.flow {
        Some(json_text(JsonTree::Str(key)) + ": "@ + json_text(yaml_to_json_spec(value)))
    } else {
        match dump_lines(seq![(YamlTree::Str(key), value)]) {
            Some(lines) => Some(indented(unended(lines), l.margin)),
            None => None,
        }
    }
}

/// Where the white characters at the end of the first `n` characters start.
pub open spec fn white_start(s: Seq<char>, n: int) -> int
    decreases n,
{
    if 0 < n <= s.len() && is_white(s[n - 1]) {
        white_start(s, n - 1)
    } else {
        n
    }
}

/// `text` in place of a part: between braces the white characters at the start and at the end of
/// the part stay.
pub open spec fn in_place(l: LayoutView, part: Seq<char>, text: Seq<char>) -> Seq<char> {
    if l.flow {
        part.take(white_end(part, 0)) + text + part.skip(white_start(part, part.len() as int))
    } else {
        text
    }
}

/// What comes in place of part `i` where the entries with `names` are set to what `entries` holds.
pub open spec fn part_after(
    l: LayoutView,
    i: int,
    names: Seq<Seq<char>>,
    entries: Seq<(YamlTree, YamlTree)>,
) -> Option<Seq<char>> {
    if stays(l, i, names) {
        Some(l.parts[i])
    } else {
        match lookup(entries, part_key(l, i)->0) {
            Some(value) => match entry_text(l, part_key(l, i)->0, value) {
                Some(text) => Some(in_place(l, l.parts[i], text)),
                None => None,
            },
            None => None,
        }
    }
}

/// What comes in place of the first `n` parts.
pub open spec fn changed(
    l: LayoutView,
    n: int,
    names: Seq<Seq<char>>,
    entries: Seq<(YamlTree, YamlTree)>,
) -> Option<Seq<Seq<char>>>
    decreases n,
{
    if n <= 0 {
        Some(Seq::empty())
    } else {
        match (changed(l, n - 1, names, entries), part_after(l, n - 1, names, entries)) {
            (Some(before), Some(part)) => Some(before.push(part)),
            _ => None,
        }
    }
}

/// The part of a new entry.
pub open spec fn new_part(l: LayoutView, entry: (YamlTree, YamlTree)) -> Option<Seq<char>> {
    match entry.0 {
        YamlTree::Str(key) => match entry_text(l, key, entry.1) {
            Some(text) => Some(
                if l.flow {
                    " "@ + text
                } else {
                    text
                },
            ),
            None => None,
        },
        _ => None,
    }
}

/// `parts` with those of new entries behind them.
pub open spec fn with_entries(
    l: LayoutView,
    parts: Seq<Seq<char>>,
    entries: Seq<(YamlTree, YamlTree)>,
) -> Option<Seq<Seq<char>>>
    decreases entries.len(),
{
    if entries.len() == 0 {
        Some(parts)
    } else {
        match (with_entries(l, parts, entries.drop_last()), new_part(l, entries.last())) {
            (Some(before), Some(part)) => Some(before.push(part)),
            _ => None,
        }
    }
}

/// The parts of patched front matter: those that there were, but for the entries with `names`, and
/// the entries from the `n`th on.
pub open spec fn patched_parts(
    l: LayoutView,
    names: Seq<Seq<char>>,
    entries: Seq<(YamlTree, YamlTree)>,
    n: int,
) -> Option<Seq<Seq<char>>> {
    match changed(l, l.parts.len() as int, names, entries) {
        Some(parts) => with_entries(l, parts, entries.skip(n)),
        None => None,
    }
}

/// Patched front matter.
pub open spec fn spliced(
    l: LayoutView,
    names: Seq<Seq<char>>,
    entries: Seq<(YamlTree, YamlTree)>,
    n: int,
) -> Option<Seq<char>> {
    match patched_parts(l, names, entries, n) {
        Some(parts) => Some(l.with(parts)),
        None => None,
    }
}

/// Part `i` writes the entry that it adds to `entries` by itself, with a line feed behind it or
/// without.
pub open spec fn stands_alone(
    l: LayoutView,
    i: int,
    key: Seq<char>,
    entries: Seq<(YamlTree, YamlTree)>,
) -> bool {
    match lookup(entries, key) {
        Some(value) => {
            let alone = l.with(seq![l.parts[i]]);
            let entry = seq![(YamlTree::Str(key), value)];
            parse_spec(alone) == Some(entry) || parse_spec(alone.push('\n')) == Some(entry)
        },
        None => false,
    }
}

/// The keys of those of the first `n` parts that lean on others, such as on an anchor in another
/// entry.
pub open spec fn leaning(
    l: LayoutView,
    n: int,
    entries: Seq<(YamlTree, YamlTree)>,
) -> Seq<Seq<char>>
    decreases n,
{
    if n <= 0 {
        Seq::empty()
    } else {
        let before = leaning(l, n - 1, entries);
        match part_key(l, n - 1) {
            Some(key) => if stands_alone(l, n - 1, key, entries) {
                before
            } else {
                before.push(key)
            },
            None => before,
        }
    }
}

/// The characters of a text, if there is one.
pub open spec fn text_view(s: Option<String>) -> Option<Seq<char>> {
    match s {
        Some(s) => Some(s@),
        None => None,
    }
}

/// The front matter with the first `n` parts.
fn text_to(layout: &Layout, n: usize) -> (r: String)
    requires
        n <= layout.parts@.len(),
    ensures
        r@ == layout@.with(layout@.parts.take(n as int)),
{
    let sep = if layout.flow {
        ','
    } else {
        '\n'
    };
    let middle = join_parts(&layout.parts, n, sep);
    around(layout.head.as_str(), middle.as_str(), layout.tail.as_str())
}

/// The entries that the first `i` parts write.
fn read_to(layout: &Layout, i: usize) -> (r: Option<serde_yaml::Mapping>)
    requires
        i <= layout.parts@.len(),
    ensures
        match r {
            Some(m) => entries_to(layout@, i as int) == Some(mapping_entries(m)),
            None => entries_to(layout@, i as int) is None,
        },
{
    if i == 0 {
        return Some(serde_yaml::Mapping::new());
    }
    match parse_yaml(text_to(layout, i).as_str()) {
        Ok(m) => Some(m),
        Err(_) => None,
    }
}

/// The front matter, cut only where it is YAML up to there.
pub fn to_whole(layout: &Layout) -> (r: Layout)
    ensures
        r@ == whole(layout@),
{
    let ghost l = layout@;
    let sep = if layout.flow {
        ','
    } else {
        '\n'
    };
    let mut out: Vec<String> = Vec::new();
    let mut i: usize = 0;
    assert(texts(out@) =~= Seq::empty());
    while i < layout.parts.len()
        invariant
            i <= layout.parts@.len(),
            l == layout@,
            sep == l.sep(),
            texts(out@) == whole_parts(l, i as int),
            i > 0 ==> out@.len() > 0,
        decreases layout.parts@.len() - i,
    {
        let ghost before = out@;
        let part = layout.parts[i].as_str();
        assert(l.parts[i as int] == part@);
        if i == 0 || read_to(layout, i).is_some() {
            out.push(part.to_owned());
            assert(texts(out@) =~= texts(before).push(part@));
        } else {
            let mut last = out.pop().unwrap();
            let ghost start = last@;
            last.push(sep);
            last.append(part);
            out.push(last);
            assert(texts(before).last() == start);
            assert(texts(out@) =~= texts(before).drop_last().push(start.push(sep) + part@));
        }
        i += 1;
    }
    Layout {
        head: layout.head.as_str().to_owned(),
        parts: out,
        tail: layout.tail.as_str().to_owned(),
        flow: layout.flow,
        margin: layout.margin,
    }
}

/// The key of the last entry of a mapping that has one more than `before`, if that is a string.
fn added_key(before: &Option<usize>, after: Option<serde_yaml::Mapping>) -> (r: Option<String>)
    ensures
        text_view(r) == match (*before, after) {
            (Some(n), Some(after)) => if mapping_entries(after).len() == n + 1 {
                match mapping_entries(after).last().0 {
                    YamlTree::Str(key) => Some(key),
                    _ => None,
                }
            } else {
                None
            },
            _ => None,
        },
{
    match (before, after) {
        (Some(n), Some(after)) => {
            let m = after.len();
            if m == 0 || m - 1 != *n {
                return None;
            }
            let mut entries = mapping_into_entries(after);
            let (key, _) = entries.pop().unwrap();
            match open_value(key) {
                YamlNode::String(key) => Some(key),
                _ => None,
            }
        },
        _ => None,
    }
}

/// The keys of the entries that the parts add.
pub fn keys_of(layout: &Layout) -> (r: Vec<Option<String>>)
    ensures
        r@.len() == layout.parts@.len(),
        forall|i: int| 0 <= i < r@.len() ==> text_view(#[trigger] r@[i]) == part_key(layout@, i),
{
    let mut out: Vec<Option<String>> = Vec::new();
    let mut count: Option<usize> = Some(0);
    let mut i: usize = 0;
    while i < layout.parts.len()
        invariant
            i <= layout.parts@.len(),
            out@.len() == i,
            match count {
                Some(n) => entries_to(layout@, i as int) is Some && entries_to(
                    layout@,
                    i as int,
                )->0.len() == n,
                None => entries_to(layout@, i as int) is None,
            },
            forall|j: int| 0 <= j < i ==> text_view(#[trigger] out@[j]) == part_key(layout@, j),
        decreases layout.parts@.len() - i,
    {
        let after = read_to(layout, i + 1);
        let next = match &after {
            Some(m) => Some(m.len()),
            None => None,
        };
        out.push(added_key(&count, after));
        count = next;
        i += 1;
    }
    out
}

/// Whether `name` is among `names`.
fn is_among(names: &Vec<String>, name: &str) -> (r: bool)
    ensures
        r == texts(names@).contains(name@),
{
    let mut i: usize = 0;
    while i < names.len()
        invariant
            i <= names@.len(),
            forall|j: int| 0 <= j < i ==> #[trigger] texts(names@)[j] != name@,
        decreases names@.len() - i,
    {
        if same(names[i].as_str(), name) {
            assert(texts(names@)[i as int] == name@);
            return true;
        }
        i += 1;
    }
    false
}

/// `s` with `margin` blanks before each of its lines.
fn indent_lines(s: &str, margin: usize) -> (r: String)
    ensures
        r@ == indented(s@, margin as nat),
{
    let ghost blanks = Seq::new(margin as nat, |i: int| ' ');
    let mut pad = String::new();
    let mut k: usize = 0;
    assert(pad@ =~= blanks.take(0));
    while k < margin
        invariant
            k <= margin,
            blanks == Seq::new(margin as nat, |i: int| ' '),
            pad@ == blanks.take(k as int),
        decreases margin - k,
    {
        pad.push(' ');
        assert(pad@ =~= blanks.take(k + 1));
        k += 1;
    }
    assert(pad@ =~= blanks);
    let cs = chars_of(s);
    let mut out = pad.as_str().to_owned();
    let mut i: usize = 0;
    assert(cs@.take(0) =~= Seq::empty());
    while i < cs.len()
        invariant
            i <= cs@.len(),
            pad@ == Seq::new(margin as nat, |i: int| ' '),
            out@ == indented(cs@.take(i as int), margin as nat),
        decreases cs@.len() - i,
    {
        assert(cs@.take(i + 1).drop_last() =~= cs@.take(i as int));
        out.push(cs[i]);
        if cs[i] == '\n' {
            out.append(pad.as_str());
        }
        i += 1;
    }
    assert(cs@.take(i as int) =~= cs@);
    out
}

/// A mapping with one entry.
fn one_entry(key: String, value: serde_yaml::Value) -> (r: serde_yaml::Mapping)
    ensures
        mapping_entries(r) == seq![(YamlTree::Str(key@), value_tree(value))],
{
    let mut mapping = serde_yaml::Mapping::new();
    proof {
        lemma_position(mapping_entries(mapping), key@);
    }
    let ghost entry = (YamlTree::Str(key@), value_tree(value));
    mapping_insert(&mut mapping, key, value);
    assert(mapping_entries(mapping) =~= seq![entry]);
    mapping
}

/// The text of an entry.
fn write_entry(layout: &Layout, key: String, value: serde_yaml::Value) -> (r: Option<String>)
    ensures
        text_view(r) == entry_text(layout@, key@, value_tree(value)),
{
    if layout.flow {
        let name = to_text(Json::String(key));
        let held = to_text(yaml_to_json(yaml_of(value)));
        return Some(around(name.as_str(), ": ", held.as_str()));
    }
    match dump_mapping(&one_entry(key, value)) {
        Ok(lines) => Some(indent_lines(drop_line_feed(lines).as_str(), layout.margin)),
        Err(_) => None,
    }
}

/// `text` in place of a part.
fn put_in_place(layout: &Layout, part: &str, text: String) -> (r: String)
    ensures
        r@ == in_place(layout@, part@, text@),
{
    if !layout.flow {
        return text;
    }
    let cs = chars_of(part);
    let n = cs.len();
    let mut a: usize = 0;
    while a < n && white(cs[a])
        invariant
            a <= n == cs@.len(),
            white_end(cs@, a as int) == white_end(cs@, 0),
        decreases n - a,
    {
        a += 1;
    }
    let mut b: usize = n;
    while b > 0 && white(cs[b - 1])
        invariant
            b <= n == cs@.len(),
            white_start(cs@, b as int) == white_start(cs@, n as int),
        decreases b,
    {
        b -= 1;
    }
    let lead = string_of(&cs, 0, a);
    let trail = string_of(&cs, b, n);
    assert(lead@ =~= part@.take(a as int));
    assert(trail@ =~= part@.skip(b as int));
    around(lead.as_str(), text.as_str(), trail.as_str())
}

/// What comes in place of part `i`, whose key is `key`.
fn change_part(
    layout: &Layout,
    i: usize,
    key: &Option<String>,
    names: &Vec<String>,
    mapping: &serde_yaml::Mapping,
) -> (r: Option<String>)
    requires
        i < layout.parts@.len(),
        text_view(*key) == part_key(layout@, i as int),
    ensures
        text_view(r) == part_after(layout@, i as int, texts(names@), mapping_entries(*mapping)),
{
    let part = layout.parts[i].as_str();
    assert(layout@.parts[i as int] == part@);
    match key {
        Some(key) => if is_among(names, key.as_str()) {
            match mapping_get(mapping, key.as_str()) {
                Some(value) => match write_entry(layout, key.as_str().to_owned(), value) {
                    Some(text) => Some(put_in_place(layout, part, text)),
                    None => None,
                },
                None => None,
            }
        } else {
            Some(part.to_owned())
        },
        None => Some(part.to_owned()),
    }
}

/// The part of a new entry.
fn add_part(layout: &Layout, key: serde_yaml::Value, value: serde_yaml::Value) -> (r: Option<
    String,
>)
    ensures
        text_view(r) == new_part(layout@, (value_tree(key), value_tree(value))),
{
    match open_value(key) {
        YamlNode::String(key) => match write_entry(layout, key, value) {
            Some(text) => if layout.flow {
                let part = around(" ", text.as_str(), "");
                proof {
                    reveal_strlit("");
                    assert(part@ =~= " "@ + text@);
                }
                Some(part)
            } else {
                Some(text)
            },
            None => None,
        },
        _ => None,
    }
}

/// What comes in place of the parts, whose keys are `keys`.
fn change_parts(
    layout: &Layout,
    keys: &Vec<Option<String>>,
    names: &Vec<String>,
    mapping: &serde_yaml::Mapping,
) -> (r: Option<Vec<String>>)
    requires
        keys@.len() == layout.parts@.len(),
        forall|i: int|
            0 <= i < keys@.len() ==> text_view(#[trigger] keys@[i]) == part_key(layout@, i),
    ensures
        ({
            let all = changed(
                layout@,
                layout@.parts.len() as int,
                texts(names@),
                mapping_entries(*mapping),
            );
            match r {
                Some(parts) => all == Some(texts(parts@)),
                None => all is None,
            }
        }),
{
    let ghost l = layout@;
    let ghost ns = texts(names@);
    let ghost all = mapping_entries(*mapping);
    let mut parts: Vec<String> = Vec::new();
    let mut i: usize = 0;
    assert(texts(parts@) =~= Seq::empty());
    while i < layout.parts.len()
        invariant
            i <= layout.parts@.len(),
            l == layout@,
            ns == texts(names@),
            all == mapping_entries(*mapping),
            keys@.len() == layout.parts@.len(),
            forall|j: int|
                0 <= j < keys@.len() ==> text_view(#[trigger] keys@[j]) == part_key(layout@, j),
            changed(l, i as int, ns, all) == Some(texts(parts@)),
        decreases layout.parts@.len() - i,
    {
        let ghost before = parts@;
        match change_part(layout, i, &keys[i], names, mapping) {
            Some(after) => {
                parts.push(after);
                assert(texts(parts@) =~= texts(before).push(after@));
            },
            None => {
                proof {
                    lemma_changed_none(l, i + 1, layout.parts@.len() as int, ns, all);
                }
                return None;
            },
        }
        i += 1;
    }
    Some(parts)
}

/// Patched front matter: the entries with `names` as `mapping` has them, and those from the `n`th
/// on. The keys of the parts are `keys`.
pub fn splice(
    layout: &Layout,
    keys: &Vec<Option<String>>,
    names: &Vec<String>,
    mapping: &serde_yaml::Mapping,
    n: usize,
) -> (r: Option<String>)
    requires
        n <= mapping_entries(*mapping).len(),
        keys@.len() == layout.parts@.len(),
        forall|i: int|
            0 <= i < keys@.len() ==> text_view(#[trigger] keys@[i]) == part_key(layout@, i),
    ensures
        text_view(r) == spliced(layout@, texts(names@), mapping_entries(*mapping), n as int),
{
    let ghost l = layout@;
    let ghost all = mapping_entries(*mapping);
    let mut parts = match change_parts(layout, keys, names, mapping) {
        Some(parts) => parts,
        None => {
            return None;
        },
    };
    let ghost kept = texts(parts@);
    let ghost new = all.skip(n as int);
    let entries = mapping_into_entries(mapping.clone());
    let total = entries.len();
    let ghost pairs = entries@;
    let mut k: usize = 0;
    assert(new.take(0) =~= Seq::empty());
    #[verifier::loop_isolation(false)]
    for entry in it: entries
        invariant
            it.seq() == pairs,
            k == it.index(),
            k <= n ==> texts(parts@) == kept,
            k >= n ==> with_entries(l, kept, new.take(k - n)) == Some(texts(parts@)),
    {
        let (key, value) = entry;
        let ghost before = parts@;
        proof {
            assert(k < pairs.len() == total);
            assert(all[k as int] == (value_tree(pairs[k as int].0), value_tree(pairs[k as int].1)));
        }
        if k >= n {
            proof {
                assert(new[k - n] == all[k as int]);
                assert(new.take(k - n + 1).drop_last() =~= new.take(k - n));
                assert(new.take(k - n + 1).last() == all[k as int]);
            }
            match add_part(layout, key, value) {
                Some(part) => {
                    parts.push(part);
                    assert(texts(parts@) =~= texts(before).push(part@));
                },
                None => {
                    proof {
                        lemma_with_entries_none(l, kept, new, k - n + 1);
                    }
                    return None;
                },
            }
        }
        k += 1;
    }
    assert(new.take(new.len() as int) =~= new);
    let sep = if layout.flow {
        ','
    } else {
        '\n'
    };
    let middle = join_parts(&parts, parts.len(), sep);
    assert(texts(parts@).take(parts@.len() as int) =~= texts(parts@));
    Some(around(layout.head.as_str(), middle.as_str(), layout.tail.as_str()))
}

/// Whether front matter writes one entry alone.
fn writes_entry(front: &str, entry: &serde_yaml::Mapping) -> (r: bool)
    ensures
        r == (parse_spec(front@) == Some(mapping_entries(*entry))),
{
    match parse_yaml(front) {
        Ok(found) => same_mapping(found, entry),
        Err(_) => false,
    }
}

/// Whether part `i` writes the entry that it adds to those of `mapping` by itself.
fn is_alone(layout: &Layout, i: usize, key: &str, mapping: &serde_yaml::Mapping) -> (r: bool)
    requires
        i < layout.parts@.len(),
    ensures
        r == stands_alone(layout@, i as int, key@, mapping_entries(*mapping)),
{
    let value = match mapping_get(mapping, key) {
        Some(value) => value,
        None => {
            return false;
        },
    };
    let entry = one_entry(key.to_owned(), value);
    let part = layout.parts[i].as_str();
    let mut alone = around(layout.head.as_str(), part, layout.tail.as_str());
    proof {
        let one = seq![layout@.parts[i as int]];
        assert(joined(one, layout@.sep()) == layout@.parts[i as int]);
        assert(alone@ =~= layout@.with(one));
    }
    if writes_entry(alone.as_str(), &entry) {
        return true;
    }
    alone.push('\n');
    writes_entry(alone.as_str(), &entry)
}

/// The keys of the parts that lean on others. The keys of all parts are `keys`.
pub fn find_leaning(
    layout: &Layout,
    keys: &Vec<Option<String>>,
    mapping: &serde_yaml::Mapping,
) -> (r: Vec<String>)
    requires
        keys@.len() == layout.parts@.len(),
        forall|i: int|
            0 <= i < keys@.len() ==> text_view(#[trigger] keys@[i]) == part_key(layout@, i),
    ensures
        texts(r@) == leaning(layout@, layout@.parts.len() as int, mapping_entries(*mapping)),
{
    let ghost all = mapping_entries(*mapping);
    let mut out: Vec<String> = Vec::new();
    let mut i: usize = 0;
    assert(texts(out@) =~= Seq::empty());
    while i < layout.parts.len()
        invariant
            i <= layout.parts@.len(),
            all == mapping_entries(*mapping),
            keys@.len() == layout.parts@.len(),
            forall|j: int|
                0 <= j < keys@.len() ==> text_view(#[trigger] keys@[j]) == part_key(layout@, j),
            texts(out@) == leaning(layout@, i as int, all),
        decreases layout.parts@.len() - i,
    {
        assert(text_view(keys@[i as int]) == part_key(layout@, i as int));
        if let Some(key) = &keys[i] {
            if !is_alone(layout, i, key.as_str(), mapping) {
                let ghost before = out@;
                out.push(key.as_str().to_owned());
                assert(texts(out@) =~= texts(before).push(key@));
            }
        }
        i += 1;
    }
    out
}

proof fn lemma_changed_none(
    l: LayoutView,
    i: int,
    n: int,
    names: Seq<Seq<char>>,
    entries: Seq<(YamlTree, YamlTree)>,
)
    requires
        0 <= i <= n,
        changed(l, i, names, entries) is None,
    ensures
        changed(l, n, names, entries) is None,
    decreases n - i,
{
    if i < n {
        lemma_changed_none(l, i + 1, n, names, entries);
    }
}

proof fn lemma_with_entries_none(
    l: LayoutView,
    parts: Seq<Seq<char>>,
    entries: Seq<(YamlTree, YamlTree)>,
    n: int,
)
    requires
        0 <= n <= entries.len(),
        with_entries(l, parts, entries.take(n)) is None,
    ensures
        with_entries(l, parts, entries) is None,
    decreases entries.len() - n,
{
    if n == entries.len() {
        assert(entries.take(n) =~= entries);
    } else {
        assert(entries.take(n + 1).drop_last() =~= entries.take(n));
        lemma_with_entries_none(l, parts, entries, n + 1);
    }
}

proof fn lemma_changed(
    l: LayoutView,
    n: int,
    names: Seq<Seq<char>>,
    entries: Seq<(YamlTree, YamlTree)>,
)
    requires
        0 <= n,
        changed(l, n, names, entries) is Some,
    ensures
        changed(l, n, names, entries)->0.len() == n,
        forall|i: int|
            0 <= i < n && #[trigger] stays(l, i, names) ==> changed(l, n, names, entries)->0[i]
                == l.parts[i],
    decreases n,
{
    if n > 0 {
        lemma_changed(l, n - 1, names, entries);
    }
}

proof fn lemma_with_entries(
    l: LayoutView,
    parts: Seq<Seq<char>>,
    entries: Seq<(YamlTree, YamlTree)>,
)
    requires
        with_entries(l, parts, entries) is Some,
    ensures
        with_entries(l, parts, entries)->0.len() == parts.len() + entries.len(),
        with_entries(l, parts, entries)->0.take(parts.len() as int) == parts,
    decreases entries.len(),
{
    if entries.len() > 0 {
        lemma_with_entries(l, parts, entries.drop_last());
        let before = with_entries(l, parts, entries.drop_last())->0;
        let after = with_entries(l, parts, entries)->0;
        assert(after.take(parts.len() as int) =~= before.take(parts.len() as int));
    } else {
        assert(parts.take(parts.len() as int) =~= parts);
    }
}

proof fn lemma_whole_parts(l: LayoutView, n: int)
    requires
        0 <= n <= l.parts.len(),
    ensures
        n > 0 ==> whole_parts(l, n).len() > 0,
        joined(whole_parts(l, n), l.sep()) == joined(l.parts.take(n), l.sep()),
    decreases n,
{
    if n > 0 {
        lemma_whole_parts(l, n - 1);
        let sep = l.sep();
        let before = whole_parts(l, n - 1);
        let after = whole_parts(l, n);
        assert(l.parts.take(n).drop_last() =~= l.parts.take(n - 1));
        assert(l.parts.take(n).last() == l.parts[n - 1]);
        if n == 1 {
            assert(after =~= seq![l.parts[0]]);
        } else if entries_to(l, n - 1) is Some {
            assert(after.drop_last() =~= before);
        } else {
            assert(after.drop_last() =~= before.drop_last());
            assert(joined(after, sep) =~= joined(before, sep).push(sep) + l.parts[n - 1]);
        }
    } else {
        assert(l.parts.take(0) =~= Seq::empty());
    }
}

/// Front matter is the same where it is cut only where it is YAML up to there.
pub proof fn whole_parts_make_up_the_same(l: LayoutView)
    ensures
        whole(l).text() == l.text(),
{
    lemma_whole_parts(l, l.parts.len() as int);
    assert(l.parts.take(l.parts.len() as int) =~= l.parts);
    assert(whole(l).sep() == l.sep());
}

/// The parts of entries that are not set stay as they are, in their places. What is new comes
/// behind all of them.
pub proof fn other_parts_stay(
    l: LayoutView,
    names: Seq<Seq<char>>,
    entries: Seq<(YamlTree, YamlTree)>,
    n: int,
)
    requires
        0 <= n <= entries.len(),
        spliced(l, names, entries, n) is Some,
    ensures
        ({
            let after = patched_parts(l, names, entries, n)->0;
            &&& l.with(after) == spliced(l, names, entries, n)->0
            &&& after.len() == l.parts.len() + entries.len() - n
            &&& forall|i: int|
                0 <= i < l.parts.len() && #[trigger] stays(l, i, names) ==> after[i] == l.parts[i]
        }),
{
    let m = l.parts.len() as int;
    lemma_changed(l, m, names, entries);
    let kept = changed(l, m, names, entries)->0;
    lemma_with_entries(l, kept, entries.skip(n));
    let after = patched_parts(l, names, entries, n)->0;
    assert forall|i: int| 0 <= i < m && #[trigger] stays(l, i, names) implies after[i]
        == l.parts[i] by {
        assert(after.take(kept.len() as int)[i] == kept[i]);
    }
}

/// Where nothing is set, front matter stays as it is.
pub proof fn nothing_set_changes_nothing(l: LayoutView, entries: Seq<(YamlTree, YamlTree)>)
    ensures
        spliced(l, Seq::empty(), entries, entries.len() as int) == Some(l.text()),
{
    let m = l.parts.len() as int;
    lemma_unchanged(l, m, entries);
    assert(l.parts.take(m) =~= l.parts);
    assert(entries.skip(entries.len() as int) =~= Seq::empty());
}

proof fn lemma_unchanged(l: LayoutView, n: int, entries: Seq<(YamlTree, YamlTree)>)
    requires
        0 <= n <= l.parts.len(),
    ensures
        changed(l, n, Seq::empty(), entries) == Some(l.parts.take(n)),
    decreases n,
{
    if n > 0 {
        lemma_unchanged(l, n - 1, entries);
        assert(l.parts.take(n) =~= l.parts.take(n - 1).push(l.parts[n - 1]));
        assert(stays(l, n - 1, Seq::empty()));
    } else {
        assert(l.parts.take(0) =~= Seq::empty());
    }
}

/// A part changes exactly where it adds one entry to those of the parts before it, and that entry is
/// set. Comments, blank lines and the entries that are not set stay.
pub proof fn only_parts_of_set_entries_change(l: LayoutView, i: int, names: Seq<Seq<char>>)
    requires
        0 <= i < l.parts.len(),
    ensures
        !stays(l, i, names) <==> ({
            let before = if i == 0 {
                Some(Seq::<(YamlTree, YamlTree)>::empty())
            } else {
                parse_spec(l.with(l.parts.take(i)))
            };
            let after = parse_spec(l.with(l.parts.take(i + 1)));
            &&& before is Some
            &&& after is Some
            &&& after->0.len() == before->0.len() + 1
            &&& exists|k: int|
                0 <= k < names.len() && after->0.last().0 == YamlTree::Str(#[trigger] names[k])
        }),
{
    if !stays(l, i, names) {
        let key = part_key(l, i)->0;
        let k = choose|k: int| 0 <= k < names.len() && names[k] == key;
        assert(names[k] == key);
    }
}

/// The text of an entry is what `serde_yaml` writes for it, without the last line feed, and between
/// braces it is JSON. It takes the place of the part of its key, and new entries come last.
pub proof fn entries_are_written_in_place(
    l: LayoutView,
    i: int,
    names: Seq<Seq<char>>,
    entries: Seq<(YamlTree, YamlTree)>,
    key: Seq<char>,
    value: YamlTree,
)
    requires
        0 <= i < l.parts.len(),
    ensures
        l.flow ==> entry_text(l, key, value) == Some(
            json_text(JsonTree::Str(key)) + ": "@ + json_text(yaml_to_json_spec(value)),
        ),
        !l.flow && l.margin == 0 ==> entry_text(l, key, value) == match dump_lines(
            seq![(YamlTree::Str(key), value)],
        ) {
            Some(lines) => Some(unended(lines)),
            None => None,
        },
        stays(l, i, names) ==> part_after(l, i, names, entries) == Some(l.parts[i]),
        !stays(l, i, names) && !l.flow && part_key(l, i) == Some(key) && lookup(entries, key) == Some(
            value,
        ) ==> part_after(l, i, names, entries) == entry_text(l, key, value),
        !l.flow ==> new_part(l, (YamlTree::Str(key), value)) == entry_text(l, key, value),
{
    if !l.flow && l.margin == 0 {
        if let Some(lines) = dump_lines(seq![(YamlTree::Str(key), value)]) {
            lemma_not_indented(unended(lines));
        }
    }
}

proof fn lemma_not_indented(s: Seq<char>)
    ensures
        indented(s, 0) == s,
    decreases s.len(),
{
    if s.len() > 0 {
        lemma_not_indented(s.drop_last());
        assert(s.drop_last().push(s.last()) =~= s);
        assert(indented(s, 0) =~= s);
    } else {
        assert(indented(s, 0) =~= s);
    }
}

/// Each part of front matter that is YAML up to it is a part by itself.
pub proof fn yaml_is_cut_at_each_part(l: LayoutView, n: int)
    requires
        0 < n < l.parts.len(),
    ensures
        parse_spec(l.with(l.parts.take(n))) is Some ==> whole_parts(l, n + 1) == whole_parts(l, n).push(
            l.parts[n],
        ),
        whole_parts(l, 1) == seq![l.parts[0]],
        whole(l).parts == whole_parts(l, l.parts.len() as int),
        whole(l).head == l.head && whole(l).tail == l.tail && whole(l).flow == l.flow,
{
    assert(whole_parts(l, 1) =~= seq![l.parts[0]]) by {
        assert(whole_parts(l, 0) == Seq::<Seq<char>>::empty());
    }
}

} // verus!
