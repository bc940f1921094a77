//! Reading and patching the front matter of a document.

use vstd::prelude::*;

use crate::classify::{annotate, annotate_spec};
use crate::clock::{now_str, stamp};
use crate::convert::{
    entries_to_json, json_to_yaml, lemma_members_to_yaml, members_to_yaml, yaml_to_json,
    yaml_to_json_spec,
};
use crate::document::{
    replace_front, replace_spec, replaced_has_front_matter, split, split_of_replaced, split_spec,
};
use crate::entries::{distinct_keys, lookup, patch, patch_keeps_key_order, put};
use crate::error::{MetaError, MetaFault};
use crate::flow::{flow_layout, to_flow};
use crate::frontmatter::{
    document_entries, dump_lines, dump_mapping, parse_document, same_mapping,
};
use crate::layout::{block_layout, texts, to_block, Layout, LayoutView};
use crate::semver::{bump_overflows, bump_semver, bump_spec, bump_would_overflow};
use crate::splice::{
    find_leaning, keys_of, leaning, part_key, splice, spliced, text_view, to_whole, whole,
};
use crate::text::{all_space, is_all_space, same, trim_line_feeds, trimmed};
use crate::value::{
    entry_trees, lemma_push_drop, member_map, member_trees, push_member, Json, JsonTree, Yaml,
    YamlTree,
};
use crate::yaml::{
    close_value, mapping_entries, mapping_get, mapping_insert, mapping_into_entries, open_value,
    plain_mapping, yaml_of, YamlNode,
};

verus! {

/// The value of `key`, which is null where there is none.
pub open spec fn value_or_null(entries: Seq<(YamlTree, YamlTree)>, key: Seq<char>) -> YamlTree {
    match lookup(entries, key) {
        Some(value) => value,
        None => YamlTree::Null,
    }
}

/// What is read of a document: the value of one key, or all entries. Nothing is read of front
/// matter that is no YAML.
pub open spec fn read_spec(text: Seq<char>, key: Option<Seq<char>>) -> Option<JsonTree> {
    match document_entries(text) {
        Some(entries) => Some(
            match key {
                Some(key) => yaml_to_json_spec(value_or_null(entries, key)),
                None => JsonTree::Object(entries_to_json(entries)),
            },
        ),
        None => None,
    }
}

/// The entries whose key is a string, each value with its type.
pub open spec fn entries_typed(entries: Seq<(YamlTree, YamlTree)>) -> Map<Seq<char>, JsonTree>
    decreases entries.len(),
{
    if entries.len() == 0 {
        Map::empty()
    } else {
        let before = entries_typed(entries.drop_last());
        match entries.last().0 {
            YamlTree::Str(key) => before.insert(key, annotate_spec(entries.last().1)),
            _ => before,
        }
    }
}

/// What is read of a document, each value with its type.
pub open spec fn read_typed_spec(text: Seq<char>, key: Option<Seq<char>>) -> Option<JsonTree> {
    match document_entries(text) {
        Some(entries) => Some(
            match key {
                Some(key) => annotate_spec(value_or_null(entries, key)),
                None => JsonTree::Object(entries_typed(entries)),
            },
        ),
        None => None,
    }
}

/// `key`, if it is given.
pub open spec fn key_view(key: Option<&str>) -> Option<Seq<char>> {
    match key {
        Some(key) => Some(key@),
        None => None,
    }
}

/// The value of `key`, which is null where there is none.
fn get_or_null(mapping: &serde_yaml::Mapping, key: &str) -> (r: Yaml)
    ensures
        r@ == value_or_null(mapping_entries(*mapping), key@),
{
    match mapping_get(mapping, key) {
        Some(value) => yaml_of(value),
        None => Yaml::Null,
    }
}

/// The front matter of the document `text` as JSON: all of it as an object, or the value of
/// `key`, which is null where there is no such key. No key stands in it twice.
pub fn read_meta(text: &str, key: Option<&str>) -> (r: Result<Json, MetaError>)
    ensures
        match r {
            Ok(v) => read_spec(text@, key_view(key)) == Some(v@) && distinct_keys(
                document_entries(text@)->0,
            ),
            Err(e) => read_spec(text@, key_view(key)) is None && e@ == MetaFault::InvalidYaml,
        },
{
    let (mapping, _) = match parse_document(text) {
        Ok(parsed) => parsed,
        Err(e) => {
            return Err(e);
        },
    };
    Ok(
        match key {
            Some(key) => yaml_to_json(get_or_null(&mapping, key)),
            None => yaml_to_json(yaml_of(close_value(YamlNode::Mapping(mapping)))),
        },
    )
}

/// The entries whose key is a string, each value with its type.
fn annotate_entries(entries: Vec<(Yaml, Yaml)>) -> (r: Vec<(String, Json)>)
    ensures
        member_map(member_trees(r@)) == entries_typed(entry_trees(entries@)),
{
    broadcast use lemma_push_drop;

    let mut out: Vec<(String, Json)> = Vec::new();
    let ghost all = entries@;
    #[verifier::loop_isolation(false)]
    for entry in it: entries
        invariant
            it.seq() == all,
            member_map(member_trees(out@)) == entries_typed(entry_trees(all.take(it.index() as int))),
    {
        let ghost k = it.index() as int;
        assert(all.take(k + 1).drop_last() =~= all.take(k));
        match entry {
            (Yaml::String(key), value) => {
                push_member(&mut out, key.as_str(), annotate(value));
            },
            (key, _) => {
                assert(!(key@ is Str));
            },
        }
    }
    assert(all.take(all.len() as int) =~= all);
    out
}

/// As [`read_meta`], but each value is wrapped together with its type and, for a sequence, the
/// type of its items.
pub fn read_meta_typed(text: &str, key: Option<&str>) -> (r: Result<Json, MetaError>)
    ensures
        match r {
            Ok(v) => read_typed_spec(text@, key_view(key)) == Some(v@) && distinct_keys(
                document_entries(text@)->0,
            ),
            Err(e) => read_typed_spec(text@, key_view(key)) is None && e@ == MetaFault::InvalidYaml,
        },
{
    let (mapping, _) = match parse_document(text) {
        Ok(parsed) => parsed,
        Err(e) => {
            return Err(e);
        },
    };
    Ok(
        match key {
            Some(key) => annotate(get_or_null(&mapping, key)),
            None => match yaml_of(close_value(YamlNode::Mapping(mapping))) {
                Yaml::Mapping(entries) => Json::Object(annotate_entries(entries)),
                _ => Json::Null,
            },
        },
    )
}

/// The updates of a write: those that are given, and the time if it is set too.
pub open spec fn updates_of(
    updates: Seq<(String, Json)>,
    now: Option<Seq<char>>,
) -> Seq<(Seq<char>, YamlTree)> {
    match now {
        Some(now) => members_to_yaml(updates).push(("updated"@, YamlTree::Str(now))),
        None => members_to_yaml(updates),
    }
}

/// The entries of the document after `updates`.
pub open spec fn patched(
    text: Seq<char>,
    updates: Seq<(Seq<char>, YamlTree)>,
) -> Seq<(YamlTree, YamlTree)> {
    patch(document_entries(text)->0, updates)
}

/// The keys that `updates` set.
pub open spec fn names_of(updates: Seq<(Seq<char>, YamlTree)>) -> Seq<Seq<char>> {
    updates.map_values(|u: (Seq<char>, YamlTree)| u.0)
}

/// `written` has these entries, and the body of `text`.
pub open spec fn reads(
    written: Seq<char>,
    text: Seq<char>,
    entries: Seq<(YamlTree, YamlTree)>,
) -> bool {
    document_entries(written) == Some(entries) && split_spec(written).1 == split_spec(text).1
}

/// The key of the last of `entries`, if that is a string.
pub open spec fn last_name(entries: Seq<(YamlTree, YamlTree)>) -> Seq<Seq<char>> {
    if entries.len() > 0 {
        match entries.last().0 {
            YamlTree::Str(key) => seq![key],
            _ => Seq::empty(),
        }
    } else {
        Seq::empty()
    }
}

/// The parts into which the attempt `k` to patch front matter part by part cuts it: at its lines,
/// and in the last two attempts at the commas between its braces.
pub open spec fn layout_in(front: Seq<char>, k: int) -> Option<LayoutView> {
    if k < 8 {
        Some(whole(block_layout(front)))
    } else {
        match flow_layout(front) {
            Some(l) => Some(whole(l)),
            None => None,
        }
    }
}

/// The keys of the entries of a document that lean on others in the attempt `k`.
pub open spec fn leaning_in(text: Seq<char>, k: int) -> Seq<Seq<char>> {
    match layout_in(split_spec(text).0->0, k) {
        Some(l) => leaning(l, l.parts.len() as int, document_entries(text)->0),
        None => Seq::empty(),
    }
}

/// The entries whose parts are written in the attempt `k`: those that `updates` set, and in later
/// attempts also the last that there was, for a text block in it reads as another string once lines
/// follow it, or those that lean on others, or both.
pub open spec fn names_in(
    text: Seq<char>,
    updates: Seq<(Seq<char>, YamlTree)>,
    k: int,
) -> Seq<Seq<char>> {
    let given = names_of(updates);
    let last = last_name(document_entries(text)->0);
    if k < 2 || k == 8 {
        given
    } else if k < 4 {
        given + last
    } else if k < 6 || k == 9 {
        given + leaning_in(text, k)
    } else {
        given + last + leaning_in(text, k)
    }
}

/// What stands behind the last line of the front matter in the attempt `k`: a line feed in every
/// second attempt at the lines. A text block at the end may need it to read as the string that was meant.
pub open spec fn tail_in(k: int) -> Seq<char> {
    if k < 8 && k % 2 == 1 {
        seq!['\n']
    } else {
        Seq::empty()
    }
}

/// The document that the attempt `k` to patch it part by part gives. White space alone is no front
/// matter to patch.
pub open spec fn attempt(
    text: Seq<char>,
    updates: Seq<(Seq<char>, YamlTree)>,
    k: int,
) -> Option<Seq<char>> {
    match split_spec(text).0 {
        Some(front) => match layout_in(front, k) {
            Some(l) => if all_space(front) {
                None
            } else {
                match spliced(
                    l,
                    names_in(text, updates, k),
                    patched(text, updates),
                    document_entries(text)->0.len() as int,
                ) {
                    Some(patched_front) => Some(replace_spec(text, patched_front + tail_in(k))),
                    None => None,
                }
            },
            None => None,
        },
        None => None,
    }
}

/// The attempt `k` gives a document that reads as it should.
pub open spec fn fits(text: Seq<char>, updates: Seq<(Seq<char>, YamlTree)>, k: int) -> bool {
    match attempt(text, updates, k) {
        Some(written) => reads(written, text, patched(text, updates)),
        None => false,
    }
}

/// The first attempt from `k` on that fits.
pub open spec fn fit_from(
    text: Seq<char>,
    updates: Seq<(Seq<char>, YamlTree)>,
    k: int,
) -> Option<int>
    decreases 10 - k,
{
    if k >= 10 {
        None
    } else if fits(text, updates, k) {
        Some(k)
    } else {
        fit_from(text, updates, k + 1)
    }
}

/// The first of ten attempts that fits.
pub open spec fn first_fit(text: Seq<char>, updates: Seq<(Seq<char>, YamlTree)>) -> Option<int> {
    fit_from(text, updates, 0)
}

/// The document can be patched part by part: a document that keeps the parts of other entries reads
/// as it should.
pub open spec fn parts_can_stay(text: Seq<char>, updates: Seq<(Seq<char>, YamlTree)>) -> bool {
    first_fit(text, updates) is Some
}

/// The document after `updates`. Its separator lines and its body are those that it had. Its front
/// matter is patched part by part, unless it would then not read as the patched entries; in that
/// case it is written anew. A line feed stands at its end only where it does not read as those
/// entries without.
pub open spec fn write_spec(
    text: Seq<char>,
    updates: Seq<(Seq<char>, YamlTree)>,
) -> Result<Seq<char>, MetaFault> {
    match document_entries(text) {
        Some(_) => match first_fit(text, updates) {
            Some(k) => Ok(attempt(text, updates, k)->0),
            None => match dump_lines(patched(text, updates)) {
                Some(lines) => {
                    let short = replace_spec(text, trimmed(lines));
                    let full = replace_spec(text, lines);
                    if !reads(short, text, patched(text, updates)) && reads(
                        full,
                        text,
                        patched(text, updates),
                    ) {
                        Ok(full)
                    } else {
                        Ok(short)
                    }
                },
                None => Err(MetaFault::Unserializable),
            },
        },
        None => Err(MetaFault::InvalidYaml),
    }
}

/// The front matter that is written anew reads as the patched entries, with line feeds at its end
/// or without.
pub open spec fn anew_reads(text: Seq<char>, updates: Seq<(Seq<char>, YamlTree)>) -> bool {
    match dump_lines(patched(text, updates)) {
        Some(lines) => {
            ||| reads(replace_spec(text, trimmed(lines)), text, patched(text, updates))
            ||| reads(replace_spec(text, lines), text, patched(text, updates))
        },
        None => false,
    }
}

/// What is written can be read back: the patched entries are plain, or the document can be patched
/// part by part, or it reads as it should where it is written anew.
pub open spec fn reads_back(text: Seq<char>, updates: Seq<(Seq<char>, YamlTree)>) -> bool {
    plain_mapping(patched(text, updates)) || parts_can_stay(text, updates) || anew_reads(
        text,
        updates,
    )
}

/// `written` has the body of `text`, and where that can be read back it has the patched entries.
pub open spec fn patches(
    text: Seq<char>,
    updates: Seq<(Seq<char>, YamlTree)>,
    written: Seq<char>,
) -> bool {
    &&& split_spec(written).0 is Some
    &&& split_spec(written).1 == split_spec(text).1
    &&& reads_back(text, updates) ==> document_entries(written) == Some(patched(text, updates))
    &&& first_fit(text, updates) matches Some(k) ==> attempt(text, updates, k) == Some(written)
}

/// What a write of `updates` to `text` gives. It succeeds where the front matter is YAML and what
/// is written can be read back.
pub open spec fn write_gives(
    text: Seq<char>,
    updates: Seq<(Seq<char>, YamlTree)>,
    r: Result<String, MetaError>,
) -> bool {
    match r {
        Ok(written) => {
            &&& write_spec(text, updates) == Ok::<Seq<char>, MetaFault>(written@)
            &&& patches(text, updates, written@)
        },
        Err(e) => {
            &&& write_spec(text, updates) == Err::<Seq<char>, MetaFault>(e@)
            &&& document_entries(text) is Some ==> !reads_back(text, updates)
        },
    }
}

/// Whether a document has the entries of `mapping` and the body `body`.
fn has_read(written: &str, mapping: &serde_yaml::Mapping, body: &str) -> (r: bool)
    ensures
        r == (document_entries(written@) == Some(mapping_entries(*mapping)) && split_spec(
            written@,
        ).1 == body@),
{
    match parse_document(written) {
        Ok((found, rest)) => same_mapping(found, mapping) && same(rest.as_str(), body),
        Err(_) => false,
    }
}

/// The key of the last entry of a mapping, if that is a string.
fn last_key(mapping: &serde_yaml::Mapping) -> (r: Vec<String>)
    ensures
        texts(r@) == last_name(mapping_entries(*mapping)),
{
    let mut out: Vec<String> = Vec::new();
    let mut entries = mapping_into_entries(mapping.clone());
    if let Some((key, _)) = entries.pop() {
        if let YamlNode::String(key) = open_value(key) {
            out.push(key);
        }
    }
    assert(texts(out@) =~= last_name(mapping_entries(*mapping)));
    out
}

/// The names of `a`, and behind them those of `b`.
fn both(a: &Vec<String>, b: &Vec<String>) -> (r: Vec<String>)
    ensures
        texts(r@) == texts(a@) + texts(b@),
{
    let mut out: Vec<String> = Vec::new();
    let mut i: usize = 0;
    let ghost all = texts(a@) + texts(b@);
    while i < a.len()
        invariant
            i <= a@.len(),
            all == texts(a@) + texts(b@),
            texts(out@) == all.take(i as int),
        decreases a@.len() - i,
    {
        let ghost before = out@;
        out.push(a[i].as_str().to_owned());
        assert(texts(out@) =~= texts(before).push(a@[i as int]@));
        assert(all.take(i + 1) =~= all.take(i as int).push(a@[i as int]@));
        i += 1;
    }
    let mut j: usize = 0;
    while j < b.len()
        invariant
            j <= b@.len(),
            all == texts(a@) + texts(b@),
            texts(out@) == all.take(a@.len() + j),
        decreases b@.len() - j,
    {
        let ghost before = out@;
        out.push(b[j].as_str().to_owned());
        assert(texts(out@) =~= texts(before).push(b@[j as int]@));
        assert(all.take(a@.len() + j + 1) =~= all.take(a@.len() + j).push(b@[j as int]@));
        j += 1;
    }
    assert(all.take(a@.len() + j) =~= all);
    out
}

/// The attempt `k` to patch a document part by part: the document that it gives, if that reads as
/// it should. The parts of the entries with `names` are written, `n` entries were there before, and
/// `end_line` asks for a line feed at the end.
fn make_attempt(
    text: &str,
    body: &str,
    layout: &Layout,
    keys: &Vec<Option<String>>,
    names: &Vec<String>,
    mapping: &serde_yaml::Mapping,
    n: usize,
    end_line: bool,
    Ghost(updates): Ghost<Seq<(Seq<char>, YamlTree)>>,
    Ghost(k): Ghost<int>,
) -> (r: Option<String>)
    requires
        document_entries(text@) is Some,
        split_spec(text@).0 is Some,
        !all_space(split_spec(text@).0->0),
        body@ == split_spec(text@).1,
        layout_in(split_spec(text@).0->0, k) == Some(layout@),
        texts(names@) == names_in(text@, updates, k),
        mapping_entries(*mapping) == patched(text@, updates),
        n == document_entries(text@)->0.len(),
        n <= mapping_entries(*mapping).len(),
        keys@.len() == layout.parts@.len(),
        forall|i: int|
            0 <= i < keys@.len() ==> text_view(#[trigger] keys@[i]) == part_key(layout@, i),
        end_line == (k < 8 && k % 2 == 1),
    ensures
        match r {
            Some(written) => fits(text@, updates, k) && attempt(text@, updates, k) == Some(written@),
            None => !fits(text@, updates, k),
        },
{
    match splice(layout, keys, names, mapping, n) {
        Some(lines) => {
            let mut patched_front = lines;
            let ghost start = patched_front@;
            if end_line {
                patched_front.push('\n');
            }
            assert(patched_front@ =~= start + tail_in(k));
            let written = replace_front(text, patched_front.as_str());
            assert(attempt(text@, updates, k) == Some(written@));
            if has_read(written.as_str(), mapping, body) {
                Some(written)
            } else {
                None
            }
        },
        None => None,
    }
}

/// Two attempts to patch a document at its lines, `k` and the next, without a line feed at the end
/// and with one.
fn make_two_attempts(
    text: &str,
    body: &str,
    layout: &Layout,
    keys: &Vec<Option<String>>,
    names: &Vec<String>,
    mapping: &serde_yaml::Mapping,
    n: usize,
    Ghost(updates): Ghost<Seq<(Seq<char>, YamlTree)>>,
    Ghost(k): Ghost<int>,
) -> (r: Option<String>)
    requires
        k == 0 || k == 2 || k == 4 || k == 6,
        document_entries(text@) is Some,
        split_spec(text@).0 is Some,
        !all_space(split_spec(text@).0->0),
        body@ == split_spec(text@).1,
        layout_in(split_spec(text@).0->0, k) == Some(layout@),
        texts(names@) == names_in(text@, updates, k),
        mapping_entries(*mapping) == patched(text@, updates),
        n == document_entries(text@)->0.len(),
        n <= mapping_entries(*mapping).len(),
        keys@.len() == layout.parts@.len(),
        forall|i: int|
            0 <= i < keys@.len() ==> text_view(#[trigger] keys@[i]) == part_key(layout@, i),
    ensures
        match r {
            Some(written) => {
                &&& fit_from(text@, updates, k) is Some
                &&& attempt(text@, updates, fit_from(text@, updates, k)->0) == Some(written@)
            },
            None => fit_from(text@, updates, k) == fit_from(text@, updates, k + 2),
        },
{
    proof {
        reveal_with_fuel(fit_from, 3);
        assert(layout_in(split_spec(text@).0->0, k + 1) == layout_in(split_spec(text@).0->0, k));
        assert(names_in(text@, updates, k + 1) == names_in(text@, updates, k));
    }
    let (us, k0) = (Ghost(updates), Ghost(k));
    if let Some(written) = make_attempt(
        text,
        body,
        layout,
        keys,
        names,
        mapping,
        n,
        false,
        us,
        k0,
    ) {
        return Some(written);
    }
    make_attempt(text, body, layout, keys, names, mapping, n, true, us, Ghost(k + 1))
}

/// The document patched at its lines, if it can be: after updates of the entries with `names`,
/// which make the entries of `mapping` out of those of `before`.
fn patch_lines(
    text: &str,
    front: &str,
    body: &str,
    before: &serde_yaml::Mapping,
    mapping: &serde_yaml::Mapping,
    names: &Vec<String>,
    Ghost(updates): Ghost<Seq<(Seq<char>, YamlTree)>>,
) -> (r: Option<String>)
    requires
        split_spec(text@) == (Some(front@), body@),
        !all_space(front@),
        document_entries(text@) == Some(mapping_entries(*before)),
        mapping_entries(*mapping) == patched(text@, updates),
        texts(names@) == names_of(updates),
    ensures
        match r {
            Some(written) => {
                &&& first_fit(text@, updates) is Some
                &&& attempt(text@, updates, first_fit(text@, updates)->0) == Some(written@)
            },
            None => first_fit(text@, updates) == fit_from(text@, updates, 8),
        },
{
    proof {
        patch_keeps_key_order(document_entries(text@)->0, updates);
    }
    let n = before.len();
    let layout = to_whole(&to_block(front));
    let keys = keys_of(&layout);
    let (l, ks) = (&layout, &keys);
    if let Some(written) = make_two_attempts(
        text,
        body,
        l,
        ks,
        names,
        mapping,
        n,
        Ghost(updates),
        Ghost(0),
    ) {
        return Some(written);
    }
    let more = both(names, &last_key(before));
    if let Some(written) = make_two_attempts(
        text,
        body,
        l,
        ks,
        &more,
        mapping,
        n,
        Ghost(updates),
        Ghost(2),
    ) {
        return Some(written);
    }
    let leaning_names = find_leaning(l, ks, before);
    let others = both(names, &leaning_names);
    if let Some(written) = make_two_attempts(
        text,
        body,
        l,
        ks,
        &others,
        mapping,
        n,
        Ghost(updates),
        Ghost(4),
    ) {
        return Some(written);
    }
    let most = both(&more, &leaning_names);
    make_two_attempts(text, body, l, ks, &most, mapping, n, Ghost(updates), Ghost(6))
}

/// The document patched between its braces, if it can be, as [`patch_lines`] says.
fn patch_braces(
    text: &str,
    front: &str,
    body: &str,
    before: &serde_yaml::Mapping,
    mapping: &serde_yaml::Mapping,
    names: &Vec<String>,
    Ghost(updates): Ghost<Seq<(Seq<char>, YamlTree)>>,
) -> (r: Option<String>)
    requires
        split_spec(text@) == (Some(front@), body@),
        !all_space(front@),
        document_entries(text@) == Some(mapping_entries(*before)),
        mapping_entries(*mapping) == patched(text@, updates),
        texts(names@) == names_of(updates),
    ensures
        match r {
            Some(written) => {
                &&& fit_from(text@, updates, 8) is Some
                &&& attempt(text@, updates, fit_from(text@, updates, 8)->0) == Some(written@)
            },
            None => fit_from(text@, updates, 8) is None,
        },
{
    proof {
        patch_keeps_key_order(document_entries(text@)->0, updates);
        reveal_with_fuel(fit_from, 3);
    }
    let n = before.len();
    let layout = match to_flow(front) {
        Some(layout) => to_whole(&layout),
        None => {
            return None;
        },
    };
    let keys = keys_of(&layout);
    let us = Ghost(updates);
    if let Some(written) = make_attempt(
        text,
        body,
        &layout,
        &keys,
        names,
        mapping,
        n,
        false,
        us,
        Ghost(8),
    ) {
        return Some(written);
    }
    let more = both(names, &find_leaning(&layout, &keys, before));
    make_attempt(text, body, &layout, &keys, &more, mapping, n, false, us, Ghost(9))
}

/// The document patched part by part, if it can be, as [`patch_lines`] says.
fn patch_parts(
    text: &str,
    body: &str,
    before: &serde_yaml::Mapping,
    mapping: &serde_yaml::Mapping,
    names: &Vec<String>,
    Ghost(updates): Ghost<Seq<(Seq<char>, YamlTree)>>,
) -> (r: Option<String>)
    requires
        document_entries(text@) == Some(mapping_entries(*before)),
        body@ == split_spec(text@).1,
        mapping_entries(*mapping) == patched(text@, updates),
        texts(names@) == names_of(updates),
    ensures
        match r {
            Some(written) => {
                &&& first_fit(text@, updates) is Some
                &&& attempt(text@, updates, first_fit(text@, updates)->0) == Some(written@)
            },
            None => first_fit(text@, updates) is None,
        },
{
    let (front, _) = split(text);
    if let Some(front) = front {
        if !is_all_space(front.as_str()) {
            let front = front.as_str();
            if let Some(written) = patch_lines(
                text,
                front,
                body,
                before,
                mapping,
                names,
                Ghost(updates),
            ) {
                return Some(written);
            }
            return patch_braces(text, front, body, before, mapping, names, Ghost(updates));
        }
    }
    proof {
        reveal_with_fuel(fit_from, 11);
    }
    None
}

/// The document `text` after updates of the entries with `names`, which make the entries of
/// `mapping` out of those of `before`.
fn rewrite(
    text: &str,
    body: &str,
    before: &serde_yaml::Mapping,
    mapping: &serde_yaml::Mapping,
    names: &Vec<String>,
    Ghost(updates): Ghost<Seq<(Seq<char>, YamlTree)>>,
) -> (r: Result<String, MetaError>)
    requires
        document_entries(text@) == Some(mapping_entries(*before)),
        body@ == split_spec(text@).1,
        mapping_entries(*mapping) == patched(text@, updates),
        texts(names@) == names_of(updates),
    ensures
        write_gives(text@, updates, r),
{
    if let Some(written) = patch_parts(text, body, before, mapping, names, Ghost(updates)) {
        proof {
            lemma_attempt(text@, updates, first_fit(text@, updates)->0);
            lemma_fit_from(text@, updates, 0);
        }
        return Ok(written);
    }
    let lines = match dump_mapping(mapping) {
        Ok(lines) => lines,
        Err(e) => {
            return Err(e);
        },
    };
    proof {
        split_of_replaced(text@, lines@);
        split_of_replaced(text@, trimmed(lines@));
    }
    let short = replace_front(text, trim_line_feeds(lines.as_str()).as_str());
    if !has_read(short.as_str(), mapping, body) {
        let full = replace_front(text, lines.as_str());
        if has_read(full.as_str(), mapping, body) {
            return Ok(full);
        }
    }
    Ok(short)
}

/// A document that was patched part by part has front matter.
proof fn lemma_attempt(text: Seq<char>, updates: Seq<(Seq<char>, YamlTree)>, k: int)
    requires
        attempt(text, updates, k) is Some,
    ensures
        split_spec(attempt(text, updates, k)->0).0 is Some,
{
    let lines = spliced(
        layout_in(split_spec(text).0->0, k)->0,
        names_in(text, updates, k),
        patched(text, updates),
        document_entries(text)->0.len() as int,
    )->0;
    replaced_has_front_matter(text, lines + tail_in(k));
}

/// An attempt that fits is one of ten, and it fits.
pub proof fn lemma_fit_from(text: Seq<char>, updates: Seq<(Seq<char>, YamlTree)>, k: int)
    ensures
        fit_from(text, updates, k) matches Some(f) ==> k <= f < 10 && fits(text, updates, f),
    decreases 10 - k,
{
    if k < 10 && !fits(text, updates, k) {
        lemma_fit_from(text, updates, k + 1);
    }
}

/// Sets each of `updates` in the mapping, in their order.
fn insert_all(mapping: &mut serde_yaml::Mapping, updates: Vec<(String, Json)>)
    ensures
        mapping_entries(*final(mapping)) == patch(
            mapping_entries(*old(mapping)),
            members_to_yaml(updates@),
        ),
{
    broadcast use lemma_push_drop;

    let ghost all = updates@;
    #[verifier::loop_isolation(false)]
    for update in it: updates
        invariant
            it.seq() == all,
            mapping_entries(*mapping) == patch(
                mapping_entries(*old(mapping)),
                members_to_yaml(all.take(it.index() as int)),
            ),
    {
        let ghost k = it.index() as int;
        assert(all.take(k + 1).drop_last() =~= all.take(k));
        let (key, value) = update;
        mapping_insert(mapping, key, json_to_yaml(value));
    }
    assert(all.take(all.len() as int) =~= all);
}

/// The keys that updates set.
fn collect_names(updates: &Vec<(String, Json)>) -> (r: Vec<String>)
    ensures
        texts(r@) == names_of(members_to_yaml(updates@)),
{
    let mut out: Vec<String> = Vec::new();
    let ghost names = names_of(members_to_yaml(updates@));
    proof {
        lemma_members_to_yaml(updates@);
        assert(texts(out@) =~= names.take(0));
    }
    let mut i: usize = 0;
    while i < updates.len()
        invariant
            i <= updates@.len(),
            names.len() == updates@.len(),
            forall|j: int| 0 <= j < names.len() ==> #[trigger] names[j] == updates@[j].0@,
            texts(out@) == names.take(i as int),
        decreases updates@.len() - i,
    {
        let ghost before = out@;
        out.push(updates[i].0.as_str().to_owned());
        assert(names[i as int] == updates@[i as int].0@);
        assert(names.take(i + 1) =~= names.take(i as int).push(names[i as int]));
        assert(texts(out@) =~= texts(before).push(names[i as int]));
        i += 1;
    }
    assert(names.take(i as int) =~= names);
    out
}

/// Sets `key` to a string in the mapping.
fn insert_string(mapping: &mut serde_yaml::Mapping, key: &str, value: &str)
    ensures
        mapping_entries(*final(mapping)) == put(
            mapping_entries(*old(mapping)),
            key@,
            YamlTree::Str(value@),
        ),
{
    mapping_insert(mapping, key.to_owned(), close_value(YamlNode::String(value.to_owned())));
}

/// The document `text` after `updates`, with the key `updated` set to `now` if that is given.
/// The keys that are there stay where they are, new ones are appended, and the body is the same.
/// What is written of other keys stays as it is wherever the document then reads as it should.
pub fn write_meta_at(text: &str, updates: Vec<(String, Json)>, now: Option<&str>) -> (r: Result<
    String,
    MetaError,
>)
    ensures
        write_gives(text@, updates_of(updates@, key_view(now)), r),
{
    broadcast use lemma_push_drop;

    let ghost all = updates_of(updates@, key_view(now));
    let (mut mapping, body) = match parse_document(text) {
        Ok(parsed) => parsed,
        Err(e) => {
            return Err(e);
        },
    };
    let before = mapping.clone();
    let mut names = collect_names(&updates);
    insert_all(&mut mapping, updates);
    if let Some(now) = now {
        let ghost given = names@;
        insert_string(&mut mapping, "updated", now);
        names.push("updated".to_owned());
        assert(texts(names@) =~= texts(given).push("updated"@));
    }
    assert(texts(names@) =~= names_of(all));
    rewrite(text, body.as_str(), &before, &mapping, &names, Ghost(all))
}

/// As [`write_meta_at`], with the local time where `touch_updated` asks for it.
pub fn write_meta(text: &str, updates: Vec<(String, Json)>, touch_updated: bool) -> (r: Result<
    String,
    MetaError,
>)
    ensures
        touch_updated ==> exists|now: Seq<char>|
            #[trigger] stamp(now) && write_gives(text@, updates_of(updates@, Some(now)), r),
        !touch_updated ==> write_gives(text@, updates_of(updates@, None), r),
{
    if touch_updated {
        let now = now_str();
        let r = write_meta_at(text, updates, Some(now.as_str()));
        assert(stamp(now@));
        r
    } else {
        write_meta_at(text, updates, None)
    }
}

/// The value behind its tags.
pub open spec fn untagged(t: YamlTree) -> YamlTree
    decreases t,
{
    match t {
        YamlTree::Tagged(_, value) => untagged(*value),
        _ => t,
    }
}

/// The version that entries hold: the string under `version`, with or without a tag. It is
/// `0.1.0` where there is none.
pub open spec fn version_of(entries: Seq<(YamlTree, YamlTree)>) -> Seq<char> {
    match untagged(value_or_null(entries, "version"@)) {
        YamlTree::Str(version) => version,
        _ => "0.1.0"@,
    }
}

/// The updates of a bump to `version` at the time `now`.
pub open spec fn bump_updates(version: Seq<char>, now: Seq<char>) -> Seq<(Seq<char>, YamlTree)> {
    seq![("version"@, YamlTree::Str(version)), ("updated"@, YamlTree::Str(now))]
}

/// The new version that a bump of the document gives, if it gives one.
pub open spec fn next_version(text: Seq<char>, level: Seq<char>) -> Result<Seq<char>, MetaFault> {
    match document_entries(text) {
        Some(entries) => match bump_spec(version_of(entries), level) {
            Ok(version) => Ok(version),
            Err(e) => Err(MetaFault::Semver(e)),
        },
        None => Err(MetaFault::InvalidYaml),
    }
}

/// The version of the document would be raised beyond 64 bits.
pub open spec fn version_overflows(text: Seq<char>, level: Seq<char>) -> bool {
    match document_entries(text) {
        Some(entries) => bump_overflows(version_of(entries), level),
        None => false,
    }
}

/// What a bump of `text` at `level` and at the time `now` gives: the new version, and the document
/// with that version and that time.
pub open spec fn bump_gives(
    text: Seq<char>,
    level: Seq<char>,
    now: Seq<char>,
    r: Result<(String, String), MetaError>,
) -> bool {
    match next_version(text, level) {
        Ok(version) => match r {
            Ok((new, written)) => new@ == version && write_gives(
                text,
                bump_updates(version, now),
                Ok(written),
            ),
            Err(e) => write_gives(text, bump_updates(version, now), Err(e)),
        },
        Err(fault) => r is Err && r->Err_0@ == fault,
    }
}

/// The string that a value is, with or without a tag.
pub fn as_str(v: &Yaml) -> (r: Option<&str>)
    ensures
        match r {
            Some(s) => untagged(v@) == YamlTree::Str(s@),
            None => !(untagged(v@) is Str),
        },
    decreases v,
{
    match v {
        Yaml::String(s) => Some(s.as_str()),
        Yaml::Tagged(_, value) => as_str(value),
        _ => None,
    }
}

/// The version of the entries of a mapping.
fn current_version(mapping: &serde_yaml::Mapping) -> (r: String)
    ensures
        r@ == version_of(mapping_entries(*mapping)),
{
    let value = get_or_null(mapping, "version");
    match as_str(&value) {
        Some(version) => version.to_owned(),
        None => "0.1.0".to_owned(),
    }
}

/// Whether a bump would raise the version of the document beyond 64 bits.
fn bump_overflows_in(text: &str, level: &str) -> (r: bool)
    ensures
        r == version_overflows(text@, level@),
{
    match parse_document(text) {
        Ok((mapping, _)) => bump_would_overflow(current_version(&mapping).as_str(), level),
        Err(_) => false,
    }
}

/// Raises the version of the document `text` at `level`, which is `major`, `minor` or `patch`,
/// and sets the key `updated` to `now`. Gives the new version and the new document.
pub fn bump_version_at(text: &str, level: &str, now: &str) -> (r: Result<
    (String, String),
    MetaError,
>)
    requires
        !version_overflows(text@, level@),
    ensures
        bump_gives(text@, level@, now@, r),
{
    broadcast use lemma_push_drop;

    let (mut mapping, body) = match parse_document(text) {
        Ok(parsed) => parsed,
        Err(e) => {
            return Err(e);
        },
    };
    let before = mapping.clone();
    let version = match bump_semver(current_version(&mapping).as_str(), level) {
        Ok(version) => version,
        Err(e) => {
            return Err(MetaError::Semver(e));
        },
    };
    insert_string(&mut mapping, "version", version.as_str());
    insert_string(&mut mapping, "updated", now);
    let mut names: Vec<String> = Vec::new();
    names.push("version".to_owned());
    names.push("updated".to_owned());
    let ghost updates = bump_updates(version@, now@);
    proof {
        lemma_patch_two(
            mapping_entries(before),
            ("version"@, YamlTree::Str(version@)),
            ("updated"@, YamlTree::Str(now@)),
        );
        assert(texts(names@) =~= names_of(updates));
    }
    match rewrite(text, body.as_str(), &before, &mapping, &names, Ghost(updates)) {
        Ok(written) => Ok((version, written)),
        Err(e) => Err(e),
    }
}

proof fn lemma_patch_two(
    entries: Seq<(YamlTree, YamlTree)>,
    first: (Seq<char>, YamlTree),
    second: (Seq<char>, YamlTree),
)
    ensures
        patch(entries, seq![first, second]) == put(
            put(entries, first.0, first.1),
            second.0,
            second.1,
        ),
{
    let none = Seq::<(Seq<char>, YamlTree)>::empty();
    lemma_push_drop(none, first);
    lemma_push_drop(none.push(first), second);
    assert(seq![first, second] =~= none.push(first).push(second));
    assert(patch(entries, none) == entries);
    assert(patch(entries, none.push(first)) == put(entries, first.0, first.1));
}

/// As [`bump_version_at`], for any document: `None` where the version would be raised beyond 64
/// bits.
pub fn checked_bump_version_at(text: &str, level: &str, now: &str) -> (r: Option<
    Result<(String, String), MetaError>,
>)
    ensures
        match r {
            Some(r) => !version_overflows(text@, level@) && bump_gives(text@, level@, now@, r),
            None => version_overflows(text@, level@),
        },
{
    if bump_overflows_in(text, level) {
        None
    } else {
        Some(bump_version_at(text, level, now))
    }
}

/// As [`bump_version_at`], with the local time.
pub fn bump_version(text: &str, level: &str) -> (r: Result<(String, String), MetaError>)
    requires
        !version_overflows(text@, level@),
    ensures
        exists|now: Seq<char>| #[trigger] stamp(now) && bump_gives(text@, level@, now, r),
{
    let now = now_str();
    assert(stamp(now@));
    bump_version_at(text, level, now.as_str())
}

/// As [`bump_version`], for any document: `None` where the version would be raised beyond 64
/// bits.
pub fn checked_bump_version(text: &str, level: &str) -> (r: Option<
    Result<(String, String), MetaError>,
>)
    ensures
        match r {
            Some(r) => !version_overflows(text@, level@) && exists|now: Seq<char>|
                #[trigger] stamp(now) && bump_gives(text@, level@, now, r),
            None => version_overflows(text@, level@),
        },
{
    if bump_overflows_in(text, level) {
        None
    } else {
        Some(bump_version(text, level))
    }
}

} // verus!
