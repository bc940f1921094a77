//! What reading, writing and bumping have to do with each other.

use vstd::prelude::*;

use crate::classify::{annotate_spec, annotation_holds_the_value, without_tags};
use crate::convert::{
    entries_to_json, entries_to_json_by_key, json_comes_back, json_to_yaml_spec,
    lemma_members_to_yaml, list_to_yaml, members_to_yaml, numbers_fit, yaml_becomes_json_by_parts,
    yaml_to_json_spec,
};
use crate::document::{front_at, replace_spec, replaced_by_itself, split_spec};
use crate::entries::{
    distinct_keys, key_at, keys, lemma_position, lookup, new_keys_come_in_order, patch,
    patch_keeps_key_order, patch_sets_the_updates, patching_again_changes_nothing, position, put,
    update_of, updated,
};
use crate::error::{MetaError, MetaFault};
use crate::flow::{braces_make_up_the_front_matter, flow_layout};
use crate::frontmatter::{document_entries, dump_lines};
use crate::layout::{block_layout, lines_make_up_the_front_matter};
use crate::meta::{
    attempt, bump_gives, bump_updates, entries_typed, first_fit, fits, key_view, layout_in,
    lemma_fit_from, names_in, names_of, next_version, parts_can_stay, patched, patches, read_spec,
    read_typed_spec, reads_back, tail_in, untagged, updates_of, value_or_null, version_of,
    version_overflows, write_gives, write_spec,
};
use crate::semver::{
    bump_gives_the_raised_version, bump_overflows, bump_spec, decimal_text, is_digit,
    lemma_decimal_text, raised, version, version_text,
};
use crate::splice::{
    nothing_set_changes_nothing, other_parts_stay, patched_parts, spliced, stays, whole,
    whole_parts_make_up_the_same,
};
use crate::text::{all_space, trimmed};
use crate::value::{named_last, Json, JsonTree, YamlTree};
use crate::yaml::{plain, plain_mapping, scalar};

verus! {

/// The member of an object, which is null where there is none.
pub open spec fn member_or_null(v: JsonTree, name: Seq<char>) -> JsonTree {
    if v is Object && v->Object_0.dom().contains(name) {
        v->Object_0[name]
    } else {
        JsonTree::Null
    }
}

/// A key that is not there reads as null.
pub proof fn missing_key_reads_null(text: Seq<char>, key: Seq<char>)
    requires
        document_entries(text) is Some,
        lookup(document_entries(text)->0, key) is None,
    ensures
        read_spec(text, Some(key)) == Some(JsonTree::Null),
{
}

/// The whole of the front matter holds under each name what is read of that key alone.
pub proof fn whole_holds_each_key(text: Seq<char>, key: Seq<char>)
    requires
        document_entries(text) is Some,
        distinct_keys(document_entries(text)->0),
    ensures
        read_spec(text, Some(key)) == Some(member_or_null(read_spec(text, None)->0, key)),
{
    entries_to_json_by_key(document_entries(text)->0, key);
}

proof fn lemma_entries_typed(entries: Seq<(YamlTree, YamlTree)>, key: Seq<char>)
    ensures
        entries_typed(entries).dom() == entries_to_json(entries).dom(),
        distinct_keys(entries) ==> (lookup(entries, key) matches Some(value) ==> entries_typed(
            entries,
        )[key] == annotate_spec(value)),
    decreases entries.len(),
{
    if entries.len() > 0 {
        let less = entries.drop_last();
        let last = entries.len() - 1;
        lemma_entries_typed(less, key);
        lemma_position(entries, key);
        lemma_position(less, key);
        assert(entries_typed(entries).dom() =~= entries_to_json(entries).dom());
        if distinct_keys(entries) {
            assert(distinct_keys(less)) by {
                assert forall|i: int, j: int|
                    0 <= i < j < less.len() && #[trigger] less[i].0 is Str implies less[i].0
                    != #[trigger] less[j].0 by {
                    assert(entries[i].0 != entries[j].0);
                }
            }
            if let Some(i) = position(entries, key) {
                assert(entries[i].0 is Str);
                if i < last {
                    assert(entries[i].0 != entries[last].0);
                    assert(less[i] == entries[i]);
                    assert forall|j: int| 0 <= j < i implies less[j].0 != YamlTree::Str(key) by {
                        assert(less[j] == entries[j]);
                    }
                    assert(key_at(less, key, i));
                }
            }
        }
    } else {
        lemma_position(entries, key);
        assert(entries_typed(entries).dom() =~= entries_to_json(entries).dom());
    }
}

/// Reading with types gives the same names as reading without, and under each name the same
/// value together with its type.
pub proof fn typed_holds_the_untyped(text: Seq<char>, key: Seq<char>)
    requires
        document_entries(text) is Some,
        distinct_keys(document_entries(text)->0),
    ensures
        member_or_null(read_typed_spec(text, Some(key))->0, "value"@) == read_spec(
            text,
            Some(key),
        )->0,
        read_typed_spec(text, None)->0->Object_0.dom() == read_spec(text, None)->0->Object_0.dom(),
        read_spec(text, None)->0->Object_0.dom().contains(key) ==> read_typed_spec(
            text,
            None,
        )->0->Object_0[key] == read_typed_spec(text, Some(key))->0,
{
    let entries = document_entries(text)->0;
    annotation_holds_the_value(value_or_null(entries, key));
    lemma_entries_typed(entries, key);
    entries_to_json_by_key(entries, key);
    reveal_strlit("value");
    reveal_strlit("type");
    reveal_strlit("items_type");
    assert("value"@.len() == 5);
    assert("type"@.len() == 4);
    assert("items_type"@.len() == 10);
}

/// A write leaves the body as it was, and the entries that it does not set: what is read of a key
/// afterwards is what the last update of that key sets, or what was read of it before.
pub proof fn read_after_write(
    text: Seq<char>,
    updates: Seq<(Seq<char>, YamlTree)>,
    written: Seq<char>,
    key: Seq<char>,
)
    requires
        document_entries(text) is Some,
        reads_back(text, updates),
        patches(text, updates, written),
    ensures
        split_spec(written).1 == split_spec(text).1,
        read_spec(written, Some(key)) == match update_of(updates, key) {
            Some(value) => Some(yaml_to_json_spec(value)),
            None => read_spec(text, Some(key)),
        },
        read_typed_spec(written, Some(key)) == match update_of(updates, key) {
            Some(value) => Some(annotate_spec(value)),
            None => read_typed_spec(text, Some(key)),
        },
{
    patch_sets_the_updates(document_entries(text)->0, updates, key);
}

/// A write leaves the keys that there were in their places, in their order, and appends those
/// that there were not. Where all keys that it sets were there, the keys are the same.
pub proof fn write_keeps_key_order(
    text: Seq<char>,
    updates: Seq<(Seq<char>, YamlTree)>,
    written: Seq<char>,
)
    requires
        document_entries(text) is Some,
        reads_back(text, updates),
        patches(text, updates, written),
    ensures
        ({
            let (before, after) = (document_entries(text)->0, document_entries(written)->0);
            &&& before.len() <= after.len()
            &&& keys(after).take(before.len() as int) == keys(before)
            &&& forall|i: int|
                before.len() <= i < after.len() ==> {
                    &&& (#[trigger] after[i]).0 is Str
                    &&& updated(updates, after[i].0->Str_0)
                    &&& lookup(before, after[i].0->Str_0) is None
                }
            &&& (forall|i: int|
                0 <= i < updates.len() ==> lookup(before, #[trigger] updates[i].0) is Some)
                ==> keys(after) == keys(before)
        }),
{
    patch_keeps_key_order(document_entries(text)->0, updates);
}

/// A write that is made a second time asks for the entries that are there already.
pub proof fn writing_again_asks_for_the_same(
    text: Seq<char>,
    updates: Seq<(Seq<char>, YamlTree)>,
    written: Seq<char>,
)
    requires
        document_entries(text) is Some,
        reads_back(text, updates),
        patches(text, updates, written),
    ensures
        patched(written, updates) == document_entries(written)->0,
{
    patching_again_changes_nothing(document_entries(text)->0, updates);
}

/// A write without updates gives the document as it is, whatever its front matter holds, unless
/// that is white space alone.
pub proof fn writing_nothing_changes_nothing(text: Seq<char>)
    requires
        document_entries(text) is Some,
        split_spec(text).0 matches Some(front) && !all_space(front),
    ensures
        write_spec(text, Seq::empty()) == Ok::<Seq<char>, MetaFault>(text),
{
    let none = Seq::<(Seq<char>, YamlTree)>::empty();
    let front = split_spec(text).0->0;
    let entries = document_entries(text)->0;
    assert(patched(text, none) == entries);
    assert(names_of(none) =~= Seq::empty());
    nothing_set_changes_nothing(whole(block_layout(front)), entries);
    whole_parts_make_up_the_same(block_layout(front));
    lines_make_up_the_front_matter(front);
    assert(front + tail_in(0) =~= front);
    if let Some((open, p)) = front_at(text) {
        assert(p != open);
        replaced_by_itself(text);
    }
    assert(attempt(text, none, 0) == Some(text));
    assert(fits(text, none, 0));
}

/// What is written of other entries stays. Where a document can be patched part by part, the front
/// matter that a write gives is made up of the parts of the one that there was, in their places,
/// and of these only the ones of entries that are set have changed, and in the later attempts those
/// of the last entry and of entries that lean on others. New entries come behind all of them. What
/// stands before the front matter and from its closing line on is the same.
pub proof fn write_keeps_other_parts(
    text: Seq<char>,
    updates: Seq<(Seq<char>, YamlTree)>,
    written: Seq<char>,
)
    requires
        document_entries(text) is Some,
        parts_can_stay(text, updates),
        patches(text, updates, written),
    ensures
        ({
            let front = split_spec(text).0->0;
            let k = first_fit(text, updates)->0;
            let l = layout_in(front, k)->0;
            let (names, entries) = (names_in(text, updates, k), patched(text, updates));
            let n = document_entries(text)->0.len() as int;
            let new_parts = patched_parts(l, names, entries, n)->0;
            &&& l.text() == front
            &&& written == replace_spec(text, l.with(new_parts) + tail_in(k))
            &&& new_parts.len() == l.parts.len() + entries.len() - n
            &&& forall|i: int|
                0 <= i < l.parts.len() && #[trigger] stays(l, i, names) ==> new_parts[i]
                    == l.parts[i]
        }),
{
    let front = split_spec(text).0->0;
    let k = first_fit(text, updates)->0;
    let l = layout_in(front, k)->0;
    lemma_fit_from(text, updates, 0);
    patch_keeps_key_order(document_entries(text)->0, updates);
    if k < 8 {
        lines_make_up_the_front_matter(front);
        whole_parts_make_up_the_same(block_layout(front));
    } else {
        braces_make_up_the_front_matter(front);
        whole_parts_make_up_the_same(flow_layout(front)->0);
    }
    other_parts_stay(
        l,
        names_in(text, updates, k),
        patched(text, updates),
        document_entries(text)->0.len() as int,
    );
}

/// What is written has the patched entries exactly where it can be read back: nothing else is left
/// out of what is said of reading after a write.
pub proof fn nothing_else_is_left_out(
    text: Seq<char>,
    updates: Seq<(Seq<char>, YamlTree)>,
    written: Seq<char>,
)
    requires
        write_spec(text, updates) == Ok::<Seq<char>, MetaFault>(written),
        patches(text, updates, written),
    ensures
        reads_back(text, updates) <==> document_entries(written) == Some(patched(text, updates)),
{
}

proof fn lemma_update_of(updates: Seq<(Seq<char>, YamlTree)>, i: int)
    requires
        0 <= i < updates.len(),
        forall|j: int| i < j < updates.len() ==> (#[trigger] updates[j]).0 != updates[i].0,
    ensures
        update_of(updates, updates[i].0) == Some(updates[i].1),
    decreases updates.len(),
{
    if i < updates.len() - 1 {
        assert(updates[updates.len() - 1].0 != updates[i].0);
        lemma_update_of(updates.drop_last(), i);
    }
}

/// What a write sets is read back: the value of an update that no later one replaces, if it holds
/// no integer beyond 64 bits with a sign, and the time that was set.
pub proof fn written_values_read_back(
    text: Seq<char>,
    updates: Seq<(String, Json)>,
    now: Option<Seq<char>>,
    written: Seq<char>,
)
    requires
        document_entries(text) is Some,
        reads_back(text, updates_of(updates, now)),
        patches(text, updates_of(updates, now), written),
    ensures
        now matches Some(time) ==> read_spec(written, Some("updated"@)) == Some(JsonTree::Str(time)),
        forall|i: int|
            0 <= i < updates.len() && numbers_fit((#[trigger] updates[i]).1) && (forall|j: int|
                i < j < updates.len() ==> (#[trigger] updates[j]).0@ != updates[i].0@) && (now is Some
                ==> updates[i].0@ != "updated"@) ==> read_spec(written, Some(updates[i].0@)) == Some(
                updates[i].1@,
            ),
{
    let all = updates_of(updates, now);
    lemma_members_to_yaml(updates);
    if let Some(time) = now {
        lemma_update_of(all, all.len() - 1);
        read_after_write(text, all, written, "updated"@);
    }
    assert forall|i: int|
        0 <= i < updates.len() && numbers_fit((#[trigger] updates[i]).1) && (forall|j: int|
            i < j < updates.len() ==> (#[trigger] updates[j]).0@ != updates[i].0@) && (now is Some
            ==> updates[i].0@ != "updated"@) implies read_spec(written, Some(updates[i].0@)) == Some(
        updates[i].1@,
    ) by {
        assert(all[i] == (updates[i].0@, json_to_yaml_spec(updates[i].1)));
        assert forall|j: int| i < j < all.len() implies (#[trigger] all[j]).0 != all[i].0 by {
            if j < updates.len() {
                assert(all[j].0 == updates[j].0@);
            }
        }
        lemma_update_of(all, i);
        read_after_write(text, all, written, updates[i].0@);
        json_comes_back(updates[i].1);
    }
}

/// A bump sets the version and the time and leaves every other key; the version that it sets is
/// the one after the version that there was.
pub proof fn read_after_bump(
    text: Seq<char>,
    level: Seq<char>,
    now: Seq<char>,
    written: Seq<char>,
    key: Seq<char>,
)
    requires
        !version_overflows(text, level),
        next_version(text, level) is Ok,
        reads_back(text, bump_updates(next_version(text, level)->Ok_0, now)),
        patches(text, bump_updates(next_version(text, level)->Ok_0, now), written),
    ensures
        split_spec(written).1 == split_spec(text).1,
        read_spec(written, Some("version"@)) == Some(JsonTree::Str(next_version(text, level)->Ok_0)),
        read_spec(written, Some("updated"@)) == Some(JsonTree::Str(now)),
        key != "version"@ && key != "updated"@ ==> read_spec(written, Some(key)) == read_spec(
            text,
            Some(key),
        ),
        ({
            let old_version = version(version_of(document_entries(text)->0));
            &&& old_version is Some
            &&& raised(old_version->0, level) is Some
            &&& version(version_of(document_entries(written)->0)) == raised(old_version->0, level)
        }),
{
    let next = next_version(text, level)->Ok_0;
    let updates = bump_updates(next, now);
    reveal_strlit("version");
    reveal_strlit("updated");
    assert("version"@[0] == 'v');
    assert("updated"@[0] == 'u');
    lemma_update_of(updates, 0);
    lemma_update_of(updates, 1);
    read_after_write(text, updates, written, "version"@);
    read_after_write(text, updates, written, "updated"@);
    read_after_write(text, updates, written, key);
    patch_sets_the_updates(document_entries(text)->0, updates, key);
    if updated(updates, key) {
        let i = choose|i: int| 0 <= i < updates.len() && #[trigger] updates[i].0 == key;
        assert(i == 0 || i == 1);
    }
    patch_sets_the_updates(document_entries(text)->0, updates, "version"@);
    bump_gives_the_raised_version(version_of(document_entries(text)->0), level);
}

/// A JSON value that nests arrays and objects at most `depth` deep.
pub open spec fn shallow(v: Json, depth: nat) -> bool
    decreases v,
{
    match v {
        Json::Null | Json::Bool(_) | Json::Number(_) | Json::String(_) => true,
        Json::Array(items) => depth > 0 && forall|i: int|
            0 <= i < items@.len() ==> shallow(#[trigger] items@[i], (depth - 1) as nat),
        Json::Object(members) => depth > 0 && shallow_members(members@, (depth - 1) as nat),
    }
}

/// The values of `members` nest arrays and objects at most `depth` deep.
pub open spec fn shallow_members(members: Seq<(String, Json)>, depth: nat) -> bool
    decreases members,
{
    forall|i: int| 0 <= i < members.len() ==> shallow((#[trigger] members[i]).1, depth)
}

proof fn lemma_put_plain(
    entries: Seq<(YamlTree, YamlTree)>,
    key: Seq<char>,
    value: YamlTree,
    depth: nat,
)
    requires
        depth > 0,
        plain(YamlTree::Entries(entries), depth),
        plain(value, (depth - 1) as nat),
    ensures
        plain(YamlTree::Entries(put(entries, key, value)), depth),
{
    lemma_position(entries, key);
    let after = put(entries, key, value);
    let whole = YamlTree::Entries(entries);
    assert(whole->Entries_0 == entries && plain(whole, depth));
    assert forall|i: int| 0 <= i < after.len() implies scalar((#[trigger] after[i]).0) && plain(
        after[i].1,
        (depth - 1) as nat,
    ) by {
        if i < entries.len() && after[i] == entries[i] {
            assert(scalar(entries[i].0));
        }
    }
}

/// Entries that are plain stay so under updates that are plain.
pub proof fn plain_updates_keep_entries_plain(
    entries: Seq<(YamlTree, YamlTree)>,
    updates: Seq<(Seq<char>, YamlTree)>,
    depth: nat,
)
    requires
        depth > 0,
        plain(YamlTree::Entries(entries), depth),
        forall|i: int| 0 <= i < updates.len() ==> plain((#[trigger] updates[i]).1, (depth - 1) as nat),
    ensures
        plain(YamlTree::Entries(patch(entries, updates)), depth),
    decreases updates.len(),
{
    if updates.len() > 0 {
        let less = updates.drop_last();
        assert forall|i: int| 0 <= i < less.len() implies plain(
            (#[trigger] less[i]).1,
            (depth - 1) as nat,
        ) by {
            assert(less[i] == updates[i]);
        }
        plain_updates_keep_entries_plain(entries, less, depth);
        assert(updates[updates.len() - 1] == updates.last());
        lemma_put_plain(patch(entries, less), updates.last().0, updates.last().1, depth);
    }
}

proof fn lemma_list_to_yaml(items: Seq<Json>)
    ensures
        list_to_yaml(items).len() == items.len(),
        forall|i: int|
            0 <= i < items.len() ==> #[trigger] list_to_yaml(items)[i] == json_to_yaml_spec(items[i]),
    decreases items.len(),
{
    if items.len() > 0 {
        lemma_list_to_yaml(items.drop_last());
    }
}

/// A JSON value makes a plain YAML value that is no deeper.
pub proof fn json_makes_plain_yaml(v: Json, depth: nat)
    requires
        shallow(v, depth),
    ensures
        plain(json_to_yaml_spec(v), depth),
    decreases v,
{
    match v {
        Json::Array(items) => {
            let out = list_to_yaml(items@);
            lemma_list_to_yaml(items@);
            assert forall|i: int| 0 <= i < out.len() implies plain(
                #[trigger] out[i],
                (depth - 1) as nat,
            ) by {
                json_makes_plain_yaml(items@[i], (depth - 1) as nat);
            }
        },
        Json::Object(members) => {
            lemma_plain_members(members@, (depth - 1) as nat);
            plain_updates_keep_entries_plain(Seq::empty(), members_to_yaml(members@), depth);
        },
        _ => {},
    }
}

proof fn lemma_plain_members(members: Seq<(String, Json)>, depth: nat)
    requires
        shallow_members(members, depth),
    ensures
        members_to_yaml(members).len() == members.len(),
        forall|i: int|
            0 <= i < members.len() ==> plain((#[trigger] members_to_yaml(members)[i]).1, depth),
    decreases members,
{
    lemma_members_to_yaml(members);
    assert forall|i: int| 0 <= i < members.len() implies plain(
        (#[trigger] members_to_yaml(members)[i]).1,
        depth,
    ) by {
        assert(shallow(members[i].1, depth));
        json_makes_plain_yaml(members[i].1, depth);
    }
}

/// Updates leave plain front matter plain, so that it is written and read back, unless they are
/// nested deeper than is read.
pub proof fn writes_stay_plain(
    text: Seq<char>,
    updates: Seq<(String, Json)>,
    now: Option<Seq<char>>,
)
    requires
        document_entries(text) is Some,
        plain_mapping(document_entries(text)->0),
        shallow_members(updates, 127),
    ensures
        plain_mapping(patched(text, updates_of(updates, now))),
        reads_back(text, updates_of(updates, now)),
{
    let all = updates_of(updates, now);
    let entries = document_entries(text)->0;
    lemma_plain_members(updates, 127);
    assert forall|i: int| 0 <= i < all.len() implies plain((#[trigger] all[i]).1, 127) by {
        if i < updates.len() {
            assert(all[i] == members_to_yaml(updates)[i]);
        }
    }
    plain_updates_keep_entries_plain(entries, all, 128);
}

/// What a write makes of plain front matter: it has the entries that it had, with those that are
/// set, and each key reads as the last update of it sets it, or as it did before. The body is the
/// same. Updates may be of any names and strings, and no deeper than is read.
pub proof fn plain_front_matter_after_write(
    text: Seq<char>,
    updates: Seq<(String, Json)>,
    now: Option<Seq<char>>,
    written: Seq<char>,
    key: Seq<char>,
)
    requires
        document_entries(text) is Some,
        plain_mapping(document_entries(text)->0),
        shallow_members(updates, 127),
        patches(text, updates_of(updates, now), written),
    ensures
        split_spec(written).1 == split_spec(text).1,
        document_entries(written) == Some(
            patch(document_entries(text)->0, updates_of(updates, now)),
        ),
        read_spec(written, Some(key)) == match update_of(updates_of(updates, now), key) {
            Some(value) => Some(yaml_to_json_spec(value)),
            None => read_spec(text, Some(key)),
        },
{
    writes_stay_plain(text, updates, now);
    read_after_write(text, updates_of(updates, now), written, key);
}

/// What a bump makes of plain front matter: it has the entries that it had, with the new version
/// and the time, and the body is the same.
pub proof fn plain_front_matter_after_bump(
    text: Seq<char>,
    level: Seq<char>,
    now: Seq<char>,
    written: Seq<char>,
)
    requires
        next_version(text, level) is Ok,
        plain_mapping(document_entries(text)->0),
        patches(text, bump_updates(next_version(text, level)->Ok_0, now), written),
    ensures
        split_spec(written).1 == split_spec(text).1,
        document_entries(written) == Some(
            patch(
                document_entries(text)->0,
                bump_updates(next_version(text, level)->Ok_0, now),
            ),
        ),
{
    bumps_stay_plain(text, level, now);
}

proof fn lemma_version_chars(text: Seq<char>, level: Seq<char>)
    requires
        next_version(text, level) is Ok,
    ensures
        forall|i: int|
            0 <= i < next_version(text, level)->Ok_0.len() ==> is_digit(
                #[trigger] next_version(text, level)->Ok_0[i],
            ) || next_version(text, level)->Ok_0[i] == '.',
{
    let next = next_version(text, level)->Ok_0;
    let v = raised(version(version_of(document_entries(text)->0))->0, level)->0;
    let (a, b, c) = (decimal_text(v.0), decimal_text(v.1), decimal_text(v.2));
    lemma_decimal_text(v.0);
    lemma_decimal_text(v.1);
    lemma_decimal_text(v.2);
    assert(next == version_text(v));
    assert forall|i: int| 0 <= i < next.len() implies is_digit(#[trigger] next[i]) || next[i] == '.' by {
        if i < a.len() {
            assert(next[i] == a[i]);
        } else if a.len() < i < a.len() + 1 + b.len() {
            assert(next[i] == b[i - a.len() - 1]);
        } else if i > a.len() + 1 + b.len() {
            assert(next[i] == c[i - a.len() - b.len() - 2]);
        }
    }
}

/// The version that a bump gives has no line feed, so that what the command line prints of it is
/// one line.
pub proof fn bumped_version_has_one_line(text: Seq<char>, level: Seq<char>)
    requires
        next_version(text, level) is Ok,
    ensures
        !next_version(text, level)->Ok_0.contains('\n'),
{
    lemma_version_chars(text, level);
}

/// A bump leaves plain front matter plain, so that it is written and read back.
pub proof fn bumps_stay_plain(text: Seq<char>, level: Seq<char>, now: Seq<char>)
    requires
        next_version(text, level) is Ok,
        plain_mapping(document_entries(text)->0),
    ensures
        plain_mapping(patched(text, bump_updates(next_version(text, level)->Ok_0, now))),
        reads_back(text, bump_updates(next_version(text, level)->Ok_0, now)),
{
    let updates = bump_updates(next_version(text, level)->Ok_0, now);
    plain_updates_keep_entries_plain(document_entries(text)->0, updates, 128);
}

/// What a write is asked to set: each of the updates that are given, in their order, and then
/// `updated`, if a time is given.
pub open spec fn changes_of(
    updates: Seq<(String, Json)>,
    now: Option<Seq<char>>,
) -> Seq<(Seq<char>, YamlTree)> {
    let given = Seq::new(
        updates.len(),
        |i: int| (updates[i].0@, json_to_yaml_spec(updates[i].1)),
    );
    match now {
        Some(time) => given.push(("updated"@, YamlTree::Str(time))),
        None => given,
    }
}

/// The last of `changes` that sets `key` is the one at `i`.
pub open spec fn last_change(
    changes: Seq<(Seq<char>, YamlTree)>,
    key: Seq<char>,
    i: int,
) -> bool {
    &&& 0 <= i < changes.len()
    &&& changes[i].0 == key
    &&& forall|j: int| i < j < changes.len() ==> (#[trigger] changes[j]).0 != key
}

/// One of `changes` sets `key`.
pub open spec fn sets(changes: Seq<(Seq<char>, YamlTree)>, key: Seq<char>) -> bool {
    exists|i: int| 0 <= i < changes.len() && (#[trigger] changes[i]).0 == key
}

/// `after` is what `changes` make of `before`, and nothing else. The entries that were there keep
/// their keys and their places, and those that no change is about keep their values. An entry that
/// is set, or is new, has the value of the last change of its key. What is new comes behind.
pub open spec fn changed_by(
    before: Seq<(YamlTree, YamlTree)>,
    after: Seq<(YamlTree, YamlTree)>,
    changes: Seq<(Seq<char>, YamlTree)>,
) -> bool {
    &&& before.len() <= after.len()
    &&& forall|i: int| 0 <= i < before.len() ==> (#[trigger] after[i]).0 == before[i].0
    &&& forall|i: int|
        0 <= i < before.len() && !(before[i].0 is Str && sets(changes, before[i].0->Str_0))
            ==> #[trigger] after[i] == before[i]
    &&& forall|i: int|
        0 <= i < after.len() && (#[trigger] after[i]).0 is Str && sets(changes, after[i].0->Str_0) && (
        forall|j: int| 0 <= j < i ==> (#[trigger] after[j]).0 != after[i].0) ==> exists|k: int|
            #[trigger] last_change(changes, after[i].0->Str_0, k) && after[i].1 == changes[k].1
    &&& forall|i: int|
        before.len() <= i < after.len() ==> {
            &&& (#[trigger] after[i]).0 is Str
            &&& sets(changes, after[i].0->Str_0)
            &&& forall|j: int| 0 <= j < i ==> (#[trigger] after[j]).0 != after[i].0
        }
    &&& forall|k: int|
        0 <= k < changes.len() ==> exists|i: int|
            0 <= i < after.len() && (#[trigger] after[i]).0 == YamlTree::Str(
                (#[trigger] changes[k]).0,
            )
    &&& forall|p: int, q: int|
        before.len() <= p < q < after.len() ==> exists|a: int|
            0 <= a < changes.len() && YamlTree::Str((#[trigger] changes[a]).0) == (
            #[trigger] after[p]).0 && forall|b: int|
                0 <= b <= a ==> YamlTree::Str((#[trigger] changes[b]).0) != (#[trigger] after[q]).0
}

proof fn lemma_changes_of(updates: Seq<(String, Json)>, now: Option<Seq<char>>)
    ensures
        updates_of(updates, now) == changes_of(updates, now),
{
    lemma_members_to_yaml(updates);
    assert(members_to_yaml(updates) =~= changes_of(updates, None));
    assert(updates_of(updates, now) =~= changes_of(updates, now));
}

proof fn lemma_patch_leaves(
    entries: Seq<(YamlTree, YamlTree)>,
    updates: Seq<(Seq<char>, YamlTree)>,
    i: int,
)
    requires
        0 <= i < entries.len(),
        !(entries[i].0 is Str && sets(updates, entries[i].0->Str_0)),
    ensures
        patch(entries, updates).len() >= entries.len(),
        patch(entries, updates)[i] == entries[i],
    decreases updates.len(),
{
    if updates.len() > 0 {
        let less = updates.drop_last();
        if entries[i].0 is Str && sets(less, entries[i].0->Str_0) {
            let k = choose|k: int|
                0 <= k < less.len() && (#[trigger] less[k]).0 == entries[i].0->Str_0;
            assert(updates[k].0 == entries[i].0->Str_0);
        }
        lemma_patch_leaves(entries, less, i);
        let before = patch(entries, less);
        lemma_position(before, updates.last().0);
        assert(updates[updates.len() - 1] == updates.last());
    }
}

proof fn lemma_last_change(changes: Seq<(Seq<char>, YamlTree)>, key: Seq<char>)
    ensures
        match update_of(changes, key) {
            Some(value) => exists|k: int| #[trigger]
                last_change(changes, key, k) && value == changes[k].1,
            None => !sets(changes, key),
        },
    decreases changes.len(),
{
    if changes.len() > 0 {
        let less = changes.drop_last();
        let last = changes.len() - 1;
        lemma_last_change(less, key);
        if changes[last].0 == key {
            assert(last_change(changes, key, last));
        } else if update_of(less, key) is Some {
            let k = choose|k: int| #[trigger]
                last_change(less, key, k) && update_of(less, key) == Some(less[k].1);
            assert(last_change(changes, key, k)) by {
                assert(changes[k] == less[k]);
                assert forall|j: int| k < j < changes.len() implies (#[trigger] changes[j]).0
                    != key by {
                    if j < last {
                        assert(less[j] == changes[j]);
                    }
                }
            }
        } else if sets(changes, key) {
            let k = choose|k: int| 0 <= k < changes.len() && (#[trigger] changes[k]).0 == key;
            assert(less[k].0 == key);
        }
    }
}

/// Setting keys in a mapping changes what is set, in place or at the end, and nothing else.
#[verifier::spinoff_prover]
#[verifier::rlimit(40)]
pub proof fn patch_changes_nothing_else(
    before: Seq<(YamlTree, YamlTree)>,
    changes: Seq<(Seq<char>, YamlTree)>,
)
    ensures
        changed_by(before, patch(before, changes), changes),
{
    let after = patch(before, changes);
    patch_keeps_key_order(before, changes);
    assert forall|i: int| 0 <= i < before.len() implies (#[trigger] after[i]).0 == before[i].0 by {
        assert(keys(after).take(before.len() as int)[i] == keys(before)[i]);
    }
    assert forall|i: int|
        0 <= i < before.len() && !(before[i].0 is Str && sets(changes, before[i].0->Str_0)) implies
        #[trigger] after[i] == before[i] by {
        lemma_patch_leaves(before, changes, i);
    }
    assert forall|i: int|
        0 <= i < after.len() && (#[trigger] after[i]).0 is Str && sets(changes, after[i].0->Str_0) && (
        forall|j: int| 0 <= j < i ==> (#[trigger] after[j]).0 != after[i].0) implies exists|k: int|
        #[trigger] last_change(changes, after[i].0->Str_0, k) && after[i].1 == changes[k].1 by {
        let key = after[i].0->Str_0;
        patch_sets_the_updates(before, changes, key);
        lemma_last_change(changes, key);
        lemma_position(after, key);
        assert(key_at(after, key, i));
    }
    assert forall|i: int| before.len() <= i < after.len() implies {
        &&& (#[trigger] after[i]).0 is Str
        &&& sets(changes, after[i].0->Str_0)
        &&& forall|j: int| 0 <= j < i ==> (#[trigger] after[j]).0 != after[i].0
    } by {
        let key = after[i].0->Str_0;
        lemma_new_key_once(before, changes, i);
        let u = choose|u: int| 0 <= u < changes.len() && #[trigger] changes[u].0 == key;
        assert(changes[u].0 == key);
    }
    assert forall|k: int| 0 <= k < changes.len() implies exists|i: int|
        0 <= i < after.len() && (#[trigger] after[i]).0 == YamlTree::Str((#[trigger] changes[k]).0) by {
        let key = changes[k].0;
        patch_sets_the_updates(before, changes, key);
        assert(updated(changes, key));
        lemma_position(after, key);
        let p = position(after, key)->0;
        assert(after[p].0 == YamlTree::Str(key));
    }
    assert forall|p: int, q: int| before.len() <= p < q < after.len() implies exists|a: int|
        0 <= a < changes.len() && YamlTree::Str((#[trigger] changes[a]).0) == (#[trigger] after[p]).0
            && forall|b: int|
            0 <= b <= a ==> YamlTree::Str((#[trigger] changes[b]).0) != (#[trigger] after[q]).0 by {
        new_keys_come_in_order(before, changes, p, q);
    }
}

proof fn lemma_new_key_once(
    entries: Seq<(YamlTree, YamlTree)>,
    updates: Seq<(Seq<char>, YamlTree)>,
    i: int,
)
    requires
        entries.len() <= i < patch(entries, updates).len(),
    ensures
        forall|j: int|
            0 <= j < i ==> (#[trigger] patch(entries, updates)[j]).0 != patch(entries, updates)[i].0,
    decreases updates.len(),
{
    let less = updates.drop_last();
    let before = patch(entries, less);
    let after = patch(entries, updates);
    lemma_position(before, updates.last().0);
    if i < before.len() {
        lemma_new_key_once(entries, less, i);
        assert forall|j: int| 0 <= j < i implies (#[trigger] after[j]).0 != after[i].0 by {
            assert(after[j].0 == before[j].0);
            assert(after[i].0 == before[i].0);
        }
    }
}

/// A write changes what it is given, and `updated` where it sets the time, and nothing else. Every
/// other key reads as it did, with its type, and a key that is given reads as its last update says.
/// The body is the same, and where the entries are plain and the updates no deeper than is read,
/// the write succeeds.
#[verifier::spinoff_prover]
#[verifier::rlimit(40)]
pub proof fn write_changes_only_what_is_given(
    text: Seq<char>,
    updates: Seq<(String, Json)>,
    now: Option<Seq<char>>,
    r: Result<String, MetaError>,
    key: Seq<char>,
)
    requires
        document_entries(text) is Some,
        write_gives(text, updates_of(updates, now), r),
        reads_back(text, updates_of(updates, now)) || (plain_mapping(document_entries(text)->0)
            && shallow_members(updates, 127)),
    ensures
        r is Ok,
        split_spec(r->Ok_0@).1 == split_spec(text).1,
        document_entries(r->Ok_0@) is Some,
        changed_by(
            document_entries(text)->0,
            document_entries(r->Ok_0@)->0,
            changes_of(updates, now),
        ),
        (forall|i: int| 0 <= i < updates.len() ==> (#[trigger] updates[i]).0@ != key) && (now is Some
            ==> key != "updated"@) ==> read_spec(r->Ok_0@, Some(key)) == read_spec(text, Some(key))
            && read_typed_spec(r->Ok_0@, Some(key)) == read_typed_spec(text, Some(key)),
        now matches Some(time) ==> read_spec(r->Ok_0@, Some("updated"@)) == Some(JsonTree::Str(time)),
        forall|i: int| #[trigger]
            named_last(updates, key, i) && !(now is Some && key == "updated"@) ==> read_spec(
                r->Ok_0@,
                Some(key),
            ) == Some(yaml_to_json_spec(json_to_yaml_spec(updates[i].1))),
{
    let all = updates_of(updates, now);
    if !reads_back(text, all) {
        writes_stay_plain(text, updates, now);
    }
    assert(r is Ok);
    let written = r->Ok_0@;
    lemma_changes_of(updates, now);
    lemma_written_entries(text, all, written);
    lemma_given_updates(updates, now, key);
    lemma_given_updates(updates, now, "updated"@);
    read_after_write(text, all, written, key);
    read_after_write(text, all, written, "updated"@);
}

proof fn lemma_written_entries(
    text: Seq<char>,
    changes: Seq<(Seq<char>, YamlTree)>,
    written: Seq<char>,
)
    requires
        document_entries(text) is Some,
        patches(text, changes, written),
        reads_back(text, changes),
    ensures
        split_spec(written).1 == split_spec(text).1,
        document_entries(written) is Some,
        changed_by(document_entries(text)->0, document_entries(written)->0, changes),
{
    patch_changes_nothing_else(document_entries(text)->0, changes);
}

proof fn lemma_given_updates(
    updates: Seq<(String, Json)>,
    now: Option<Seq<char>>,
    key: Seq<char>,
)
    ensures
        (forall|i: int| 0 <= i < updates.len() ==> (#[trigger] updates[i]).0@ != key) && (now is Some
            ==> key != "updated"@) ==> update_of(updates_of(updates, now), key) is None,
        now is Some && key == "updated"@ ==> update_of(updates_of(updates, now), key) == Some(
            YamlTree::Str(now->0),
        ),
        forall|i: int| #[trigger]
            named_last(updates, key, i) && !(now is Some && key == "updated"@) ==> update_of(
                updates_of(updates, now),
                key,
            ) == Some(json_to_yaml_spec(updates[i].1)),
{
    let all = updates_of(updates, now);
    lemma_changes_of(updates, now);
    if now is Some && key == "updated"@ {
        lemma_update_of(all, all.len() - 1);
    }
    lemma_last_change(all, key);
    if (forall|i: int| 0 <= i < updates.len() ==> (#[trigger] updates[i]).0@ != key) && (now is Some
        ==> key != "updated"@) {
        if update_of(all, key) is Some {
            let k = choose|k: int| #[trigger]
                last_change(all, key, k) && update_of(all, key) == Some(all[k].1);
            if k < updates.len() {
                assert(updates[k].0@ == key);
            }
        }
    }
    assert forall|i: int| #[trigger]
        named_last(updates, key, i) && !(now is Some && key == "updated"@) implies update_of(all, key)
        == Some(json_to_yaml_spec(updates[i].1)) by {
        assert forall|j: int| i < j < all.len() implies (#[trigger] all[j]).0 != all[i].0 by {
            if j < updates.len() {
                assert(updates[j].0@ != key);
            }
        }
        lemma_update_of(all, i);
    }
}

/// A write fails on front matter that is no YAML, and says so. It gives the text that there was with
/// other front matter in it.
pub proof fn a_write_replaces_the_front_matter(
    text: Seq<char>,
    updates: Seq<(String, Json)>,
    now: Option<Seq<char>>,
    r: Result<String, MetaError>,
)
    requires
        write_gives(text, updates_of(updates, now), r),
    ensures
        document_entries(text) is None <==> (r matches Err(MetaError::InvalidYaml(_))),
        r matches Ok(written) ==> exists|front: Seq<char>| written@ == #[trigger] replace_spec(
            text,
            front,
        ),
{
    lemma_fit_from(text, updates_of(updates, now), 0);
    if let Ok(written) = r {
        let all = updates_of(updates, now);
        match first_fit(text, all) {
            Some(k) => {
                let front = spliced(
                    layout_in(split_spec(text).0->0, k)->0,
                    names_in(text, all, k),
                    patched(text, all),
                    document_entries(text)->0.len() as int,
                )->0;
                assert(written@ == replace_spec(text, front + tail_in(k)));
            },
            None => {
                let lines = dump_lines(patched(text, all))->0;
                assert(written@ == replace_spec(text, trimmed(lines)) || written@ == replace_spec(
                    text,
                    lines,
                ));
            },
        }
    }
}

/// What is read of a document: of a key the value of the first entry with it, and null where no
/// entry has it; without a key all entries, as an object. With types, each value is wrapped with
/// its type. Of front matter that is no YAML nothing is read.
pub proof fn reading_finds_the_entries(text: Seq<char>, key: Seq<char>)
    ensures
        document_entries(text) is None ==> read_spec(text, Some(key)) is None && read_spec(text, None)
            is None && read_typed_spec(text, Some(key)) is None && read_typed_spec(text, None) is None,
        document_entries(text) matches Some(entries) ==> {
            &&& forall|i: int|
                0 <= i < entries.len() && (#[trigger] entries[i]).0 == YamlTree::Str(key) && (forall|
                    j: int,
                |
                    0 <= j < i ==> (#[trigger] entries[j]).0 != YamlTree::Str(key)) ==> read_spec(
                    text,
                    Some(key),
                ) == Some(yaml_to_json_spec(entries[i].1)) && read_typed_spec(text, Some(key))
                    == Some(annotate_spec(entries[i].1))
            &&& (forall|i: int|
                0 <= i < entries.len() ==> (#[trigger] entries[i]).0 != YamlTree::Str(key))
                ==> read_spec(text, Some(key)) == Some(JsonTree::Null) && read_typed_spec(
                text,
                Some(key),
            ) == Some(annotate_spec(YamlTree::Null))
            &&& read_spec(text, None) == Some(yaml_to_json_spec(YamlTree::Entries(entries)))
            &&& read_typed_spec(text, None) is Some
            &&& read_typed_spec(text, None)->0 is Object
            &&& read_typed_spec(text, None)->0->Object_0.dom().contains(key) <==> exists|i: int|
                0 <= i < entries.len() && (#[trigger] entries[i]).0 == YamlTree::Str(key)
            &&& distinct_keys(entries) ==> forall|i: int|
                0 <= i < entries.len() && (#[trigger] entries[i]).0 == YamlTree::Str(key)
                    ==> read_typed_spec(text, None)->0->Object_0[key] == annotate_spec(entries[i].1)
        },
{
    if let Some(entries) = document_entries(text) {
        lemma_position(entries, key);
        lemma_entries_typed(entries, key);
        yaml_becomes_json_by_parts(YamlTree::Entries(entries));
        assert(read_typed_spec(text, None)->0->Object_0.dom() == entries_to_json(entries).dom());
        assert(yaml_to_json_spec(YamlTree::Entries(entries))->Object_0 == entries_to_json(entries));
        assert forall|i: int|
            0 <= i < entries.len() && (#[trigger] entries[i]).0 == YamlTree::Str(key) && (forall|j: int|
                0 <= j < i ==> (#[trigger] entries[j]).0 != YamlTree::Str(key)) implies read_spec(
            text,
            Some(key),
        ) == Some(yaml_to_json_spec(entries[i].1)) && read_typed_spec(text, Some(key)) == Some(
            annotate_spec(entries[i].1),
        ) by {
            assert(key_at(entries, key, i));
        }
        if distinct_keys(entries) {
            assert forall|i: int|
                0 <= i < entries.len() && (#[trigger] entries[i]).0 == YamlTree::Str(key) implies
                read_typed_spec(text, None)->0->Object_0[key] == annotate_spec(entries[i].1) by {
                assert forall|j: int| 0 <= j < i implies (#[trigger] entries[j]).0 != YamlTree::Str(
                    key,
                ) by {
                    if entries[j].0 == YamlTree::Str(key) {
                        assert(entries[j].0 != entries[i].0);
                    }
                }
                assert(key_at(entries, key, i));
            }
        }
    }
}

/// The version that a bump starts from is the string under `version`, behind any tags, and `0.1.0`
/// where there is no such entry or its value is no string.
pub proof fn a_bump_starts_from_the_version(entries: Seq<(YamlTree, YamlTree)>)
    ensures
        forall|i: int|
            0 <= i < entries.len() && (#[trigger] entries[i]).0 == YamlTree::Str("version"@) && (forall|
                j: int,
            |
                0 <= j < i ==> (#[trigger] entries[j]).0 != YamlTree::Str("version"@)) ==> match
                without_tags(entries[i].1) {
                YamlTree::Str(v) => version_of(entries) == v,
                _ => version_of(entries) == "0.1.0"@,
            },
        (forall|i: int|
            0 <= i < entries.len() ==> (#[trigger] entries[i]).0 != YamlTree::Str("version"@))
            ==> version_of(entries) == "0.1.0"@,
{
    lemma_position(entries, "version"@);
    assert forall|i: int|
        0 <= i < entries.len() && (#[trigger] entries[i]).0 == YamlTree::Str("version"@) && (forall|
            j: int,
        |
            0 <= j < i ==> (#[trigger] entries[j]).0 != YamlTree::Str("version"@)) implies match
        without_tags(entries[i].1) {
        YamlTree::Str(v) => version_of(entries) == v,
        _ => version_of(entries) == "0.1.0"@,
    } by {
        assert(key_at(entries, "version"@, i));
        lemma_untagged(entries[i].1);
    }
}

proof fn lemma_untagged(t: YamlTree)
    ensures
        untagged(t) == without_tags(t),
    decreases t,
{
    if let YamlTree::Tagged(_, value) = t {
        lemma_untagged(*value);
    }
}

/// A bump changes `version` and `updated` and nothing else: the version to the one that follows, and
/// the time to the one that is given. It gives that version. The body is the same. What is wrong
/// with the version or the level is told, and so is front matter that is no YAML.
#[verifier::spinoff_prover]
#[verifier::rlimit(40)]
pub proof fn a_bump_changes_only_version_and_time(
    text: Seq<char>,
    level: Seq<char>,
    now: Seq<char>,
    r: Result<(String, String), MetaError>,
)
    requires
        bump_gives(text, level, now, r),
    ensures
        document_entries(text) is None ==> (r matches Err(MetaError::InvalidYaml(_))),
        document_entries(text) matches Some(entries) ==> match bump_spec(version_of(entries), level) {
            Err(fault) => r matches Err(MetaError::Semver(e)) && e@ == fault,
            Ok(next) => {
                let changes = seq![
                    ("version"@, YamlTree::Str(next)),
                    ("updated"@, YamlTree::Str(now)),
                ];
                plain_mapping(entries) || reads_back(text, changes) ==> match r {
                    Ok((new, written)) => {
                        &&& new@ == next
                        &&& split_spec(written@).1 == split_spec(text).1
                        &&& document_entries(written@) is Some
                        &&& changed_by(entries, document_entries(written@)->0, changes)
                        &&& read_spec(written@, Some("version"@)) == Some(JsonTree::Str(next))
                        &&& read_spec(written@, Some("updated"@)) == Some(JsonTree::Str(now))
                    },
                    Err(_) => false,
                }
            },
        },
        version_overflows(text, level) <==> (document_entries(text) matches Some(entries)
            && bump_overflows(version_of(entries), level)),
{
    if let Some(entries) = document_entries(text) {
        if let Ok(next) = bump_spec(version_of(entries), level) {
            let changes = bump_updates(next, now);
            assert(changes == seq![("version"@, YamlTree::Str(next)), ("updated"@, YamlTree::Str(now))]);
            if plain_mapping(entries) {
                bumps_stay_plain(text, level, now);
            }
            if plain_mapping(entries) || reads_back(text, changes) {
                assert(reads_back(text, changes));
                if let Ok((new, written)) = r {
                    lemma_written_bump(text, next, now, written);
                }
            }
        }
    }
}

proof fn lemma_written_bump(text: Seq<char>, next: Seq<char>, now: Seq<char>, written: String)
    requires
        document_entries(text) is Some,
        write_gives(text, bump_updates(next, now), Ok(written)),
        reads_back(text, bump_updates(next, now)),
    ensures
        split_spec(written@).1 == split_spec(text).1,
        document_entries(written@) is Some,
        changed_by(
            document_entries(text)->0,
            document_entries(written@)->0,
            bump_updates(next, now),
        ),
        read_spec(written@, Some("version"@)) == Some(JsonTree::Str(next)),
        read_spec(written@, Some("updated"@)) == Some(JsonTree::Str(now)),
{
    lemma_written_bump_reads(text, next, now, written@);
    patch_changes_nothing_else(document_entries(text)->0, bump_updates(next, now));
}

proof fn lemma_written_bump_reads(
    text: Seq<char>,
    next: Seq<char>,
    now: Seq<char>,
    written: Seq<char>,
)
    requires
        document_entries(text) is Some,
        patches(text, bump_updates(next, now), written),
        reads_back(text, bump_updates(next, now)),
    ensures
        read_spec(written, Some("version"@)) == Some(JsonTree::Str(next)),
        read_spec(written, Some("updated"@)) == Some(JsonTree::Str(now)),
{
    let changes = bump_updates(next, now);
    reveal_strlit("version");
    reveal_strlit("updated");
    assert("version"@[0] == 'v');
    assert("updated"@[0] == 'u');
    lemma_update_of(changes, 0);
    lemma_update_of(changes, 1);
    read_after_write(text, changes, written, "version"@);
    read_after_write(text, changes, written, "updated"@);
}

/// How deep a JSON value nests, part by part.
pub proof fn shallow_values_by_parts(v: Json, depth: nat)
    ensures
        !(v is Array) && !(v is Object) ==> shallow(v, depth),
        v matches Json::Array(items) ==> (shallow(v, depth + 1) <==> forall|i: int|
            0 <= i < items@.len() ==> shallow(#[trigger] items@[i], depth)),
        v matches Json::Object(members) ==> (shallow(v, depth + 1) <==> forall|i: int|
            0 <= i < members@.len() ==> shallow((#[trigger] members@[i]).1, depth)),
        v matches Json::Object(members) ==> (shallow_members(members@, depth) <==> shallow(
            v,
            depth + 1,
        )),
{
    assert((depth + 1 - 1) as nat == depth);
    if let Json::Object(members) = v {
        assert(shallow(v, depth + 1) == shallow_members(members@, depth));
        assert(shallow_members(members@, depth) == forall|i: int|
            0 <= i < members@.len() ==> shallow((#[trigger] members@[i]).1, depth));
    }
}

/// Where front matter that is patched only where it is asked for reads as it should, that is what is
/// written.
pub proof fn the_least_change_is_written(
    text: Seq<char>,
    updates: Seq<(String, Json)>,
    now: Option<Seq<char>>,
    written: String,
    front: Seq<char>,
    names: Seq<Seq<char>>,
    patched_front: Seq<char>,
)
    requires
        document_entries(text) is Some,
        write_gives(text, updates_of(updates, now), Ok(written)),
        split_spec(text).0 == Some(front),
        !all_space(front),
        names.len() == changes_of(updates, now).len(),
        forall|i: int| 0 <= i < names.len() ==> #[trigger] names[i] == changes_of(updates, now)[i].0,
        ({
            let (before, after) = (
                document_entries(text)->0,
                patch(document_entries(text)->0, changes_of(updates, now)),
            );
            &&& spliced(whole(block_layout(front)), names, after, before.len() as int) == Some(
                patched_front,
            )
            &&& document_entries(replace_spec(text, patched_front)) == Some(after)
            &&& split_spec(replace_spec(text, patched_front)).1 == split_spec(text).1
        }),
    ensures
        written@ == replace_spec(text, patched_front),
{
    let all = updates_of(updates, now);
    lemma_changes_of(updates, now);
    assert(names_of(all) =~= names);
    assert(patched_front + tail_in(0) =~= patched_front);
    assert(attempt(text, all, 0) == Some(replace_spec(text, patched_front)));
    assert(fits(text, all, 0));
}

/// A key that is given is the one that is read, and without a key all of the front matter is.
pub proof fn keys_are_read_as_given(key: Option<&str>)
    ensures
        match key {
            Some(k) => key_view(key) == Some(k@),
            None => key_view(key) is None,
        },
{
}

} // verus!
