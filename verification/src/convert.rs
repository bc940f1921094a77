//! From JSON values to YAML values and back.

use vstd::prelude::*;

use crate::entries::{
    distinct_keys, distinct_updates_are_the_entries, key_at, lemma_position, lookup, patch,
    patch_keeps_key_order, patch_keeps_keys_distinct, patch_sets_the_updates, position, put,
    put_sets_one_key, update_of,
};
use crate::number::{
    finite, fits_i64, json_number, num_to_json, num_to_yaml, number_to_json, number_to_yaml, Num,
};
use crate::value::{
    entry_trees, json_trees, lemma_push_drop, member_map, member_trees, named_last, yaml_trees, Json,
    JsonTree, Yaml, YamlTree,
};
use crate::yaml::{close_value, mapping_entries, mapping_insert, value_tree, value_trees, YamlNode};

verus! {

/// A YAML value as JSON: a tag is left out, as are entries whose key is no string, and a
/// number that JSON cannot write becomes null.
pub open spec fn yaml_to_json_spec(t: YamlTree) -> JsonTree
    decreases t,
{
    match t {
        YamlTree::Null => JsonTree::Null,
        YamlTree::Bool(b) => JsonTree::Bool(b),
        YamlTree::Number(n) => match num_to_json(n) {
            Some(m) => JsonTree::Number(m),
            None => JsonTree::Null,
        },
        YamlTree::Str(s) => JsonTree::Str(s),
        YamlTree::List(items) => JsonTree::List(list_to_json(items)),
        YamlTree::Entries(entries) => JsonTree::Object(entries_to_json(entries)),
        YamlTree::Tagged(_, value) => yaml_to_json_spec(*value),
    }
}

/// Each of `items` as JSON.
pub open spec fn list_to_json(items: Seq<YamlTree>) -> Seq<JsonTree>
    decreases items,
{
    if items.len() == 0 {
        Seq::empty()
    } else {
        list_to_json(items.drop_last()).push(yaml_to_json_spec(items.last()))
    }
}

/// The entries whose key is a string, by that string. Of two with the same key the later one
/// counts.
pub open spec fn entries_to_json(entries: Seq<(YamlTree, YamlTree)>) -> Map<Seq<char>, JsonTree>
    decreases entries,
{
    if entries.len() == 0 {
        Map::empty()
    } else {
        let before = entries_to_json(entries.drop_last());
        match entries.last().0 {
            YamlTree::Str(key) => before.insert(key, yaml_to_json_spec(entries.last().1)),
            _ => before,
        }
    }
}

/// A YAML value as JSON.
pub fn yaml_to_json(v: Yaml) -> (r: Json)
    ensures
        r@ == yaml_to_json_spec(v@),
    decreases v,
{
    broadcast use lemma_push_drop;

    match v {
        Yaml::Null => Json::Null,
        Yaml::Bool(b) => Json::Bool(b),
        Yaml::Number(n) => match number_to_json(&n) {
            Some(m) => Json::Number(m),
            None => Json::Null,
        },
        Yaml::String(s) => Json::String(s),
        Yaml::Sequence(items) => {
            let mut out: Vec<Json> = Vec::new();
            let ghost all = items@;
            #[verifier::loop_isolation(false)]
            for item in it: items
                invariant
                    it.seq() == all,
                    json_trees(out@) == list_to_json(yaml_trees(all.take(it.index() as int))),
            {
                let ghost k = it.index() as int;
                proof {
                    assert(all.take(k + 1).drop_last() =~= all.take(k));
                    assert(decreases_to!(v => all[k]));
                }
                out.push(yaml_to_json(item));
            }
            assert(all.take(all.len() as int) =~= all);
            Json::Array(out)
        },
        Yaml::Mapping(entries) => {
            let mut out: Vec<(String, Json)> = Vec::new();
            let ghost all = entries@;
            #[verifier::loop_isolation(false)]
            for entry in it: entries
                invariant
                    it.seq() == all,
                    member_map(member_trees(out@)) == entries_to_json(
                        entry_trees(all.take(it.index() as int)),
                    ),
            {
                let ghost k = it.index() as int;
                proof {
                    assert(all.take(k + 1).drop_last() =~= all.take(k));
                    assert(decreases_to!(v => all[k]));
                }
                match entry {
                    (Yaml::String(key), value) => {
                        out.push((key, yaml_to_json(value)));
                    },
                    (key, _) => {
                        assert(!(key@ is Str));
                    },
                }
            }
            assert(all.take(all.len() as int) =~= all);
            Json::Object(out)
        },
        Yaml::Tagged(_, value) => yaml_to_json(*value),
    }
}

/// A JSON value as YAML: an integer that does not fit in 64 bits with a sign becomes a
/// floating-point number, and the members of an object are set one after the other.
pub open spec fn json_to_yaml_spec(v: Json) -> YamlTree
    decreases v,
{
    match v {
        Json::Null => YamlTree::Null,
        Json::Bool(b) => YamlTree::Bool(b),
        Json::Number(n) => YamlTree::Number(num_to_yaml(json_number(n))),
        Json::String(s) => YamlTree::Str(s@),
        Json::Array(items) => YamlTree::List(list_to_yaml(items@)),
        Json::Object(members) => YamlTree::Entries(patch(Seq::empty(), members_to_yaml(members@))),
    }
}

/// Each of `items` as YAML.
pub open spec fn list_to_yaml(items: Seq<Json>) -> Seq<YamlTree>
    decreases items,
{
    if items.len() == 0 {
        Seq::empty()
    } else {
        list_to_yaml(items.drop_last()).push(json_to_yaml_spec(items.last()))
    }
}

/// The names of `members`, and their values as YAML.
pub open spec fn members_to_yaml(members: Seq<(String, Json)>) -> Seq<(Seq<char>, YamlTree)>
    decreases members,
{
    if members.len() == 0 {
        Seq::empty()
    } else {
        members_to_yaml(members.drop_last()).push(
            (members.last().0@, json_to_yaml_spec(members.last().1)),
        )
    }
}

/// A JSON value as YAML.
pub fn json_to_yaml(v: Json) -> (r: serde_yaml::Value)
    ensures
        value_tree(r) == json_to_yaml_spec(v),
    decreases v,
{
    broadcast use lemma_push_drop;

    match v {
        Json::Null => close_value(YamlNode::Null),
        Json::Bool(b) => close_value(YamlNode::Bool(b)),
        Json::Number(n) => close_value(YamlNode::Number(number_to_yaml(&n))),
        Json::String(s) => close_value(YamlNode::String(s)),
        Json::Array(items) => {
            let mut out: Vec<serde_yaml::Value> = Vec::new();
            let ghost all = items@;
            assert(value_trees(out@) =~= Seq::empty());
            #[verifier::loop_isolation(false)]
            for item in it: items
                invariant
                    it.seq() == all,
                    value_trees(out@) == list_to_yaml(all.take(it.index() as int)),
            {
                let ghost k = it.index() as int;
                let ghost before = out@;
                proof {
                    assert(all.take(k + 1).drop_last() =~= all.take(k));
                    assert(decreases_to!(v => all[k]));
                }
                let value = json_to_yaml(item);
                assert(value_trees(before.push(value)) =~= value_trees(before).push(value_tree(value)));
                out.push(value);
            }
            assert(all.take(all.len() as int) =~= all);
            close_value(YamlNode::Sequence(out))
        },
        Json::Object(members) => {
            let mut out = serde_yaml::Mapping::new();
            let ghost all = members@;
            #[verifier::loop_isolation(false)]
            for member in it: members
                invariant
                    it.seq() == all,
                    mapping_entries(out) == patch(
                        Seq::empty(),
                        members_to_yaml(all.take(it.index() as int)),
                    ),
            {
                let ghost k = it.index() as int;
                proof {
                    assert(all.take(k + 1).drop_last() =~= all.take(k));
                    assert(decreases_to!(v => all[k]));
                }
                let (name, value) = member;
                mapping_insert(&mut out, name, json_to_yaml(value));
            }
            assert(all.take(all.len() as int) =~= all);
            close_value(YamlNode::Mapping(out))
        },
    }
}

/// An object that was made of entries with distinct keys has under each name what the entry
/// with that key holds, and no other names.
pub proof fn entries_to_json_by_key(entries: Seq<(YamlTree, YamlTree)>, key: Seq<char>)
    requires
        distinct_keys(entries),
    ensures
        entries_to_json(entries).dom().contains(key) <==> lookup(entries, key) is Some,
        lookup(entries, key) matches Some(value) ==> entries_to_json(entries)[key]
            == yaml_to_json_spec(value),
    decreases entries.len(),
{
    lemma_position(entries, key);
    if entries.len() > 0 {
        let less = entries.drop_last();
        assert(distinct_keys(less)) by {
            assert forall|i: int, j: int|
                0 <= i < j < less.len() && #[trigger] less[i].0 is Str implies less[i].0
                != #[trigger] less[j].0 by {
                assert(entries[i].0 != entries[j].0);
            }
        }
        entries_to_json_by_key(less, key);
        lemma_position(less, key);
        let last = entries.len() - 1;
        if let Some(i) = position(less, key) {
            assert(key_at(less, key, i));
            assert(less[i] == entries[i]);
            assert forall|j: int| 0 <= j < i implies entries[j].0 != YamlTree::Str(key) by {
                assert(less[j] == entries[j]);
            }
            assert(key_at(entries, key, i));
            assert(entries[i].0 != entries[last].0);
        } else {
            assert forall|j: int| 0 <= j < last implies entries[j].0 != YamlTree::Str(key) by {
                assert(less[j] == entries[j]);
            }
            if entries.last().0 == YamlTree::Str(key) {
                assert(key_at(entries, key, last));
            }
        }
    }
}

/// YAML holds every number of the value exactly.
pub open spec fn numbers_fit(v: Json) -> bool
    decreases v,
{
    match v {
        Json::Number(n) => match json_number(n) {
            Num::Int(i) => fits_i64(i),
            Num::Float(b) => finite(b),
        },
        Json::Array(items) => forall|i: int| 0 <= i < items@.len() ==> numbers_fit(#[trigger] items@[i]),
        Json::Object(members) => forall|i: int|
            0 <= i < members@.len() ==> numbers_fit((#[trigger] members@[i]).1),
        _ => true,
    }
}

/// A JSON value that becomes YAML and JSON again is the same value, unless it holds an integer
/// that does not fit in 64 bits with a sign.
pub proof fn json_comes_back(v: Json)
    requires
        numbers_fit(v),
    ensures
        yaml_to_json_spec(json_to_yaml_spec(v)) == v@,
    decreases v,
{
    match v {
        Json::Array(items) => {
            lemma_list_comes_back(items@);
        },
        Json::Object(members) => {
            lemma_members_come_back(members@);
        },
        _ => {},
    }
}

proof fn lemma_list_comes_back(items: Seq<Json>)
    requires
        forall|i: int| 0 <= i < items.len() ==> numbers_fit(#[trigger] items[i]),
    ensures
        list_to_json(list_to_yaml(items)) == json_trees(items),
    decreases items,
{
    broadcast use lemma_push_drop;

    if items.len() > 0 {
        let less = items.drop_last();
        assert forall|i: int| 0 <= i < less.len() implies numbers_fit(#[trigger] less[i]) by {
            assert(less[i] == items[i]);
        }
        lemma_list_comes_back(less);
        json_comes_back(items.last());
    }
}

proof fn lemma_members_come_back(members: Seq<(String, Json)>)
    requires
        forall|i: int| 0 <= i < members.len() ==> numbers_fit((#[trigger] members[i]).1),
    ensures
        entries_to_json(patch(Seq::empty(), members_to_yaml(members))) == member_map(
            member_trees(members),
        ),
    decreases members,
{
    broadcast use lemma_push_drop;

    if members.len() > 0 {
        let less = members.drop_last();
        assert forall|i: int| 0 <= i < less.len() implies numbers_fit((#[trigger] less[i]).1) by {
            assert(less[i] == members[i]);
        }
        lemma_members_come_back(less);
        json_comes_back(members.last().1);
        let before = patch(Seq::empty(), members_to_yaml(less));
        let (name, value) = (members.last().0@, json_to_yaml_spec(members.last().1));
        let after = put(before, name, value);
        patch_keeps_keys_distinct(Seq::empty(), members_to_yaml(less));
        patch_keeps_keys_distinct(Seq::empty(), members_to_yaml(members));
        let expected = entries_to_json(before).insert(name, yaml_to_json_spec(value));
        assert forall|key: Seq<char>|
            {
                &&& #[trigger] entries_to_json(after).dom().contains(key) == expected.dom().contains(key)
                &&& expected.dom().contains(key) ==> entries_to_json(after)[key] == expected[key]
            } by {
            entries_to_json_by_key(before, key);
            entries_to_json_by_key(after, key);
            put_sets_one_key(before, name, value, key);
        }
        assert(entries_to_json(after) =~= expected);
    }
}

/// The names of `members` and their values as YAML, one by one.
pub proof fn lemma_members_to_yaml(members: Seq<(String, Json)>)
    ensures
        members_to_yaml(members).len() == members.len(),
        forall|i: int|
            0 <= i < members.len() ==> #[trigger] members_to_yaml(members)[i] == (
                members[i].0@,
                json_to_yaml_spec(members[i].1),
            ),
    decreases members.len(),
{
    if members.len() > 0 {
        lemma_members_to_yaml(members.drop_last());
    }
}

/// What a YAML value becomes in JSON, part by part: every item of a sequence, every entry whose key
/// is a string, and the value behind a tag.
pub proof fn yaml_becomes_json_by_parts(t: YamlTree)
    ensures
        match t {
            YamlTree::Null => yaml_to_json_spec(t) == JsonTree::Null,
            YamlTree::Bool(b) => yaml_to_json_spec(t) == JsonTree::Bool(b),
            YamlTree::Number(n) => match num_to_json(n) {
                Some(m) => yaml_to_json_spec(t) == JsonTree::Number(m),
                None => yaml_to_json_spec(t) == JsonTree::Null,
            },
            YamlTree::Str(s) => yaml_to_json_spec(t) == JsonTree::Str(s),
            YamlTree::List(items) => {
                &&& yaml_to_json_spec(t) is List
                &&& yaml_to_json_spec(t)->List_0.len() == items.len()
                &&& forall|i: int|
                    0 <= i < items.len() ==> #[trigger] yaml_to_json_spec(t)->List_0[i]
                        == yaml_to_json_spec(items[i])
            },
            YamlTree::Entries(entries) => {
                &&& yaml_to_json_spec(t) is Object
                &&& forall|name: Seq<char>| #[trigger]
                    yaml_to_json_spec(t)->Object_0.dom().contains(name) <==> exists|i: int|
                        0 <= i < entries.len() && (#[trigger] entries[i]).0 == YamlTree::Str(name)
                &&& forall|i: int|
                    0 <= i < entries.len() && (#[trigger] entries[i]).0 is Str && (forall|j: int|
                        i < j < entries.len() ==> (#[trigger] entries[j]).0 != entries[i].0)
                        ==> yaml_to_json_spec(t)->Object_0[entries[i].0->Str_0] == yaml_to_json_spec(
                        entries[i].1,
                    )
            },
            YamlTree::Tagged(_, value) => yaml_to_json_spec(t) == yaml_to_json_spec(*value),
        },
{
    if let YamlTree::List(items) = t {
        lemma_list_to_json(items);
    }
    if let YamlTree::Entries(entries) = t {
        assert forall|name: Seq<char>| #[trigger]
            yaml_to_json_spec(t)->Object_0.dom().contains(name) == exists|i: int|
                0 <= i < entries.len() && (#[trigger] entries[i]).0 == YamlTree::Str(name) by {
            lemma_object_names(entries, name);
        }
        assert forall|i: int|
            0 <= i < entries.len() && (#[trigger] entries[i]).0 is Str && (forall|j: int|
                i < j < entries.len() ==> (#[trigger] entries[j]).0 != entries[i].0) implies
            yaml_to_json_spec(t)->Object_0[entries[i].0->Str_0] == yaml_to_json_spec(entries[i].1) by {
            lemma_object_values(entries, i);
        }
    }
}

proof fn lemma_list_to_json(items: Seq<YamlTree>)
    ensures
        list_to_json(items).len() == items.len(),
        forall|i: int|
            0 <= i < items.len() ==> #[trigger] list_to_json(items)[i] == yaml_to_json_spec(items[i]),
    decreases items.len(),
{
    if items.len() > 0 {
        lemma_list_to_json(items.drop_last());
    }
}

proof fn lemma_object_names(entries: Seq<(YamlTree, YamlTree)>, name: Seq<char>)
    ensures
        entries_to_json(entries).dom().contains(name) <==> exists|i: int|
            0 <= i < entries.len() && (#[trigger] entries[i]).0 == YamlTree::Str(name),
    decreases entries.len(),
{
    if entries.len() > 0 {
        let less = entries.drop_last();
        let last = entries.len() - 1;
        lemma_object_names(less, name);
        if entries_to_json(less).dom().contains(name) {
            let i = choose|i: int|
                0 <= i < less.len() && (#[trigger] less[i]).0 == YamlTree::Str(name);
            assert(entries[i].0 == YamlTree::Str(name));
        }
        if entries[last].0 == YamlTree::Str(name) {
        } else if exists|i: int|
            0 <= i < entries.len() && (#[trigger] entries[i]).0 == YamlTree::Str(name) {
            let i = choose|i: int|
                0 <= i < entries.len() && (#[trigger] entries[i]).0 == YamlTree::Str(name);
            assert(less[i].0 == YamlTree::Str(name));
        }
    }
}

proof fn lemma_object_values(entries: Seq<(YamlTree, YamlTree)>, i: int)
    requires
        0 <= i < entries.len(),
        entries[i].0 is Str,
        forall|j: int| i < j < entries.len() ==> (#[trigger] entries[j]).0 != entries[i].0,
    ensures
        entries_to_json(entries)[entries[i].0->Str_0] == yaml_to_json_spec(entries[i].1),
    decreases entries.len(),
{
    if i < entries.len() - 1 {
        let less = entries.drop_last();
        assert(entries[entries.len() - 1].0 != entries[i].0);
        assert forall|j: int| i < j < less.len() implies (#[trigger] less[j]).0 != less[i].0 by {
            assert(less[j] == entries[j]);
        }
        lemma_object_values(less, i);
    }
}

/// What a JSON value becomes in YAML, part by part. An object becomes a mapping with the names as
/// keys, each once, in the order in which they first come, and with the value of the last member of
/// each name.
pub proof fn json_becomes_yaml_by_parts(v: Json)
    ensures
        match v {
            Json::Null => json_to_yaml_spec(v) == YamlTree::Null,
            Json::Bool(b) => json_to_yaml_spec(v) == YamlTree::Bool(b),
            Json::Number(n) => json_to_yaml_spec(v) == YamlTree::Number(num_to_yaml(json_number(n))),
            Json::String(s) => json_to_yaml_spec(v) == YamlTree::Str(s@),
            Json::Array(items) => {
                &&& json_to_yaml_spec(v) is List
                &&& json_to_yaml_spec(v)->List_0.len() == items@.len()
                &&& forall|i: int|
                    0 <= i < items@.len() ==> #[trigger] json_to_yaml_spec(v)->List_0[i]
                        == json_to_yaml_spec(items@[i])
            },
            Json::Object(members) => {
                let entries = json_to_yaml_spec(v)->Entries_0;
                &&& json_to_yaml_spec(v) is Entries
                &&& distinct_keys(entries)
                &&& forall|k: int|
                    0 <= k < entries.len() ==> (#[trigger] entries[k]).0 is Str && exists|i: int|
                        #[trigger]
                        named_last(members@, entries[k].0->Str_0, i) && entries[k].1
                            == json_to_yaml_spec(members@[i].1)
                &&& forall|i: int|
                    0 <= i < members@.len() ==> lookup(entries, (#[trigger] members@[i]).0@) is Some
                &&& (forall|i: int, j: int|
                    0 <= i < j < members@.len() ==> (#[trigger] members@[i]).0@ != (
                    #[trigger] members@[j]).0@) ==> entries.len() == members@.len() && forall|i: int|
                    0 <= i < members@.len() ==> #[trigger] entries[i] == (
                        YamlTree::Str(members@[i].0@),
                        json_to_yaml_spec(members@[i].1),
                    )
            },
        },
{
    if let Json::Array(items) = v {
        lemma_items_to_yaml(items@);
    }
    if let Json::Object(members) = v {
        lemma_object_to_yaml(members@);
    }
}

proof fn lemma_items_to_yaml(items: Seq<Json>)
    ensures
        list_to_yaml(items).len() == items.len(),
        forall|i: int|
            0 <= i < items.len() ==> #[trigger] list_to_yaml(items)[i] == json_to_yaml_spec(items[i]),
    decreases items.len(),
{
    if items.len() > 0 {
        lemma_items_to_yaml(items.drop_last());
    }
}

/// The last update of a key is that of the last member of that name.
pub proof fn lemma_last_update(members: Seq<(String, Json)>, name: Seq<char>)
    ensures
        match update_of(members_to_yaml(members), name) {
            Some(value) => exists|i: int| #[trigger]
                named_last(members, name, i) && value == json_to_yaml_spec(members[i].1),
            None => forall|i: int| 0 <= i < members.len() ==> (#[trigger] members[i]).0@ != name,
        },
    decreases members.len(),
{
    broadcast use lemma_push_drop;

    if members.len() > 0 {
        let less = members.drop_last();
        let last = members.len() - 1;
        lemma_last_update(less, name);
        if members[last].0@ == name {
            assert(named_last(members, name, last));
        } else if update_of(members_to_yaml(less), name) is Some {
            let i = choose|i: int| #[trigger]
                named_last(less, name, i) && update_of(members_to_yaml(less), name)
                    == Some(json_to_yaml_spec(less[i].1));
            assert(named_last(members, name, i)) by {
                assert(members[i] == less[i]);
                assert forall|j: int| i < j < members.len() implies (#[trigger] members[j]).0@
                    != name by {
                    if j < last {
                        assert(less[j] == members[j]);
                    }
                }
            }
        } else {
            assert forall|i: int| 0 <= i < members.len() implies (#[trigger] members[i]).0@ != name by {
                if i < last {
                    assert(less[i] == members[i]);
                }
            }
        }
    }
}

proof fn lemma_object_to_yaml(members: Seq<(String, Json)>)
    ensures
        ({
            let entries = patch(Seq::empty(), members_to_yaml(members));
            &&& distinct_keys(entries)
            &&& forall|k: int|
                0 <= k < entries.len() ==> (#[trigger] entries[k]).0 is Str && exists|i: int| #[trigger]
                    named_last(members, entries[k].0->Str_0, i) && entries[k].1 == json_to_yaml_spec(
                        members[i].1,
                    )
            &&& forall|i: int|
                0 <= i < members.len() ==> lookup(entries, (#[trigger] members[i]).0@) is Some
            &&& (forall|i: int, j: int|
                0 <= i < j < members.len() ==> (#[trigger] members[i]).0@ != (
                #[trigger] members[j]).0@) ==> entries.len() == members.len() && forall|i: int|
                0 <= i < members.len() ==> #[trigger] entries[i] == (
                    YamlTree::Str(members[i].0@),
                    json_to_yaml_spec(members[i].1),
                )
        }),
{
    let updates = members_to_yaml(members);
    let entries = patch(Seq::empty(), updates);
    lemma_members_to_yaml(members);
    patch_keeps_keys_distinct(Seq::empty(), updates);
    patch_keeps_key_order(Seq::empty(), updates);
    assert forall|k: int| 0 <= k < entries.len() implies (#[trigger] entries[k]).0 is Str && exists|
        i: int,
    | #[trigger]
        named_last(members, entries[k].0->Str_0, i) && entries[k].1 == json_to_yaml_spec(
            members[i].1,
        ) by {
        let name = entries[k].0->Str_0;
        patch_sets_the_updates(Seq::empty(), updates, name);
        lemma_last_update(members, name);
        lemma_position(entries, name);
        let p = position(entries, name)->0;
        if p < k {
            assert(entries[p].0 != entries[k].0);
        }
        assert(p == k);
    }
    assert forall|i: int| 0 <= i < members.len() implies lookup(
        entries,
        (#[trigger] members[i]).0@,
    ) is Some by {
        assert(updates[i].0 == members[i].0@);
        patch_sets_the_updates(Seq::empty(), updates, members[i].0@);
    }
    if forall|i: int, j: int|
        0 <= i < j < members.len() ==> (#[trigger] members[i]).0@ != (#[trigger] members[j]).0@ {
        assert forall|i: int, j: int| 0 <= i < j < updates.len() implies (#[trigger] updates[i]).0
            != (#[trigger] updates[j]).0 by {
            assert(members[i].0@ != members[j].0@);
        }
        distinct_updates_are_the_entries(updates);
    }
}

} // verus!
