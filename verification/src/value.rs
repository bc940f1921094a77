//! YAML and JSON values.

use vstd::prelude::*;

use crate::number::{json_number, same_number, yaml_number, Num};
use crate::text::same;

verus! {

/// A YAML value.
#[derive(Debug, PartialEq)]
pub enum Yaml {
    Null,
    Bool(bool),
    Number(serde_yaml::Number),
    String(String),
    Sequence(Vec<Yaml>),
    /// The entries in their order.
    Mapping(Vec<(Yaml, Yaml)>),
    /// A value behind a tag.
    Tagged(String, Box<Yaml>),
}

/// A JSON value.
#[derive(Debug, PartialEq)]
pub enum Json {
    Null,
    Bool(bool),
    Number(serde_json::Number),
    String(String),
    Array(Vec<Json>),
    /// The members in some order. Of two with the same name the later one counts.
    Object(Vec<(String, Json)>),
}

/// What a YAML value is.
pub enum YamlTree {
    Null,
    Bool(bool),
    Number(Num),
    Str(Seq<char>),
    List(Seq<YamlTree>),
    Entries(Seq<(YamlTree, YamlTree)>),
    Tagged(Seq<char>, Box<YamlTree>),
}

/// What a JSON value is.
pub enum JsonTree {
    Null,
    Bool(bool),
    Number(Num),
    Str(Seq<char>),
    List(Seq<JsonTree>),
    Object(Map<Seq<char>, JsonTree>),
}

impl Yaml {
    /// What the value is.
    pub open spec fn tree(self) -> YamlTree
        decreases self,
    {
        match self {
            Yaml::Null => YamlTree::Null,
            Yaml::Bool(b) => YamlTree::Bool(b),
            Yaml::Number(n) => YamlTree::Number(yaml_number(n)),
            Yaml::String(s) => YamlTree::Str(s@),
            Yaml::Sequence(items) => YamlTree::List(yaml_trees(items@)),
            Yaml::Mapping(entries) => YamlTree::Entries(entry_trees(entries@)),
            Yaml::Tagged(tag, value) => YamlTree::Tagged(tag@, Box::new((*value).tree())),
        }
    }
}

impl View for Yaml {
    type V = YamlTree;

    open spec fn view(&self) -> YamlTree {
        self.tree()
    }
}

impl Json {
    /// What the value is.
    pub open spec fn tree(self) -> JsonTree
        decreases self,
    {
        match self {
            Json::Null => JsonTree::Null,
            Json::Bool(b) => JsonTree::Bool(b),
            Json::Number(n) => JsonTree::Number(json_number(n)),
            Json::String(s) => JsonTree::Str(s@),
            Json::Array(items) => JsonTree::List(json_trees(items@)),
            Json::Object(members) => JsonTree::Object(member_map(member_trees(members@))),
        }
    }
}

impl View for Json {
    type V = JsonTree;

    open spec fn view(&self) -> JsonTree {
        self.tree()
    }
}

/// The members of an object by their names.
pub open spec fn member_map(members: Seq<(Seq<char>, JsonTree)>) -> Map<Seq<char>, JsonTree>
    decreases members.len(),
{
    if members.len() == 0 {
        Map::empty()
    } else {
        member_map(members.drop_last()).insert(members.last().0, members.last().1)
    }
}

/// What each of `items` is.
pub open spec fn yaml_trees(items: Seq<Yaml>) -> Seq<YamlTree>
    decreases items,
{
    if items.len() == 0 {
        Seq::empty()
    } else {
        yaml_trees(items.drop_last()).push(items.last().tree())
    }
}

/// What the keys and values of `entries` are.
pub open spec fn entry_trees(entries: Seq<(Yaml, Yaml)>) -> Seq<(YamlTree, YamlTree)>
    decreases entries,
{
    if entries.len() == 0 {
        Seq::empty()
    } else {
        entry_trees(entries.drop_last()).push((entries.last().0.tree(), entries.last().1.tree()))
    }
}

/// What each of `items` is.
pub open spec fn json_trees(items: Seq<Json>) -> Seq<JsonTree>
    decreases items,
{
    if items.len() == 0 {
        Seq::empty()
    } else {
        json_trees(items.drop_last()).push(items.last().tree())
    }
}

/// What the names and values of `members` are.
pub open spec fn member_trees(members: Seq<(String, Json)>) -> Seq<(Seq<char>, JsonTree)>
    decreases members,
{
    if members.len() == 0 {
        Seq::empty()
    } else {
        member_trees(members.drop_last()).push((members.last().0@, members.last().1.tree()))
    }
}

/// `a` comes before `b` in the order of their characters.
pub open spec fn precedes(a: Seq<char>, b: Seq<char>) -> bool {
    exists|i: int|
        0 <= i <= a.len() && i < b.len() && #[trigger] a.take(i) == b.take(i) && (i == a.len() || a[i]
            < b[i])
}

/// The members of each object in the value come sorted by their names, each name once.
pub open spec fn in_order(v: Json) -> bool
    decreases v,
{
    match v {
        Json::Array(items) => forall|i: int| 0 <= i < items@.len() ==> in_order(#[trigger] items@[i]),
        Json::Object(members) => members_in_order(members@),
        _ => true,
    }
}

/// `members` come sorted by their names, each name once, and so do those of the objects in them.
pub open spec fn members_in_order(members: Seq<(String, Json)>) -> bool
    decreases members,
{
    &&& forall|i: int, j: int|
        0 <= i < j < members.len() ==> precedes(
            (#[trigger] members[i]).0@,
            (#[trigger] members[j]).0@,
        )
    &&& forall|i: int| 0 <= i < members.len() ==> in_order((#[trigger] members[i]).1)
}

/// The member with the name `name`: the last of that name.
pub open spec fn last_member(members: Seq<(String, Json)>, name: Seq<char>) -> Option<Json>
    decreases members.len(),
{
    if members.len() == 0 {
        None
    } else if members.last().0@ == name {
        Some(members.last().1)
    } else {
        last_member(members.drop_last(), name)
    }
}

/// The last member of a name is the one that an object has.
pub proof fn lemma_last_member(members: Seq<(String, Json)>, name: Seq<char>)
    ensures
        last_member(members, name) is Some <==> member_map(member_trees(members)).dom().contains(name),
        last_member(members, name) matches Some(v) ==> member_map(member_trees(members))[name] == v@,
    decreases members.len(),
{
    if members.len() > 0 {
        let less = members.drop_last();
        lemma_last_member(less, name);
        lemma_member_push(less, members.last().0, members.last().1);
        assert(less.push(members.last()) =~= members);
    }
}

/// What was pushed last is dropped first.
pub broadcast proof fn lemma_push_drop<T>(s: Seq<T>, x: T)
    ensures
        #[trigger] s.push(x).drop_last() == s,
{
    assert(s.push(x).drop_last() =~= s);
}

/// The parts of a sequence, one by one.
pub proof fn lemma_yaml_trees(items: Seq<Yaml>)
    ensures
        yaml_trees(items).len() == items.len(),
        forall|i: int| 0 <= i < items.len() ==> #[trigger] yaml_trees(items)[i] == items[i]@,
    decreases items.len(),
{
    if items.len() > 0 {
        lemma_yaml_trees(items.drop_last());
    }
}

/// The members of an object after one more, by their names.
pub proof fn lemma_member_push(members: Seq<(String, Json)>, name: String, value: Json)
    ensures
        member_map(member_trees(members.push((name, value)))) == member_map(
            member_trees(members),
        ).insert(name@, value@),
{
    broadcast use lemma_push_drop;

}

/// Adds a member to an object that has none of that name, or replaces the one that it has.
pub fn push_member(members: &mut Vec<(String, Json)>, name: &str, value: Json)
    ensures
        member_map(member_trees(final(members)@)) == member_map(member_trees(old(members)@)).insert(
            name@,
            value@,
        ),
{
    let name = name.to_owned();
    proof {
        lemma_member_push(members@, name, value);
    }
    members.push((name, value));
}

/// Where the member of an object with the name `name` stands: the last of that name.
fn member_index(members: &Vec<(String, Json)>, name: &str) -> (r: Option<usize>)
    ensures
        match r {
            Some(i) => i < members@.len() && last_member(members@, name@) == Some(
                members@[i as int].1,
            ),
            None => last_member(members@, name@) is None,
        },
{
    let mut i: usize = members.len();
    assert(members@.take(i as int) =~= members@);
    while i > 0
        invariant
            i <= members@.len(),
            last_member(members@, name@) == last_member(members@.take(i as int), name@),
        decreases i,
    {
        assert(members@.take(i as int).drop_last() =~= members@.take(i - 1));
        if same(members[i - 1].0.as_str(), name) {
            return Some(i - 1);
        }
        i -= 1;
    }
    None
}

/// The member of an object with the name `name`.
pub fn find_member<'a>(members: &'a Vec<(String, Json)>, name: &str) -> (r: Option<&'a Json>)
    ensures
        match r {
            Some(v) => last_member(members@, name@) == Some(*v),
            None => last_member(members@, name@) is None,
        },
{
    match member_index(members, name) {
        Some(i) => Some(&members[i].1),
        None => None,
    }
}

/// The member of an object with the name `name`, taken out of it.
pub fn take_member(members: Vec<(String, Json)>, name: &str) -> (r: Option<Json>)
    ensures
        r == last_member(members@, name@),
{
    let mut members = members;
    match member_index(&members, name) {
        Some(i) => {
            let (_, value) = members.swap_remove(i);
            Some(value)
        },
        None => None,
    }
}

/// Whether two YAML values are the same.
pub fn same_yaml(a: &Yaml, b: &Yaml) -> (r: bool)
    ensures
        r == (a@ == b@),
    decreases a,
{
    match (a, b) {
        (Yaml::Null, Yaml::Null) => true,
        (Yaml::Bool(x), Yaml::Bool(y)) => *x == *y,
        (Yaml::Number(x), Yaml::Number(y)) => same_number(x, y),
        (Yaml::String(x), Yaml::String(y)) => same(x.as_str(), y.as_str()),
        (Yaml::Sequence(x), Yaml::Sequence(y)) => same_items(x, y),
        (Yaml::Mapping(x), Yaml::Mapping(y)) => same_entries(x, y),
        (Yaml::Tagged(tag, x), Yaml::Tagged(other, y)) => same(tag.as_str(), other.as_str())
            && same_yaml(x, y),
        _ => false,
    }
}

/// Whether two sequences have the same items.
fn same_items(a: &Vec<Yaml>, b: &Vec<Yaml>) -> (r: bool)
    ensures
        r == (yaml_trees(a@) == yaml_trees(b@)),
    decreases a,
{
    proof {
        lemma_yaml_trees(a@);
        lemma_yaml_trees(b@);
    }
    if a.len() != b.len() {
        return false;
    }
    let mut i: usize = 0;
    #[verifier::loop_isolation(false)]
    while i < a.len()
        invariant
            i <= a@.len(),
            forall|j: int| 0 <= j < i ==> #[trigger] yaml_trees(a@)[j] == yaml_trees(b@)[j],
        decreases a@.len() - i,
    {
        assert(decreases_to!(a => a@[i as int]));
        if !same_yaml(&a[i], &b[i]) {
            assert(yaml_trees(a@)[i as int] != yaml_trees(b@)[i as int]);
            return false;
        }
        i += 1;
    }
    assert(yaml_trees(a@) =~= yaml_trees(b@));
    true
}

/// Whether two mappings have the same entries, in the same order.
pub fn same_entries(a: &Vec<(Yaml, Yaml)>, b: &Vec<(Yaml, Yaml)>) -> (r: bool)
    ensures
        r == (entry_trees(a@) == entry_trees(b@)),
    decreases a,
{
    proof {
        lemma_entry_trees(a@);
        lemma_entry_trees(b@);
    }
    if a.len() != b.len() {
        return false;
    }
    let mut i: usize = 0;
    #[verifier::loop_isolation(false)]
    while i < a.len()
        invariant
            i <= a@.len(),
            forall|j: int| 0 <= j < i ==> #[trigger] entry_trees(a@)[j] == entry_trees(b@)[j],
        decreases a@.len() - i,
    {
        assert(decreases_to!(a => a@[i as int].0));
        assert(decreases_to!(a => a@[i as int].1));
        if !same_yaml(&a[i].0, &b[i].0) || !same_yaml(&a[i].1, &b[i].1) {
            assert(entry_trees(a@)[i as int] != entry_trees(b@)[i as int]);
            return false;
        }
        i += 1;
    }
    assert(entry_trees(a@) =~= entry_trees(b@));
    true
}

/// The parts of a mapping, one by one.
pub proof fn lemma_entry_trees(entries: Seq<(Yaml, Yaml)>)
    ensures
        entry_trees(entries).len() == entries.len(),
        forall|i: int|
            0 <= i < entries.len() ==> #[trigger] entry_trees(entries)[i] == (
                entries[i].0@,
                entries[i].1@,
            ),
    decreases entries.len(),
{
    if entries.len() > 0 {
        lemma_entry_trees(entries.drop_last());
    }
}

/// The last of `members` with the name `name` is the one at `i`.
pub open spec fn named_last(members: Seq<(String, Json)>, name: Seq<char>, i: int) -> bool {
    &&& 0 <= i < members.len()
    &&& members[i].0@ == name
    &&& forall|j: int| i < j < members.len() ==> (#[trigger] members[j]).0@ != name
}

/// Of members with one name the last counts, and there is none where no member has the name.
pub proof fn the_last_member_counts(members: Seq<(String, Json)>, name: Seq<char>)
    ensures
        forall|i: int| #[trigger]
            named_last(members, name, i) ==> last_member(members, name) == Some(members[i].1),
        last_member(members, name) is Some <==> exists|i: int| #[trigger] named_last(members, name, i),
        (forall|i: int| 0 <= i < members.len() ==> (#[trigger] members[i]).0@ != name)
            <==> last_member(members, name) is None,
    decreases members.len(),
{
    if members.len() > 0 {
        let less = members.drop_last();
        let last = members.len() - 1;
        the_last_member_counts(less, name);
        if members[last].0@ == name {
            assert(named_last(members, name, last));
        } else {
            assert forall|i: int| named_last(members, name, i) == #[trigger] named_last(less, name, i) by {
                if named_last(less, name, i) {
                    assert(members[i] == less[i]);
                    assert forall|j: int| i < j < members.len() implies (#[trigger] members[j]).0@
                        != name by {
                        if j < last {
                            assert(less[j] == members[j]);
                        }
                    }
                }
                if named_last(members, name, i) {
                    assert(i < last);
                    assert(members[i] == less[i]);
                    assert forall|j: int| i < j < less.len() implies (#[trigger] less[j]).0@
                        != name by {
                        assert(less[j] == members[j]);
                    }
                }
            }
            if last_member(less, name) is Some {
                let i = choose|i: int| #[trigger] named_last(less, name, i);
                assert(named_last(members, name, i));
                assert(members[i].0@ == name);
            } else {
                assert forall|i: int| 0 <= i < members.len() implies (#[trigger] members[i]).0@
                    != name by {
                    if i < last {
                        assert(less[i] == members[i]);
                    }
                }
            }
        }
        assert forall|i: int| #[trigger] named_last(members, name, i) implies last_member(
            members,
            name,
        ) == Some(members[i].1) by {
            if members[last].0@ == name {
                assert(i == last);
            } else {
                assert(named_last(less, name, i));
                assert(less[i] == members[i]);
            }
        }
    }
}

/// What a YAML value is, part by part.
pub proof fn yaml_values_by_parts(v: Yaml)
    ensures
        match v {
            Yaml::Null => v@ == YamlTree::Null,
            Yaml::Bool(b) => v@ == YamlTree::Bool(b),
            Yaml::Number(n) => v@ == YamlTree::Number(yaml_number(n)),
            Yaml::String(s) => v@ == YamlTree::Str(s@),
            Yaml::Sequence(items) => v@ is List && v@->List_0.len() == items@.len() && forall|i: int|
                0 <= i < items@.len() ==> #[trigger] v@->List_0[i] == items@[i]@,
            Yaml::Mapping(entries) => v@ is Entries && v@->Entries_0.len() == entries@.len()
                && forall|i: int|
                0 <= i < entries@.len() ==> #[trigger] v@->Entries_0[i] == (
                    entries@[i].0@,
                    entries@[i].1@,
                ),
            Yaml::Tagged(tag, value) => v@ == YamlTree::Tagged(tag@, Box::new((*value)@)),
        },
{
    if let Yaml::Sequence(items) = v {
        lemma_yaml_trees(items@);
    }
    if let Yaml::Mapping(entries) = v {
        lemma_entry_trees(entries@);
    }
}

proof fn lemma_json_trees(items: Seq<Json>)
    ensures
        json_trees(items).len() == items.len(),
        forall|i: int| 0 <= i < items.len() ==> #[trigger] json_trees(items)[i] == items[i]@,
    decreases items.len(),
{
    if items.len() > 0 {
        lemma_json_trees(items.drop_last());
    }
}

/// What a JSON value is, part by part. An object has under each name the value of the last member
/// of that name, and no other names.
pub proof fn json_values_by_parts(v: Json)
    ensures
        match v {
            Json::Null => v@ == JsonTree::Null,
            Json::Bool(b) => v@ == JsonTree::Bool(b),
            Json::Number(n) => v@ == JsonTree::Number(json_number(n)),
            Json::String(s) => v@ == JsonTree::Str(s@),
            Json::Array(items) => v@ is List && v@->List_0.len() == items@.len() && forall|i: int|
                0 <= i < items@.len() ==> #[trigger] v@->List_0[i] == items@[i]@,
            Json::Object(members) => {
                &&& v@ is Object
                &&& forall|name: Seq<char>|
                    {
                        #[trigger] v@->Object_0.dom().contains(name) <==> exists|i: int| #[trigger]
                            named_last(members@, name, i)
                    }
                &&& forall|i: int| #[trigger]
                    named_last(members@, members@[i].0@, i) ==> v@->Object_0[members@[i].0@]
                        == members@[i].1@
            },
        },
{
    if let Json::Array(items) = v {
        lemma_json_trees(items@);
    }
    if let Json::Object(members) = v {
        assert forall|name: Seq<char>| #[trigger] v@->Object_0.dom().contains(name) == exists|i: int|
            #[trigger] named_last(members@, name, i) by {
            the_last_member_counts(members@, name);
            lemma_last_member(members@, name);
        }
        assert forall|i: int| #[trigger] named_last(members@, members@[i].0@, i) implies
            v@->Object_0[members@[i].0@] == members@[i].1@ by {
            the_last_member_counts(members@, members@[i].0@);
            lemma_last_member(members@, members@[i].0@);
        }
    }
}

} // verus!
