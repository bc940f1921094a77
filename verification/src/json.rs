//! JSON text and the values of `serde_json`.
//!
//! `serde_json` is built without `preserve_order` and without `arbitrary_precision`: its objects
//! keep their members sorted by name, so how a value is written rests on no other order, and its
//! numbers are integers of 64 bits or finite floating-point numbers.

use vstd::prelude::*;

use crate::number::json_number;
use crate::value::{
    in_order, json_trees, lemma_push_drop, member_map, member_trees, members_in_order, precedes,
    Json, JsonTree,
};

verus! {

/// Declares the values of `serde_json`.
#[verifier::external_type_specification]
#[verifier::external_body]
pub struct ExJsonValue(serde_json::Value);

/// Declares the objects of `serde_json`.
#[verifier::external_type_specification]
#[verifier::external_body]
#[verifier::reject_recursive_types(K)]
#[verifier::reject_recursive_types(V)]
pub struct ExJsonMap<K, V>(serde_json::Map<K, V>);

/// Declares the errors of `serde_json`.
#[verifier::external_type_specification]
#[verifier::external_body]
pub struct ExJsonError(serde_json::Error);

/// What a value of `serde_json` is.
pub uninterp spec fn json_tree(v: serde_json::Value) -> JsonTree;

/// The members of an object of `serde_json`, by their names.
pub uninterp spec fn object_members(m: serde_json::Map<String, serde_json::Value>) -> Map<
    Seq<char>,
    JsonTree,
>;

/// What `serde_json` reads in bytes: the one value that they write, or nothing where they are no
/// JSON.
pub uninterp spec fn json_document(bytes: Seq<u8>) -> Option<JsonTree>;

/// The members of the object that `serde_json` reads in a text, or nothing where the text writes
/// no object.
pub uninterp spec fn json_object(text: Seq<char>) -> Option<Map<Seq<char>, JsonTree>>;

/// How `serde_json` writes a value without white space.
pub uninterp spec fn json_text(t: JsonTree) -> Seq<char>;

/// How `serde_json` writes a value with lines and indentation.
pub uninterp spec fn json_pretty(t: JsonTree) -> Seq<char>;

/// The bytes in which `serde_json` writes a value.
pub uninterp spec fn json_bytes(t: JsonTree) -> Seq<u8>;

/// A value of `serde_json`, taken apart by one level.
pub enum JsonNode {
    Null,
    Bool(bool),
    Number(serde_json::Number),
    String(String),
    Array(Vec<serde_json::Value>),
    Object(serde_json::Map<String, serde_json::Value>),
}

/// What each of `items` is.
pub open spec fn json_value_trees(items: Seq<serde_json::Value>) -> Seq<JsonTree> {
    items.map_values(|v: serde_json::Value| json_tree(v))
}

/// What the names and values of `pairs` are.
pub open spec fn pair_trees(pairs: Seq<(String, serde_json::Value)>) -> Seq<(Seq<char>, JsonTree)> {
    pairs.map_values(|p: (String, serde_json::Value)| (p.0@, json_tree(p.1)))
}

impl JsonNode {
    /// What the value is that was taken apart.
    pub open spec fn tree(self) -> JsonTree {
        match self {
            JsonNode::Null => JsonTree::Null,
            JsonNode::Bool(b) => JsonTree::Bool(b),
            JsonNode::Number(n) => JsonTree::Number(json_number(n)),
            JsonNode::String(s) => JsonTree::Str(s@),
            JsonNode::Array(items) => JsonTree::List(json_value_trees(items@)),
            JsonNode::Object(m) => JsonTree::Object(object_members(m)),
        }
    }
}

/// Tells the variants of `serde_json::Value` apart.
#[verifier::external_body]
fn open_json(v: serde_json::Value) -> (r: JsonNode)
    ensures
        r.tree() == json_tree(v),
{
    match v {
        serde_json::Value::Null => JsonNode::Null,
        serde_json::Value::Bool(b) => JsonNode::Bool(b),
        serde_json::Value::Number(n) => JsonNode::Number(n),
        serde_json::Value::String(s) => JsonNode::String(s),
        serde_json::Value::Array(items) => JsonNode::Array(items),
        serde_json::Value::Object(m) => JsonNode::Object(m),
    }
}

/// Makes the variant of `serde_json::Value` with what `node` holds.
#[verifier::external_body]
fn close_json(node: JsonNode) -> (r: serde_json::Value)
    ensures
        json_tree(r) == node.tree(),
{
    match node {
        JsonNode::Null => serde_json::Value::Null,
        JsonNode::Bool(b) => serde_json::Value::Bool(b),
        JsonNode::Number(n) => serde_json::Value::Number(n),
        JsonNode::String(s) => serde_json::Value::String(s),
        JsonNode::Array(items) => serde_json::Value::Array(items),
        JsonNode::Object(m) => serde_json::Value::Object(m),
    }
}

/// Calls `serde_json::Map::into_iter`: each member comes once, and they come sorted by their names,
/// as the tree that the map is built on orders strings.
#[verifier::external_body]
fn object_into_members(m: serde_json::Map<String, serde_json::Value>) -> (r: Vec<
    (String, serde_json::Value),
>)
    ensures
        object_members(m) == member_map(pair_trees(r@)),
        forall|i: int|
            0 <= i < r@.len() ==> object_members(m).dom().contains((#[trigger] r@[i]).0@)
                && object_members(m)[r@[i].0@] == json_tree(r@[i].1),
        forall|i: int, j: int|
            0 <= i < j < r@.len() ==> precedes((#[trigger] r@[i]).0@, (#[trigger] r@[j]).0@),
{
    m.into_iter().collect()
}

/// Calls `serde_json::Map::new`, which gives an object without members.
#[verifier::external_body]
fn object_new() -> (r: serde_json::Map<String, serde_json::Value>)
    ensures
        object_members(r) == member_map(Seq::empty()),
{
    serde_json::Map::new()
}

/// Calls `serde_json::Map::insert`: the member of that name has the value.
#[verifier::external_body]
fn object_insert(
    m: &mut serde_json::Map<String, serde_json::Value>,
    name: String,
    value: serde_json::Value,
)
    ensures
        object_members(*final(m)) == object_members(*old(m)).insert(name@, json_tree(value)),
{
    m.insert(name, value);
}

/// Calls `serde_json::from_slice` for a `serde_json::Value`.
#[verifier::external_body]
fn parse_slice(bytes: &[u8]) -> (r: Result<serde_json::Value, serde_json::Error>)
    ensures
        match r {
            Ok(v) => json_document(bytes@) == Some(json_tree(v)),
            Err(_) => json_document(bytes@) is None,
        },
{
    serde_json::from_slice::<serde_json::Value>(bytes)
}

/// Calls `serde_json::from_str` for a `serde_json::Map`.
#[verifier::external_body]
fn parse_map(text: &str) -> (r: Result<
    serde_json::Map<String, serde_json::Value>,
    serde_json::Error,
>)
    ensures
        match r {
            Ok(m) => json_object(text@) == Some(object_members(m)),
            Err(_) => json_object(text@) is None,
        },
{
    serde_json::from_str::<serde_json::Map<String, serde_json::Value>>(text)
}

/// Calls `serde_json::to_string`, which writes every `serde_json::Value`, and on one line: a line
/// feed in a string is escaped.
#[verifier::external_body]
fn write_text(v: &serde_json::Value) -> (r: Result<String, serde_json::Error>)
    ensures
        r is Ok,
        r->Ok_0@ == json_text(json_tree(*v)),
        !r->Ok_0@.contains('\n'),
{
    serde_json::to_string(v)
}

/// Calls `serde_json::to_string_pretty`, which writes every `serde_json::Value`.
#[verifier::external_body]
fn write_pretty(v: &serde_json::Value) -> (r: Result<String, serde_json::Error>)
    ensures
        r is Ok,
        r->Ok_0@ == json_pretty(json_tree(*v)),
{
    serde_json::to_string_pretty(v)
}

/// Calls `serde_json::to_vec`, which writes every `serde_json::Value`, and on one line: a line feed
/// in a string is escaped.
#[verifier::external_body]
fn write_bytes(v: &serde_json::Value) -> (r: Result<Vec<u8>, serde_json::Error>)
    ensures
        r is Ok,
        r->Ok_0@ == json_bytes(json_tree(*v)),
        !r->Ok_0@.contains(10u8),
{
    serde_json::to_vec(v)
}

proof fn lemma_member_map_finite(members: Seq<(Seq<char>, JsonTree)>)
    ensures
        member_map(members).dom().finite(),
    decreases members.len(),
{
    if members.len() > 0 {
        lemma_member_map_finite(members.drop_last());
    }
}

/// The JSON value that a value of `serde_json` is, with the members of its objects sorted by their
/// names.
pub fn json_of(v: serde_json::Value) -> (r: Json)
    ensures
        r@ == json_tree(v),
        in_order(r),
    decreases json_tree(v), 0nat,
{
    broadcast use lemma_push_drop;

    let ghost whole = json_tree(v);
    match open_json(v) {
        JsonNode::Null => Json::Null,
        JsonNode::Bool(b) => Json::Bool(b),
        JsonNode::Number(n) => Json::Number(n),
        JsonNode::String(s) => Json::String(s),
        JsonNode::Array(items) => {
            let mut out: Vec<Json> = Vec::new();
            let ghost all = items@;
            let ghost trees = json_value_trees(all);
            #[verifier::loop_isolation(false)]
            for item in it: items
                invariant
                    it.seq() == all,
                    json_trees(out@) == trees.take(it.index() as int),
                    forall|i: int| 0 <= i < out@.len() ==> in_order(#[trigger] out@[i]),
            {
                let ghost k = it.index() as int;
                proof {
                    assert(trees.take(k + 1) =~= trees.take(k).push(trees[k]));
                    assert(decreases_to!(whole => whole->List_0[k]));
                }
                out.push(json_of(item));
            }
            assert(trees.take(all.len() as int) =~= trees);
            Json::Array(out)
        },
        JsonNode::Object(m) => {
            assert(decreases_to!(whole => whole->Object_0));
            Json::Object(members_of(m))
        },
    }
}

/// The members of an object of `serde_json`, sorted by their names.
pub fn members_of(m: serde_json::Map<String, serde_json::Value>) -> (r: Vec<(String, Json)>)
    ensures
        member_map(member_trees(r@)) == object_members(m),
        members_in_order(r@),
    decreases object_members(m), 1nat,
{
    broadcast use lemma_push_drop;

    let ghost members = object_members(m);
    let mut out: Vec<(String, Json)> = Vec::new();
    let pairs = object_into_members(m);
    let ghost all = pairs@;
    let ghost trees = pair_trees(all);
    proof {
        lemma_member_map_finite(trees);
    }
    #[verifier::loop_isolation(false)]
    for pair in it: pairs
        invariant
            it.seq() == all,
            member_trees(out@) == trees.take(it.index() as int),
            out@.len() == it.index(),
            forall|i: int| 0 <= i < out@.len() ==> (#[trigger] out@[i]).0 == all[i].0,
            forall|i: int| 0 <= i < out@.len() ==> in_order((#[trigger] out@[i]).1),
    {
        let ghost k = it.index() as int;
        let (name, value) = pair;
        proof {
            assert(trees.take(k + 1) =~= trees.take(k).push(trees[k]));
            assert(members.dom().contains(all[k].0@));
            assert(decreases_to!(members => members[all[k].0@]));
        }
        out.push((name, json_of(value)));
    }
    assert(trees.take(all.len() as int) =~= trees);
    out
}

/// The value of `serde_json` that a JSON value is.
pub fn value_of(v: Json) -> (r: serde_json::Value)
    ensures
        json_tree(r) == v@,
    decreases v,
{
    broadcast use lemma_push_drop;

    match v {
        Json::Null => close_json(JsonNode::Null),
        Json::Bool(b) => close_json(JsonNode::Bool(b)),
        Json::Number(n) => close_json(JsonNode::Number(n)),
        Json::String(s) => close_json(JsonNode::String(s)),
        Json::Array(items) => {
            let mut out: Vec<serde_json::Value> = Vec::new();
            let ghost all = items@;
            assert(json_value_trees(out@) =~= Seq::empty());
            #[verifier::loop_isolation(false)]
            for item in it: items
                invariant
                    it.seq() == all,
                    json_value_trees(out@) == json_trees(all.take(it.index() as int)),
            {
                let ghost k = it.index() as int;
                let ghost before = out@;
                proof {
                    assert(all.take(k + 1).drop_last() =~= all.take(k));
                    assert(decreases_to!(v => all[k]));
                }
                let value = value_of(item);
                assert(json_value_trees(before.push(value)) =~= json_value_trees(before).push(
                    json_tree(value),
                ));
                out.push(value);
            }
            assert(all.take(all.len() as int) =~= all);
            close_json(JsonNode::Array(out))
        },
        Json::Object(members) => {
            let mut out = object_new();
            let ghost all = members@;
            #[verifier::loop_isolation(false)]
            for member in it: members
                invariant
                    it.seq() == all,
                    object_members(out) == member_map(member_trees(all.take(it.index() as int))),
            {
                let ghost k = it.index() as int;
                proof {
                    assert(all.take(k + 1).drop_last() =~= all.take(k));
                    assert(decreases_to!(v => all[k]));
                }
                let (name, value) = member;
                object_insert(&mut out, name, value_of(value));
            }
            assert(all.take(all.len() as int) =~= all);
            close_json(JsonNode::Object(out))
        },
    }
}

/// The JSON value that bytes write, with the members of its objects sorted by their names.
pub fn parse_bytes(bytes: &[u8]) -> (r: Option<Json>)
    ensures
        match r {
            Some(v) => json_document(bytes@) == Some(v@) && in_order(v),
            None => json_document(bytes@) is None,
        },
{
    match parse_slice(bytes) {
        Ok(v) => Some(json_of(v)),
        Err(_) => None,
    }
}

/// The members of the JSON object that a text writes, sorted by their names.
pub fn parse_object(text: &str) -> (r: Result<Vec<(String, Json)>, serde_json::Error>)
    ensures
        match r {
            Ok(members) => json_object(text@) == Some(member_map(member_trees(members@)))
                && members_in_order(members@),
            Err(_) => json_object(text@) is None,
        },
{
    match parse_map(text) {
        Ok(m) => Ok(members_of(m)),
        Err(e) => Err(e),
    }
}

/// A JSON value as text of one line.
pub fn to_text(v: Json) -> (r: String)
    ensures
        r@ == json_text(v@),
        !r@.contains('\n'),
{
    write_text(&value_of(v)).unwrap()
}

/// A JSON value as text with lines and indentation.
pub fn to_pretty(v: Json) -> (r: String)
    ensures
        r@ == json_pretty(v@),
{
    write_pretty(&value_of(v)).unwrap()
}

/// A JSON value as bytes, without a line feed.
pub fn to_bytes(v: Json) -> (r: Vec<u8>)
    ensures
        r@ == json_bytes(v@),
        !r@.contains(10u8),
{
    write_bytes(&value_of(v)).unwrap()
}

} // verus!
