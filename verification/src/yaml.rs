//! YAML text and the values of `serde_yaml`.

use vstd::prelude::*;

use crate::document::dashed_line;
use crate::entries::{distinct_keys, lookup, put};
use crate::number::yaml_number;
use crate::text::all_space;
use crate::value::{entry_trees, lemma_push_drop, yaml_trees, Yaml, YamlTree};

verus! {

/// Declares the values of `serde_yaml`.
#[verifier::external_type_specification]
#[verifier::external_body]
pub struct ExYamlValue(serde_yaml::Value);

/// Declares the mappings of `serde_yaml`.
#[verifier::external_type_specification]
#[verifier::external_body]
pub struct ExYamlMapping(serde_yaml::Mapping);

/// Declares the errors of `serde_yaml`.
#[verifier::external_type_specification]
#[verifier::external_body]
pub struct ExYamlError(serde_yaml::Error);

/// What a value of `serde_yaml` is.
pub uninterp spec fn value_tree(v: serde_yaml::Value) -> YamlTree;

/// The entries of a mapping of `serde_yaml`, in its order.
pub uninterp spec fn mapping_entries(m: serde_yaml::Mapping) -> Seq<(YamlTree, YamlTree)>;

/// What `serde_yaml` reads in a text: the one value that the text writes, or nothing where the
/// text is no YAML.
pub uninterp spec fn yaml_document(text: Seq<char>) -> Option<YamlTree>;

/// How `serde_yaml` writes a mapping with these entries, if it can.
pub uninterp spec fn yaml_text(entries: Seq<(YamlTree, YamlTree)>) -> Option<Seq<char>>;

/// A value of `serde_yaml`, taken apart by one level.
pub enum YamlNode {
    Null,
    Bool(bool),
    Number(serde_yaml::Number),
    String(String),
    Sequence(Vec<serde_yaml::Value>),
    Mapping(serde_yaml::Mapping),
    Tagged(String, serde_yaml::Value),
}

/// What each of `items` is.
pub open spec fn value_trees(items: Seq<serde_yaml::Value>) -> Seq<YamlTree> {
    items.map_values(|v: serde_yaml::Value| value_tree(v))
}

impl YamlNode {
    /// What the value is that was taken apart.
    pub open spec fn tree(self) -> YamlTree {
        match self {
            YamlNode::Null => YamlTree::Null,
            YamlNode::Bool(b) => YamlTree::Bool(b),
            YamlNode::Number(n) => YamlTree::Number(yaml_number(n)),
            YamlNode::String(s) => YamlTree::Str(s@),
            YamlNode::Sequence(items) => YamlTree::List(value_trees(items@)),
            YamlNode::Mapping(m) => YamlTree::Entries(mapping_entries(m)),
            YamlNode::Tagged(tag, value) => YamlTree::Tagged(tag@, Box::new(value_tree(value))),
        }
    }
}

/// Tells the variants of `serde_yaml::Value` apart. A tag is taken as
/// `serde_yaml::value::Tag` displays it. A mapping of `serde_yaml` has no key twice.
#[verifier::external_body]
pub(crate) fn open_value(v: serde_yaml::Value) -> (r: YamlNode)
    ensures
        r.tree() == value_tree(v),
        r matches YamlNode::Mapping(m) ==> distinct_keys(mapping_entries(m)),
{
    match v {
        serde_yaml::Value::Null => YamlNode::Null,
        serde_yaml::Value::Bool(b) => YamlNode::Bool(b),
        serde_yaml::Value::Number(n) => YamlNode::Number(n),
        serde_yaml::Value::String(s) => YamlNode::String(s),
        serde_yaml::Value::Sequence(items) => YamlNode::Sequence(items),
        serde_yaml::Value::Mapping(m) => YamlNode::Mapping(m),
        serde_yaml::Value::Tagged(t) => YamlNode::Tagged(t.tag.to_string(), t.value),
    }
}

/// Makes the variant of `serde_yaml::Value` with what `node` holds. Behind a tag it gives the
/// bare value, so no such node is asked for.
#[verifier::external_body]
pub(crate) fn close_value(node: YamlNode) -> (r: serde_yaml::Value)
    requires
        !(node is Tagged),
    ensures
        value_tree(r) == node.tree(),
{
    match node {
        YamlNode::Null => serde_yaml::Value::Null,
        YamlNode::Bool(b) => serde_yaml::Value::Bool(b),
        YamlNode::Number(n) => serde_yaml::Value::Number(n),
        YamlNode::String(s) => serde_yaml::Value::String(s),
        YamlNode::Sequence(items) => serde_yaml::Value::Sequence(items),
        YamlNode::Mapping(m) => serde_yaml::Value::Mapping(m),
        YamlNode::Tagged(_, value) => value,
    }
}

/// `serde_yaml::Mapping::new` gives a mapping without entries.
pub assume_specification[ serde_yaml::Mapping::new ]() -> (r: serde_yaml::Mapping)
    ensures
        mapping_entries(r) == Seq::<(YamlTree, YamlTree)>::empty(),
;

/// `serde_yaml::Mapping::len` gives the number of entries.
pub assume_specification[ serde_yaml::Mapping::len ](m: &serde_yaml::Mapping) -> (r: usize)
    ensures
        r == mapping_entries(*m).len(),
;

/// The clone of a mapping of `serde_yaml` has the same entries.
pub assume_specification[ <serde_yaml::Mapping as Clone>::clone ](m: &serde_yaml::Mapping) -> (r:
    serde_yaml::Mapping)
    ensures
        mapping_entries(r) == mapping_entries(*m),
;

/// Calls `serde_yaml::Mapping::insert` with a string as the key: the value of that key is
/// replaced where it stands, or a new entry is appended.
#[verifier::external_body]
pub(crate) fn mapping_insert(m: &mut serde_yaml::Mapping, key: String, value: serde_yaml::Value)
    ensures
        mapping_entries(*final(m)) == put(mapping_entries(*old(m)), key@, value_tree(value)),
{
    m.insert(serde_yaml::Value::String(key), value);
}

/// Calls `serde_yaml::Mapping::get` with a string as the key, and clones what it finds: the
/// value of the entry with that key.
#[verifier::external_body]
pub(crate) fn mapping_get(m: &serde_yaml::Mapping, key: &str) -> (r: Option<serde_yaml::Value>)
    ensures
        match r {
            Some(v) => lookup(mapping_entries(*m), key@) == Some(value_tree(v)),
            None => lookup(mapping_entries(*m), key@) is None,
        },
{
    m.get(serde_yaml::Value::String(key.to_owned())).cloned()
}

/// Calls `serde_yaml::Mapping::into_iter`: the entries come in the order of the mapping.
#[verifier::external_body]
pub(crate) fn mapping_into_entries(m: serde_yaml::Mapping) -> (r: Vec<(
    serde_yaml::Value,
    serde_yaml::Value,
)>)
    ensures
        r@.len() == mapping_entries(m).len(),
        forall|i: int|
            0 <= i < r@.len() ==> (#[trigger] mapping_entries(m)[i]) == (
                value_tree(r@[i].0),
                value_tree(r@[i].1),
            ),
{
    m.into_iter().collect()
}

/// Calls `serde_yaml::from_str` for a `serde_yaml::Value`.
#[verifier::external_body]
pub(crate) fn parse_value(text: &str) -> (r: Result<serde_yaml::Value, serde_yaml::Error>)
    ensures
        match r {
            Ok(v) => yaml_document(text@) == Some(value_tree(v)),
            Err(_) => yaml_document(text@) is None,
        },
{
    serde_yaml::from_str::<serde_yaml::Value>(text)
}

/// A letter or a digit of ASCII, a hyphen or an underscore.
pub open spec fn is_tag_char(c: char) -> bool {
    'a' <= c <= 'z' || 'A' <= c <= 'Z' || '0' <= c <= '9' || c == '-' || c == '_'
}

/// A tag whose name has letters and digits of ASCII, hyphens and underscores alone.
pub open spec fn plain_tag(tag: Seq<char>) -> bool {
    &&& tag.len() > 1
    &&& tag[0] == '!'
    &&& forall|i: int| 1 <= i < tag.len() ==> is_tag_char(#[trigger] tag[i])
}

/// A string, a number, true, false or null.
pub open spec fn scalar(t: YamlTree) -> bool {
    match t {
        YamlTree::Null | YamlTree::Bool(_) | YamlTree::Number(_) | YamlTree::Str(_) => true,
        _ => false,
    }
}

/// A value whose keys are scalars and whose tags are plain and not tagged again, and which nests
/// sequences and mappings at most `depth` deep.
pub open spec fn plain(t: YamlTree, depth: nat) -> bool
    decreases t,
{
    match t {
        YamlTree::Null | YamlTree::Bool(_) | YamlTree::Number(_) | YamlTree::Str(_) => true,
        YamlTree::List(items) => depth > 0 && forall|i: int|
            0 <= i < items.len() ==> plain(#[trigger] items[i], (depth - 1) as nat),
        YamlTree::Entries(entries) => depth > 0 && forall|i: int|
            0 <= i < entries.len() ==> scalar((#[trigger] entries[i]).0) && plain(
                entries[i].1,
                (depth - 1) as nat,
            ),
        YamlTree::Tagged(tag, value) => plain_tag(tag) && !(*value is Tagged) && plain(
            *value,
            depth,
        ),
    }
}

/// The entries of a mapping that is plain and no deeper than `serde_yaml` reads.
pub open spec fn plain_mapping(entries: Seq<(YamlTree, YamlTree)>) -> bool {
    plain(YamlTree::Entries(entries), 128)
}

/// `text` has no carriage return and is not all white space, and it reads as a mapping with these
/// entries.
pub open spec fn reads_as(text: Seq<char>, entries: Seq<(YamlTree, YamlTree)>) -> bool {
    &&& !text.contains('\r')
    &&& !all_space(text)
    &&& yaml_document(text) == Some(YamlTree::Entries(entries))
}

/// Calls `serde_yaml::to_string` for a mapping. Of the text that it gives, no line starts with
/// three dashes: nothing comes before the first document, a key that starts so is quoted, and the
/// lines of a text block are indented. A plain mapping can be written, and `serde_yaml::from_str`
/// reads it back; carriage returns are escaped. Not said is which other mappings can be written,
/// and as what those are read.
#[verifier::external_body]
pub(crate) fn write_mapping(m: &serde_yaml::Mapping) -> (r: Result<String, serde_yaml::Error>)
    ensures
        match r {
            Ok(text) => {
                &&& yaml_text(mapping_entries(*m)) == Some(text@)
                &&& !dashed_line(text@)
                &&& plain_mapping(mapping_entries(*m)) ==> reads_as(text@, mapping_entries(*m))
            },
            Err(_) => yaml_text(mapping_entries(*m)) is None && !plain_mapping(mapping_entries(*m)),
        },
{
    serde_yaml::to_string(&serde_yaml::Value::Mapping(m.clone()))
}

/// The YAML value that a value of `serde_yaml` is.
pub fn yaml_of(v: serde_yaml::Value) -> (r: Yaml)
    ensures
        r@ == value_tree(v),
    decreases value_tree(v),
{
    broadcast use lemma_push_drop;

    let ghost whole = value_tree(v);
    match open_value(v) {
        YamlNode::Null => Yaml::Null,
        YamlNode::Bool(b) => Yaml::Bool(b),
        YamlNode::Number(n) => Yaml::Number(n),
        YamlNode::String(s) => Yaml::String(s),
        YamlNode::Sequence(items) => {
            let mut out: Vec<Yaml> = Vec::new();
            let ghost all = items@;
            let ghost trees = value_trees(all);
            #[verifier::loop_isolation(false)]
            for item in it: items
                invariant
                    it.seq() == all,
                    yaml_trees(out@) == trees.take(it.index() as int),
            {
                let ghost k = it.index() as int;
                proof {
                    assert(trees.take(k + 1) =~= trees.take(k).push(trees[k]));
                    assert(decreases_to!(whole => whole->List_0[k]));
                }
                out.push(yaml_of(item));
            }
            assert(trees.take(all.len() as int) =~= trees);
            Yaml::Sequence(out)
        },
        YamlNode::Mapping(m) => {
            let mut out: Vec<(Yaml, Yaml)> = Vec::new();
            let ghost trees = mapping_entries(m);
            let entries = mapping_into_entries(m);
            let ghost all = entries@;
            #[verifier::loop_isolation(false)]
            for entry in it: entries
                invariant
                    it.seq() == all,
                    entry_trees(out@) == trees.take(it.index() as int),
            {
                let ghost k = it.index() as int;
                proof {
                    assert(trees.take(k + 1) =~= trees.take(k).push(trees[k]));
                    assert(decreases_to!(whole => whole->Entries_0[k].0));
                    assert(decreases_to!(whole => whole->Entries_0[k].1));
                }
                let (key, value) = entry;
                let key = yaml_of(key);
                let value = yaml_of(value);
                out.push((key, value));
            }
            assert(trees.take(all.len() as int) =~= trees);
            Yaml::Mapping(out)
        },
        YamlNode::Tagged(tag, value) => {
            assert(decreases_to!(whole => whole->Tagged_1));
            Yaml::Tagged(tag, Box::new(yaml_of(value)))
        },
    }
}

/// Which values are plain, part by part: scalars, sequences of plain values, mappings from scalars to
/// plain values, and values behind one tag of letters, digits, hyphens and underscores.
pub proof fn plain_values_by_parts(t: YamlTree, depth: nat)
    ensures
        t is Null || t is Bool || t is Number || t is Str ==> plain(t, depth),
        t matches YamlTree::List(items) ==> (plain(t, depth + 1) <==> forall|i: int|
            0 <= i < items.len() ==> plain(#[trigger] items[i], depth)),
        t matches YamlTree::Entries(entries) ==> (plain(t, depth + 1) <==> forall|i: int|
            0 <= i < entries.len() ==> {
                let (key, value) = #[trigger] entries[i];
                (key is Null || key is Bool || key is Number || key is Str) && plain(value, depth)
            }),
        t matches YamlTree::Tagged(tag, value) ==> (plain(t, depth) <==> tag.len() > 1 && tag[0] == '!'
            && (forall|i: int|
            1 <= i < tag.len() ==> 'a' <= #[trigger] tag[i] <= 'z' || 'A' <= tag[i] <= 'Z' || '0'
                <= tag[i] <= '9' || tag[i] == '-' || tag[i] == '_') && !(*value is Tagged) && plain(
            *value,
            depth,
        )),
        t matches YamlTree::Entries(entries) ==> (plain_mapping(entries) <==> plain(t, 128)),
{
    assert((depth + 1 - 1) as nat == depth);
    if let YamlTree::Tagged(tag, value) = t {
        if forall|i: int|
            1 <= i < tag.len() ==> 'a' <= #[trigger] tag[i] <= 'z' || 'A' <= tag[i] <= 'Z' || '0'
                <= tag[i] <= '9' || tag[i] == '-' || tag[i] == '_' {
            assert(forall|i: int| 1 <= i < tag.len() ==> is_tag_char(#[trigger] tag[i]));
        }
        if forall|i: int| 1 <= i < tag.len() ==> is_tag_char(#[trigger] tag[i]) {
            assert forall|i: int| 1 <= i < tag.len() implies 'a' <= #[trigger] tag[i] <= 'z' || 'A'
                <= tag[i] <= 'Z' || '0' <= tag[i] <= '9' || tag[i] == '-' || tag[i] == '_' by {
                assert(is_tag_char(tag[i]));
            }
        }
    }
}

} // verus!
