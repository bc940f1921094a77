//! Front matter as text and as the mapping that it writes.

use vstd::prelude::*;

use crate::document::{
    dashed_line, has_separator_line, line_start, sep_end, split, split_spec, starts_dashed,
};
use crate::entries::distinct_keys;
use crate::error::{MetaError, MetaFault};
use crate::text::{
    all_space, carriage_returns_before_line_feeds_go, chars_of, is_all_space, is_space, string_of,
    to_unix, trim_line_feeds, trimmed, unix,
};
use crate::value::{same_yaml, YamlTree};
use crate::yaml::{
    close_value, mapping_entries, open_value, parse_value, plain_mapping, reads_as, write_mapping,
    yaml_document, yaml_of, yaml_text, YamlNode,
};

verus! {

/// Front matter with line feeds for its line breaks, the one that ends its last line included: of
/// that a carriage return may stand at the end of `front`.
pub open spec fn source(front: Seq<char>) -> Seq<char> {
    unix(front.push('\n')).drop_last()
}

/// The entries that front matter writes. It is read with line feeds for its line breaks. White
/// space alone writes no entries, nor does YAML that is no mapping. What is no YAML is refused.
pub open spec fn parse_spec(front: Seq<char>) -> Option<Seq<(YamlTree, YamlTree)>> {
    if all_space(source(front)) {
        Some(Seq::empty())
    } else {
        match yaml_document(source(front)) {
            Some(YamlTree::Entries(entries)) => Some(entries),
            Some(_) => Some(Seq::empty()),
            None => None,
        }
    }
}

/// The entries of a document. One without front matter has none.
pub open spec fn document_entries(text: Seq<char>) -> Option<Seq<(YamlTree, YamlTree)>> {
    match split_spec(text).0 {
        Some(front) => parse_spec(front),
        None => Some(Seq::empty()),
    }
}

/// `t` without a marker of a document at its start.
pub open spec fn unmarked(t: Seq<char>) -> Seq<char> {
    if t.len() >= 4 && starts_dashed(t, 0) && t[3] == '\n' {
        t.skip(4)
    } else {
        t
    }
}

/// The lines that write `entries`: as `serde_yaml` writes them, without a marker at the start.
pub open spec fn dump_lines(entries: Seq<(YamlTree, YamlTree)>) -> Option<Seq<char>> {
    match yaml_text(entries) {
        Some(text) => Some(unmarked(text)),
        None => None,
    }
}

/// The front matter that writes `entries`: those lines without line feeds at the end.
pub open spec fn dump_spec(entries: Seq<(YamlTree, YamlTree)>) -> Option<Seq<char>> {
    match dump_lines(entries) {
        Some(text) => Some(trimmed(text)),
        None => None,
    }
}

/// Front matter with line feeds for its line breaks.
fn to_source(front: &str) -> (r: String)
    ensures
        r@ == source(front@),
{
    let mut ended = front.to_owned();
    ended.push('\n');
    let cs = chars_of(to_unix(ended.as_str()).as_str());
    assert(cs@.subrange(0, cs@.len() - 1) =~= cs@.drop_last());
    string_of(&cs, 0, cs.len() - 1)
}

/// The mapping that front matter writes.
pub fn parse_yaml(fm_text: &str) -> (r: Result<serde_yaml::Mapping, MetaError>)
    ensures
        match r {
            Ok(m) => parse_spec(fm_text@) == Some(mapping_entries(m)) && distinct_keys(
                mapping_entries(m),
            ),
            Err(e) => parse_spec(fm_text@) is None && e@ == MetaFault::InvalidYaml,
        },
{
    let source = to_source(fm_text);
    if is_all_space(source.as_str()) {
        return Ok(serde_yaml::Mapping::new());
    }
    match parse_value(source.as_str()) {
        Ok(value) => match open_value(value) {
            YamlNode::Mapping(m) => Ok(m),
            _ => Ok(serde_yaml::Mapping::new()),
        },
        Err(e) => Err(MetaError::InvalidYaml(e)),
    }
}

/// Whether two mappings have the same entries, in the same order.
pub fn same_mapping(a: serde_yaml::Mapping, b: &serde_yaml::Mapping) -> (r: bool)
    ensures
        r == (mapping_entries(a) == mapping_entries(*b)),
{
    let left = yaml_of(close_value(YamlNode::Mapping(a)));
    let right = yaml_of(close_value(YamlNode::Mapping(b.clone())));
    same_yaml(&left, &right)
}

/// The mapping that the front matter of a document writes, and the body of the document.
pub fn parse_document(text: &str) -> (r: Result<(serde_yaml::Mapping, String), MetaError>)
    ensures
        match r {
            Ok((m, body)) => {
                &&& document_entries(text@) == Some(mapping_entries(m))
                &&& distinct_keys(mapping_entries(m))
                &&& body@ == split_spec(text@).1
            },
            Err(e) => document_entries(text@) is None && e@ == MetaFault::InvalidYaml,
        },
{
    let (front, body) = split(text);
    match front {
        Some(front) => match parse_yaml(front.as_str()) {
            Ok(m) => Ok((m, body)),
            Err(e) => Err(e),
        },
        None => Ok((serde_yaml::Mapping::new(), body)),
    }
}

/// The lines that write a mapping. A plain mapping can be written, and what is written reads as
/// the same entries. No line of it is taken for the end of the front matter, with the line feeds
/// at its end and without them.
pub fn dump_mapping(mapping: &serde_yaml::Mapping) -> (r: Result<String, MetaError>)
    ensures
        match r {
            Ok(lines) => {
                &&& dump_lines(mapping_entries(*mapping)) == Some(lines@)
                &&& !has_separator_line(lines@)
                &&& !has_separator_line(trimmed(lines@))
                &&& plain_mapping(mapping_entries(*mapping)) ==> parse_spec(lines@) == Some(
                    mapping_entries(*mapping),
                )
            },
            Err(e) => {
                &&& dump_lines(mapping_entries(*mapping)) is None
                &&& !plain_mapping(mapping_entries(*mapping))
                &&& e@ == MetaFault::Unserializable
            },
        },
{
    let text = match write_mapping(mapping) {
        Ok(text) => text,
        Err(e) => {
            return Err(MetaError::Unserializable(e));
        },
    };
    let cs = chars_of(text.as_str());
    let n = cs.len();
    let lines = if n >= 4 && cs[0] == '-' && cs[1] == '-' && cs[2] == '-' && cs[3] == '\n' {
        assert(cs@.skip(4) =~= cs@.subrange(4, n as int));
        string_of(&cs, 4, n)
    } else {
        text
    };
    proof {
        let t = cs@;
        if starts_dashed(t, 0) {
            assert(line_start(t, 0, 0));
        }
        assert(unmarked(t) == t);
        lemma_trimmed(t);
        assert(t.take(t.len() as int) =~= t);
        lemma_no_separator(t, t.len() as int);
        lemma_no_separator(t, trimmed(t).len() as int);
        if reads_as(t, mapping_entries(*mapping)) {
            lemma_source_keeps(t);
        }
    }
    Ok(lines)
}

/// The front matter that writes a mapping, without line feeds at its end.
pub fn dump_yaml(mapping: &serde_yaml::Mapping) -> (r: Result<String, MetaError>)
    ensures
        match r {
            Ok(front) => {
                &&& dump_spec(mapping_entries(*mapping)) == Some(front@)
                &&& !has_separator_line(front@)
            },
            Err(e) => {
                &&& dump_spec(mapping_entries(*mapping)) is None
                &&& !plain_mapping(mapping_entries(*mapping))
                &&& e@ == MetaFault::Unserializable
            },
        },
{
    match dump_mapping(mapping) {
        Ok(lines) => Ok(trim_line_feeds(lines.as_str())),
        Err(e) => Err(e),
    }
}

/// What is trimmed off a text is line feeds at its end.
proof fn lemma_trimmed(t: Seq<char>)
    ensures
        trimmed(t).len() <= t.len(),
        trimmed(t) == t.take(trimmed(t).len() as int),
        all_space(trimmed(t)) ==> all_space(t),
    decreases t.len(),
{
    if t.len() > 0 && t.last() == '\n' {
        let less = t.drop_last();
        lemma_trimmed(less);
        assert(trimmed(t) =~= t.take(trimmed(t).len() as int));
        if all_space(less) {
            assert forall|i: int| 0 <= i < t.len() implies is_space(#[trigger] t[i]) by {
                if i < t.len() - 1 {
                    assert(less[i] == t[i]);
                }
            }
        }
    } else {
        assert(t.take(t.len() as int) =~= t);
    }
}

proof fn lemma_no_separator(t: Seq<char>, n: int)
    requires
        !dashed_line(t),
        0 <= n <= t.len(),
    ensures
        !has_separator_line(t.take(n)),
{
    let front = t.take(n);
    if has_separator_line(front) {
        let s = front.push('\n');
        let p = choose|p: int| line_start(front, 0, p) && #[trigger] sep_end(s, p) is Some;
        assert(s[p] == '-' && s[p + 1] == '-' && s[p + 2] == '-');
        assert(p + 2 < front.len());
        assert(starts_dashed(t, p));
        if p > 0 {
            assert(t[p - 1] == front[p - 1]);
        }
        assert(line_start(t, 0, p));
    }
}

/// Front matter without carriage returns is read as it stands.
pub proof fn lemma_source_keeps(t: Seq<char>)
    requires
        !t.contains('\r'),
    ensures
        source(t) == t,
{
    let ended = t.push('\n');
    assert(!ended.contains('\r')) by {
        if ended.contains('\r') {
            let i = choose|i: int| 0 <= i < ended.len() && ended[i] == '\r';
            assert(t[i] == '\r');
        }
    }
    lemma_unix_keeps(ended);
    assert(ended.drop_last() =~= t);
}

/// A text without carriage returns has line feeds for its line breaks already.
proof fn lemma_unix_keeps(t: Seq<char>)
    requires
        !t.contains('\r'),
    ensures
        unix(t) == t,
    decreases t.len(),
{
    if t.len() > 0 {
        let less = t.drop_last();
        assert(!less.contains('\r')) by {
            if less.contains('\r') {
                let i = choose|i: int| 0 <= i < less.len() && less[i] == '\r';
                assert(t[i] == '\r');
            }
        }
        lemma_unix_keeps(less);
        if t.len() >= 2 {
            assert(t[t.len() - 2] != '\r');
        }
        assert(less.push(t.last()) =~= t);
    }
}

/// What front matter writes is what `serde_yaml` reads in it, with line feeds for its line breaks:
/// the entries of a mapping, none where it is another value or white space alone, and nothing where
/// it is no YAML.
pub proof fn front_matter_is_read_by_serde_yaml(front: Seq<char>)
    ensures
        source(front).push('\n') == unix(front.push('\n')),
        (forall|i: int| 0 <= i < source(front).len() ==> is_space(#[trigger] source(front)[i]))
            ==> parse_spec(front) == Some(Seq::<(YamlTree, YamlTree)>::empty()),
        (exists|i: int| 0 <= i < source(front).len() && !is_space(#[trigger] source(front)[i])) ==> (
        match yaml_document(source(front)) {
            Some(YamlTree::Entries(entries)) => parse_spec(front) == Some(entries),
            Some(_) => parse_spec(front) == Some(Seq::<(YamlTree, YamlTree)>::empty()),
            None => parse_spec(front) is None,
        }),
        !front.contains('\r') ==> source(front) == front,
{
    let ended = front.push('\n');
    lemma_unix_ends(front);
    assert(unix(ended).drop_last().push('\n') =~= unix(ended));
    if !front.contains('\r') {
        lemma_source_keeps(front);
    }
}

proof fn lemma_unix_ends(front: Seq<char>)
    ensures
        unix(front.push('\n')).len() > 0,
        unix(front.push('\n')).last() == '\n',
{
    carriage_returns_before_line_feeds_go(front, '\n');
    if front.len() > 0 && front.last() == '\r' {
        carriage_returns_before_line_feeds_go(front.drop_last(), '\n');
        assert(front.drop_last().push('\r') =~= front);
    }
}

/// The entries of a document are those of its front matter, and none where it has no front matter.
pub proof fn a_document_has_the_entries_of_its_front_matter(text: Seq<char>)
    ensures
        match split_spec(text).0 {
            Some(front) => document_entries(text) == parse_spec(front),
            None => document_entries(text) == Some(Seq::<(YamlTree, YamlTree)>::empty()),
        },
{
}

/// Front matter is written as `serde_yaml` writes the mapping, but for a marker of a document at the
/// start and line feeds at the end.
pub proof fn front_matter_is_written_by_serde_yaml(entries: Seq<(YamlTree, YamlTree)>)
    ensures
        match yaml_text(entries) {
            Some(text) => {
                let marked = text.len() >= 4 && text[0] == '-' && text[1] == '-' && text[2] == '-'
                    && text[3] == '\n';
                let lines = if marked {
                    text.skip(4)
                } else {
                    text
                };
                dump_lines(entries) == Some(lines) && dump_spec(entries) == Some(trimmed(lines))
            },
            None => dump_lines(entries) is None && dump_spec(entries) is None,
        },
{
}

} // verus!
