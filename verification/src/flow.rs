//! The parts of front matter that is a mapping in braces.

use vstd::prelude::*;

use crate::layout::{joined, texts, Layout, LayoutView};
use crate::text::{chars_of, string_of};

verus! {

/// What a character belongs to: plain text, a string in single or in double quotes, an escape in
/// the latter, or a comment.
#[derive(Clone, Copy, PartialEq, Eq, Structural)]
pub enum Mode {
    Plain,
    Single,
    Double,
    Escape,
    Comment,
}

/// A blank or a line break.
pub open spec fn is_white(c: char) -> bool {
    c == ' ' || c == '\t' || c == '\r' || c == '\n'
}

/// White characters alone.
pub open spec fn all_white(s: Seq<char>) -> bool {
    forall|i: int| 0 <= i < s.len() ==> is_white(#[trigger] s[i])
}

/// A quote may open a string behind `c`.
pub open spec fn opens_behind(c: char) -> bool {
    is_white(c) || c == ',' || c == ':' || c == '[' || c == '{' || c == '\''
}

/// How many brackets are open and what comes next, after the character `c` behind `prev`.
pub open spec fn step(depth: nat, mode: Mode, prev: char, c: char) -> (nat, Mode) {
    match mode {
        Mode::Single => (depth, if c == '\'' { Mode::Plain } else { Mode::Single }),
        Mode::Double => (
            depth,
            if c == '\\' {
                Mode::Escape
            } else if c == '"' {
                Mode::Plain
            } else {
                Mode::Double
            },
        ),
        Mode::Escape => (depth, Mode::Double),
        Mode::Comment => (depth, if c == '\n' { Mode::Plain } else { Mode::Comment }),
        Mode::Plain => if c == '\'' && opens_behind(prev) {
            (depth, Mode::Single)
        } else if c == '"' && opens_behind(prev) {
            (depth, Mode::Double)
        } else if c == '#' && is_white(prev) {
            (depth, Mode::Comment)
        } else if c == '{' || c == '[' {
            (depth + 1, Mode::Plain)
        } else if (c == '}' || c == ']') && depth > 0 {
            ((depth - 1) as nat, Mode::Plain)
        } else {
            (depth, Mode::Plain)
        },
    }
}

/// How many brackets are open at `i` of those behind the brace before `from`, and what the
/// character there belongs to.
pub open spec fn place(s: Seq<char>, from: int, i: int) -> (nat, Mode)
    decreases i - from,
{
    if i <= from {
        (0, Mode::Plain)
    } else {
        let (depth, mode) = place(s, from, i - 1);
        step(depth, mode, s[i - 2], s[i - 1])
    }
}

/// The character `c` stands at `i`, in no bracket and no string.
pub open spec fn bare_at(s: Seq<char>, from: int, i: int, c: char) -> bool {
    place(s, from, i) == (0nat, Mode::Plain) && s[i] == c
}

/// The first brace from `i` on that closes the one before `from`.
pub open spec fn close_from(s: Seq<char>, from: int, i: int) -> Option<int>
    decreases s.len() - i,
{
    if i < from || i >= s.len() {
        None
    } else if bare_at(s, from, i, '}') {
        Some(i)
    } else {
        close_from(s, from, i + 1)
    }
}

/// What stands between the commas from `from` up to `to`.
pub open spec fn segments(s: Seq<char>, from: int, to: int) -> Seq<Seq<char>>
    decreases to - from,
{
    if to <= from {
        seq![Seq::empty()]
    } else {
        let before = segments(s, from, to - 1);
        if bare_at(s, from, to - 1, ',') {
            before.push(Seq::empty())
        } else {
            before.drop_last().push(before.last().push(s[to - 1]))
        }
    }
}

/// The first position at or after `i` that holds no white character.
pub open spec fn white_end(s: Seq<char>, i: int) -> int
    decreases s.len() - i,
{
    if 0 <= i < s.len() && is_white(s[i]) {
        white_end(s, i + 1)
    } else {
        i
    }
}

/// The first position at or after `i` that holds an opening brace, or the end.
pub open spec fn brace_from(s: Seq<char>, i: int) -> int
    decreases s.len() - i,
{
    if 0 <= i < s.len() && s[i] != '{' {
        brace_from(s, i + 1)
    } else {
        i
    }
}

/// Front matter that is a mapping in braces, cut at the commas between its entries. A tag or an
/// anchor may stand before the braces. A comma behind the last entry belongs to what stands behind.
pub open spec fn flow_layout(front: Seq<char>) -> Option<LayoutView> {
    let from = brace_from(front, 0) + 1;
    if from > front.len() {
        None
    } else {
        match close_from(front, from, from) {
            Some(close) => {
                let parts = segments(front, from, close);
                let ended = parts.len() > 1 && all_white(parts.last());
                Some(
                    LayoutView {
                        head: front.take(from),
                        parts: if ended {
                            parts.drop_last()
                        } else {
                            parts
                        },
                        tail: if ended {
                            seq![','] + parts.last() + front.skip(close)
                        } else {
                            front.skip(close)
                        },
                        flow: true,
                        margin: 0,
                    },
                )
            },
            None => None,
        }
    }
}

/// Whether `c` is white.
pub fn white(c: char) -> (r: bool)
    ensures
        r == is_white(c),
{
    c == ' ' || c == '\t' || c == '\r' || c == '\n'
}

/// Whether a text has white characters alone.
fn is_all_white(s: &str) -> (r: bool)
    ensures
        r == all_white(s@),
{
    let cs = chars_of(s);
    let mut i: usize = 0;
    while i < cs.len()
        invariant
            i <= cs@.len(),
            cs@ == s@,
            forall|j: int| 0 <= j < i ==> is_white(#[trigger] cs@[j]),
        decreases cs@.len() - i,
    {
        if !white(cs[i]) {
            return false;
        }
        i += 1;
    }
    true
}

/// How many brackets are open and what comes next, after the character `c` behind `prev`.
fn advance(depth: usize, mode: Mode, prev: char, c: char) -> (r: (usize, Mode))
    requires
        depth < usize::MAX,
    ensures
        (r.0 as nat, r.1) == step(depth as nat, mode, prev, c),
        r.0 <= depth + 1,
{
    let opens = white(prev) || prev == ',' || prev == ':' || prev == '[' || prev == '{' || prev
        == '\'';
    match mode {
        Mode::Single => (depth, if c == '\'' { Mode::Plain } else { Mode::Single }),
        Mode::Double => (
            depth,
            if c == '\\' {
                Mode::Escape
            } else if c == '"' {
                Mode::Plain
            } else {
                Mode::Double
            },
        ),
        Mode::Escape => (depth, Mode::Double),
        Mode::Comment => (depth, if c == '\n' { Mode::Plain } else { Mode::Comment }),
        Mode::Plain => if c == '\'' && opens {
            (depth, Mode::Single)
        } else if c == '"' && opens {
            (depth, Mode::Double)
        } else if c == '#' && white(prev) {
            (depth, Mode::Comment)
        } else if c == '{' || c == '[' {
            (depth + 1, Mode::Plain)
        } else if (c == '}' || c == ']') && depth > 0 {
            (depth - 1, Mode::Plain)
        } else {
            (depth, Mode::Plain)
        },
    }
}

/// What stands between the commas behind the brace before `from`, and where the brace stands that
/// closes it.
fn to_segments(cs: &Vec<char>, from: usize) -> (r: Option<(Vec<String>, usize)>)
    requires
        1 <= from <= cs@.len(),
    ensures
        match r {
            Some((parts, close)) => {
                &&& close_from(cs@, from as int, from as int) == Some(close as int)
                &&& from <= close < cs@.len()
                &&& texts(parts@) == segments(cs@, from as int, close as int)
            },
            None => close_from(cs@, from as int, from as int) is None,
        },
{
    let ghost s = cs@;
    let mut out: Vec<String> = Vec::new();
    let mut part = String::new();
    let mut depth: usize = 0;
    let mut mode = Mode::Plain;
    let mut i: usize = from;
    assert(texts(out@).push(part@) =~= segments(s, from as int, from as int));
    while i < cs.len()
        invariant
            1 <= from <= i <= cs@.len(),
            s == cs@,
            depth <= i - from,
            (depth as nat, mode) == place(s, from as int, i as int),
            texts(out@).push(part@) == segments(s, from as int, i as int),
            close_from(s, from as int, i as int) == close_from(s, from as int, from as int),
        decreases cs@.len() - i,
    {
        let c = cs[i];
        let bare = depth == 0 && mode == Mode::Plain;
        if bare && c == '}' {
            let ghost before = out@;
            out.push(part);
            assert(texts(out@) =~= texts(before).push(part@));
            return Some((out, i));
        }
        let ghost before = texts(out@).push(part@);
        assert(before.drop_last() =~= texts(out@));
        let (next_depth, next_mode) = advance(depth, mode, cs[i - 1], c);
        if bare && c == ',' {
            out.push(part);
            part = String::new();
            assert(texts(out@) =~= before);
        } else {
            part.push(c);
        }
        depth = next_depth;
        mode = next_mode;
        i += 1;
    }
    None
}

/// Front matter that is a mapping in braces, cut at the commas between its entries.
pub fn to_flow(front: &str) -> (r: Option<Layout>)
    ensures
        match r {
            Some(layout) => flow_layout(front@) == Some(layout@),
            None => flow_layout(front@) is None,
        },
{
    let cs = chars_of(front);
    let n = cs.len();
    let mut open: usize = 0;
    while open < n && cs[open] != '{'
        invariant
            open <= n == cs@.len(),
            brace_from(cs@, open as int) == brace_from(cs@, 0),
        decreases n - open,
    {
        open += 1;
    }
    if open >= n {
        return None;
    }
    let from = open + 1;
    let (segs, close) = match to_segments(&cs, from) {
        Some(found) => found,
        None => {
            return None;
        },
    };
    let mut parts = segs;
    let ghost all = texts(parts@);
    let head = string_of(&cs, 0, from);
    let mut tail = String::new();
    let mut ended = false;
    if parts.len() > 1 {
        assert(all.last() == parts@[parts@.len() - 1]@);
        ended = is_all_white(parts[parts.len() - 1].as_str());
    }
    if ended {
        let last = parts.pop().unwrap();
        tail.push(',');
        tail.append(last.as_str());
        assert(texts(parts@) =~= all.drop_last());
        assert(last@ == all.last());
    }
    let rest = string_of(&cs, close, n);
    tail.append(rest.as_str());
    proof {
        assert(head@ =~= front@.take(from as int));
        assert(rest@ =~= front@.skip(close as int));
        if ended {
            assert(tail@ =~= seq![','] + all.last() + front@.skip(close as int));
        } else {
            assert(tail@ =~= front@.skip(close as int));
        }
    }
    Some(Layout { head, parts, tail, flow: true, margin: 0 })
}

proof fn lemma_segments(s: Seq<char>, from: int, to: int)
    requires
        0 <= from <= to <= s.len(),
    ensures
        segments(s, from, to).len() > 0,
        joined(segments(s, from, to), ',') == s.subrange(from, to),
    decreases to - from,
{
    if to == from {
        assert(joined(segments(s, from, to), ',') =~= s.subrange(from, to));
    } else {
        lemma_segments(s, from, to - 1);
        let before = segments(s, from, to - 1);
        let after = segments(s, from, to);
        assert(s.subrange(from, to) =~= s.subrange(from, to - 1).push(s[to - 1]));
        if bare_at(s, from, to - 1, ',') {
            assert(after.drop_last() =~= before);
            assert(joined(after, ',') =~= s.subrange(from, to));
        } else {
            assert(after.drop_last() =~= before.drop_last());
            assert(joined(after, ',') =~= joined(before, ',').push(s[to - 1]));
        }
    }
}

proof fn lemma_close(s: Seq<char>, from: int, i: int)
    ensures
        close_from(s, from, i) matches Some(close) ==> i <= close < s.len(),
    decreases s.len() - i,
{
    if from <= i < s.len() {
        lemma_close(s, from, i + 1);
    }
}

proof fn lemma_brace(s: Seq<char>, i: int)
    requires
        0 <= i,
    ensures
        brace_from(s, i) >= i,
    decreases s.len() - i,
{
    if i < s.len() {
        lemma_brace(s, i + 1);
    }
}

/// The parts of front matter that is a mapping in braces make it up, with what stands before and
/// behind them.
pub proof fn braces_make_up_the_front_matter(front: Seq<char>)
    requires
        flow_layout(front) is Some,
    ensures
        flow_layout(front)->0.text() == front,
{
    let from = brace_from(front, 0) + 1;
    lemma_brace(front, 0);
    let close = close_from(front, from, from)->0;
    lemma_close(front, from, from);
    lemma_segments(front, from, close);
    let parts = segments(front, from, close);
    let middle = front.subrange(from, close);
    let layout = flow_layout(front)->0;
    assert(front =~= front.take(from) + middle + front.skip(close));
    if parts.len() > 1 && all_white(parts.last()) {
        assert(middle == joined(parts.drop_last(), ',').push(',') + parts.last());
        assert(layout.text() =~= front);
    } else {
        assert(layout.text() =~= front);
    }
}

/// In front matter without brackets, quotes and comments between its braces, each comma cuts.
pub proof fn each_plain_comma_cuts(s: Seq<char>, from: int, to: int)
    requires
        0 < from <= to <= s.len(),
        forall|i: int|
            from <= i < to ==> {
                let c = #[trigger] s[i];
                c != '{' && c != '}' && c != '[' && c != ']' && c != '\'' && c != '"' && c != '#'
            },
    ensures
        joined(segments(s, from, to), ',') == s.subrange(from, to),
        forall|k: int, j: int|
            0 <= k < segments(s, from, to).len() && 0 <= j < segments(s, from, to)[k].len()
                ==> #[trigger] segments(s, from, to)[k][j] != ',',
        place(s, from, to) == (0nat, Mode::Plain),
    decreases to - from,
{
    lemma_segments(s, from, to);
    if from < to {
        each_plain_comma_cuts(s, from, to - 1);
        lemma_segments(s, from, to - 1);
        let (before, after) = (segments(s, from, to - 1), segments(s, from, to));
        let c = s[to - 1];
        assert(c != '{' && c != '}' && c != '[' && c != ']' && c != '\'' && c != '"' && c != '#');
        assert forall|k: int, j: int|
            0 <= k < after.len() && 0 <= j < after[k].len() implies #[trigger] after[k][j] != ',' by {
            if k < before.len() - 1 {
                assert(after[k] == before[k]);
                assert(before[k][j] != ',');
            } else if k == before.len() - 1 && j < before[k].len() {
                assert(before[k][j] != ',');
            }
        }
    }
}

} // verus!
