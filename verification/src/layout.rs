//! Front matter as parts, and its parts at its lines.

use vstd::prelude::*;

use crate::text::chars_of;

verus! {

/// What each of `list` holds.
pub open spec fn texts(list: Seq<String>) -> Seq<Seq<char>> {
    list.map_values(|s: String| s@)
}

/// Front matter in parts, with what stands before and behind them. The parts stand between commas
/// where all of it is a mapping in braces, and in lines otherwise, which are indented by `margin`
/// blanks.
pub struct Layout {
    pub head: String,
    pub parts: Vec<String>,
    pub tail: String,
    pub flow: bool,
    pub margin: usize,
}

/// What a [`Layout`] is.
pub struct LayoutView {
    pub head: Seq<char>,
    pub parts: Seq<Seq<char>>,
    pub tail: Seq<char>,
    pub flow: bool,
    pub margin: nat,
}

impl View for Layout {
    type V = LayoutView;

    open spec fn view(&self) -> LayoutView {
        LayoutView {
            head: self.head@,
            parts: texts(self.parts@),
            tail: self.tail@,
            flow: self.flow,
            margin: self.margin as nat,
        }
    }
}

/// `parts` with `sep` between each two.
pub open spec fn joined(parts: Seq<Seq<char>>, sep: char) -> Seq<char>
    decreases parts.len(),
{
    if parts.len() == 0 {
        Seq::empty()
    } else if parts.len() == 1 {
        parts[0]
    } else {
        joined(parts.drop_last(), sep).push(sep) + parts.last()
    }
}

impl LayoutView {
    /// What stands between two parts.
    pub open spec fn sep(self) -> char {
        if self.flow {
            ','
        } else {
            '\n'
        }
    }

    /// The front matter with `parts` in place of its own.
    pub open spec fn with(self, parts: Seq<Seq<char>>) -> Seq<char> {
        self.head + joined(parts, self.sep()) + self.tail
    }

    /// The front matter.
    pub open spec fn text(self) -> Seq<char> {
        self.with(self.parts)
    }
}

/// The lines of `s`, without the line feeds between them.
pub open spec fn lines_of(s: Seq<char>) -> Seq<Seq<char>>
    decreases s.len(),
{
    if s.len() == 0 {
        seq![Seq::empty()]
    } else {
        let before = lines_of(s.drop_last());
        if s.last() == '\n' {
            before.push(Seq::empty())
        } else {
            before.drop_last().push(before.last().push(s.last()))
        }
    }
}

/// A blank, or the carriage return before a line feed.
pub open spec fn is_margin(c: char) -> bool {
    c == ' ' || c == '\t' || c == '\r'
}

/// All of `l` is blanks.
pub open spec fn blank_line(l: Seq<char>) -> bool {
    forall|i: int| 0 <= i < l.len() ==> is_margin(#[trigger] l[i])
}

/// How many blanks `l` starts with, from `i` on.
pub open spec fn indent_from(l: Seq<char>, i: int) -> int
    decreases l.len() - i,
{
    if 0 <= i < l.len() && l[i] == ' ' {
        indent_from(l, i + 1)
    } else {
        i
    }
}

/// How many blanks `l` starts with.
pub open spec fn indent(l: Seq<char>) -> int {
    indent_from(l, 0)
}

/// A comment that is indented by `margin` blanks.
pub open spec fn comment_at(l: Seq<char>, margin: int) -> bool {
    indent(l) == margin && margin < l.len() && l[margin] == '#'
}

/// How far the entries are indented: as far as the first line from `i` on that is neither blank
/// nor a comment.
pub open spec fn margin_from(lines: Seq<Seq<char>>, i: int) -> int
    decreases lines.len() - i,
{
    if 0 <= i < lines.len() {
        if blank_line(lines[i]) || comment_at(lines[i], indent(lines[i])) {
            margin_from(lines, i + 1)
        } else {
            indent(lines[i])
        }
    } else {
        0
    }
}

/// A line that is empty but for blanks, or that is a comment.
pub open spec fn gap_line(l: Seq<char>, margin: int) -> bool {
    blank_line(l) || comment_at(l, 0) || comment_at(l, margin)
}

/// A line that may start an entry: it is indented by `margin` blanks, is no comment, and neither an
/// item of a sequence nor the value of a key that stands before it, nor does it close brackets.
pub open spec fn start_line(l: Seq<char>, margin: int) -> bool {
    &&& indent(l) == margin
    &&& margin < l.len()
    &&& !is_margin(l[margin])
    &&& l[margin] != '#' && l[margin] != ']' && l[margin] != '}'
    &&& (l[margin] == '-' || l[margin] == ':') ==> l.len() > margin + 1 && !is_margin(l[margin + 1])
}

/// From line `i` on there are gaps alone up to the next line that may start an entry.
pub open spec fn closing_gap(lines: Seq<Seq<char>>, margin: int, i: int) -> bool
    decreases lines.len() - i,
{
    &&& 0 <= i < lines.len()
    &&& gap_line(lines[i], margin)
    &&& i + 1 == lines.len() || start_line(lines[i + 1], margin) || closing_gap(lines, margin, i + 1)
}

/// The parts of the first `n` lines. Each line that may start an entry starts a part, and each gap
/// between entries is a part of its own.
pub open spec fn parts_of(lines: Seq<Seq<char>>, margin: int, n: int) -> Seq<Seq<char>>
    decreases n,
{
    if n <= 0 {
        Seq::empty()
    } else {
        let before = parts_of(lines, margin, n - 1);
        let line = lines[n - 1];
        if n == 1 || start_line(line, margin) || closing_gap(lines, margin, n - 1) {
            before.push(line)
        } else {
            before.drop_last().push(before.last().push('\n') + line)
        }
    }
}

/// Front matter cut at its lines.
pub open spec fn block_layout(front: Seq<char>) -> LayoutView {
    let lines = lines_of(front);
    let margin = margin_from(lines, 0);
    LayoutView {
        head: Seq::empty(),
        parts: parts_of(lines, margin, lines.len() as int),
        tail: Seq::empty(),
        flow: false,
        margin: margin as nat,
    }
}

/// The lines of `s`.
fn to_lines(s: &str) -> (r: Vec<String>)
    ensures
        texts(r@) == lines_of(s@),
{
    let cs = chars_of(s);
    let mut out: Vec<String> = Vec::new();
    let mut line = String::new();
    let mut i: usize = 0;
    assert(texts(out@).push(line@) =~= lines_of(cs@.take(0)));
    while i < cs.len()
        invariant
            i <= cs@.len(),
            texts(out@).push(line@) == lines_of(cs@.take(i as int)),
        decreases cs@.len() - i,
    {
        let ghost before = texts(out@).push(line@);
        assert(cs@.take(i + 1).drop_last() =~= cs@.take(i as int));
        assert(before.drop_last() =~= texts(out@));
        if cs[i] == '\n' {
            out.push(line);
            line = String::new();
            assert(texts(out@) =~= before);
        } else {
            line.push(cs[i]);
        }
        i += 1;
    }
    assert(cs@.take(i as int) =~= cs@);
    let ghost before = out@;
    out.push(line);
    assert(texts(out@) =~= texts(before).push(line@));
    out
}

/// Whether `c` is a blank or a carriage return.
fn margin_char(c: char) -> (r: bool)
    ensures
        r == is_margin(c),
{
    c == ' ' || c == '\t' || c == '\r'
}

/// Whether a line is blank.
fn is_blank_line(cs: &Vec<char>) -> (r: bool)
    ensures
        r == blank_line(cs@),
{
    let mut i: usize = 0;
    while i < cs.len()
        invariant
            i <= cs@.len(),
            forall|j: int| 0 <= j < i ==> is_margin(#[trigger] cs@[j]),
        decreases cs@.len() - i,
    {
        if !margin_char(cs[i]) {
            return false;
        }
        i += 1;
    }
    true
}

/// How many blanks a line starts with.
fn indent_of(cs: &Vec<char>) -> (r: usize)
    ensures
        r == indent(cs@),
        r <= cs@.len(),
{
    let mut i: usize = 0;
    while i < cs.len() && cs[i] == ' '
        invariant
            i <= cs@.len(),
            indent_from(cs@, i as int) == indent(cs@),
        decreases cs@.len() - i,
    {
        i += 1;
    }
    i
}

/// Whether a line is a comment that is indented by `margin` blanks.
fn is_comment_at(cs: &Vec<char>, margin: usize) -> (r: bool)
    ensures
        r == comment_at(cs@, margin as int),
{
    indent_of(cs) == margin && margin < cs.len() && cs[margin] == '#'
}

/// How far the entries are indented.
fn margin_of(lines: &Vec<String>) -> (r: usize)
    ensures
        r == margin_from(texts(lines@), 0),
{
    let ghost ls = texts(lines@);
    let mut i: usize = 0;
    while i < lines.len()
        invariant
            i <= lines@.len(),
            ls == texts(lines@),
            margin_from(ls, i as int) == margin_from(ls, 0),
        decreases lines@.len() - i,
    {
        let cs = chars_of(lines[i].as_str());
        assert(ls[i as int] == cs@);
        let m = indent_of(&cs);
        if !is_blank_line(&cs) && !is_comment_at(&cs, m) {
            return m;
        }
        i += 1;
    }
    0
}

/// Whether a line is a gap.
fn is_gap(line: &str, margin: usize) -> (r: bool)
    ensures
        r == gap_line(line@, margin as int),
{
    let cs = chars_of(line);
    is_blank_line(&cs) || is_comment_at(&cs, 0) || is_comment_at(&cs, margin)
}

/// Whether a line may start an entry.
fn is_start(line: &str, margin: usize) -> (r: bool)
    ensures
        r == start_line(line@, margin as int),
{
    let cs = chars_of(line);
    if indent_of(&cs) != margin || margin >= cs.len() {
        return false;
    }
    let c = cs[margin];
    if margin_char(c) || c == '#' || c == ']' || c == '}' {
        return false;
    }
    if c == '-' || c == ':' {
        cs.len() - margin > 1 && !margin_char(cs[margin + 1])
    } else {
        true
    }
}

/// Which lines are gaps with gaps alone behind them up to the next entry.
fn closing_gaps(lines: &Vec<String>, margin: usize) -> (r: Vec<bool>)
    ensures
        r@.len() == lines@.len(),
        forall|i: int|
            0 <= i < r@.len() ==> #[trigger] r@[i] == closing_gap(texts(lines@), margin as int, i),
{
    let n = lines.len();
    let ghost ls = texts(lines@);
    let mut out: Vec<bool> = Vec::new();
    let mut k: usize = 0;
    while k < n
        invariant
            k <= n,
            out@.len() == k,
        decreases n - k,
    {
        out.push(false);
        k += 1;
    }
    let mut i: usize = n;
    while i > 0
        invariant
            i <= n,
            n == lines@.len(),
            out@.len() == n,
            ls == texts(lines@),
            forall|j: int| i <= j < n ==> #[trigger] out@[j] == closing_gap(ls, margin as int, j),
        decreases i,
    {
        i -= 1;
        let gap = is_gap(lines[i].as_str(), margin) && (i + 1 == n || is_start(
            lines[i + 1].as_str(),
            margin,
        ) || out[i + 1]);
        assert(gap == closing_gap(ls, margin as int, i as int));
        out.set(i, gap);
    }
    out
}

/// Front matter cut at its lines.
pub fn to_block(front: &str) -> (r: Layout)
    ensures
        r@ == block_layout(front@),
{
    let lines = to_lines(front);
    let margin = margin_of(&lines);
    let closing = closing_gaps(&lines, margin);
    let ghost ls = texts(lines@);
    let mut out: Vec<String> = Vec::new();
    let mut i: usize = 0;
    assert(texts(out@) =~= parts_of(ls, margin as int, 0));
    while i < lines.len()
        invariant
            i <= lines@.len(),
            ls == texts(lines@),
            closing@.len() == lines@.len(),
            forall|j: int|
                0 <= j < closing@.len() ==> #[trigger] closing@[j] == closing_gap(
                    ls,
                    margin as int,
                    j,
                ),
            texts(out@) == parts_of(ls, margin as int, i as int),
            i > 0 ==> out@.len() > 0,
        decreases lines@.len() - i,
    {
        let ghost before = out@;
        let line = lines[i].as_str();
        assert(ls[i as int] == line@);
        if i == 0 || is_start(line, margin) || closing[i] {
            out.push(line.to_owned());
            assert(texts(out@) =~= texts(before).push(line@));
        } else {
            let mut part = out.pop().unwrap();
            let ghost last = part@;
            part.push('\n');
            part.append(line);
            out.push(part);
            assert(texts(before).last() == last);
            assert(texts(out@) =~= texts(before).drop_last().push(last.push('\n') + line@));
        }
        i += 1;
    }
    let head = String::new();
    let tail = String::new();
    assert(head@ =~= Seq::empty() && tail@ =~= Seq::empty());
    Layout { head, parts: out, tail, flow: false, margin }
}

/// The first `n` of `parts` with `sep` between each two.
pub fn join_parts(parts: &Vec<String>, n: usize, sep: char) -> (r: String)
    requires
        n <= parts@.len(),
    ensures
        r@ == joined(texts(parts@).take(n as int), sep),
{
    let mut out = String::new();
    let ghost ts = texts(parts@);
    let mut i: usize = 0;
    assert(ts.take(0) =~= Seq::empty());
    while i < n
        invariant
            i <= n <= parts@.len(),
            ts == texts(parts@),
            out@ == joined(ts.take(i as int), sep),
        decreases n - i,
    {
        assert(ts.take(i + 1).drop_last() =~= ts.take(i as int));
        assert(ts.take(i + 1).last() == parts@[i as int]@);
        if i > 0 {
            out.push(sep);
        }
        out.append(parts[i].as_str());
        assert(out@ =~= joined(ts.take(i + 1), sep));
        i += 1;
    }
    out
}

proof fn lemma_lines_joined(s: Seq<char>)
    ensures
        lines_of(s).len() > 0,
        joined(lines_of(s), '\n') == s,
    decreases s.len(),
{
    if s.len() == 0 {
        assert(joined(lines_of(s), '\n') =~= s);
    } else {
        let less = s.drop_last();
        lemma_lines_joined(less);
        let before = lines_of(less);
        let lines = lines_of(s);
        if s.last() == '\n' {
            assert(lines.drop_last() =~= before);
            assert(joined(lines, '\n') =~= s);
        } else {
            assert(lines.drop_last() =~= before.drop_last());
            assert(joined(lines, '\n') =~= joined(before, '\n').push(s.last()));
            assert(less.push(s.last()) =~= s);
        }
    }
}

proof fn lemma_parts_joined(lines: Seq<Seq<char>>, margin: int, n: int)
    requires
        0 <= n <= lines.len(),
    ensures
        n > 0 ==> parts_of(lines, margin, n).len() > 0,
        joined(parts_of(lines, margin, n), '\n') == joined(lines.take(n), '\n'),
    decreases n,
{
    if n > 0 {
        lemma_parts_joined(lines, margin, n - 1);
        let before = parts_of(lines, margin, n - 1);
        let after = parts_of(lines, margin, n);
        let line = lines[n - 1];
        assert(lines.take(n).drop_last() =~= lines.take(n - 1));
        assert(lines.take(n).last() == line);
        if n == 1 {
            assert(after =~= seq![line]);
            assert(joined(lines.take(1), '\n') == line);
        } else if start_line(line, margin) || closing_gap(lines, margin, n - 1) {
            assert(after.drop_last() =~= before);
        } else {
            assert(after.drop_last() =~= before.drop_last());
            assert(joined(after, '\n') =~= joined(before, '\n').push('\n') + line);
        }
    } else {
        assert(lines.take(0) =~= Seq::empty());
    }
}

/// The parts of front matter that is cut at its lines make it up.
pub proof fn lines_make_up_the_front_matter(front: Seq<char>)
    ensures
        block_layout(front).text() == front,
{
    let lines = lines_of(front);
    lemma_lines_joined(front);
    lemma_parts_joined(lines, margin_from(lines, 0), lines.len() as int);
    assert(lines.take(lines.len() as int) =~= lines);
    assert(block_layout(front).text() =~= front);
}

/// Parts are joined with what stands between them.
pub proof fn parts_are_joined(parts: Seq<Seq<char>>, part: Seq<char>, l: LayoutView)
    ensures
        joined(Seq::empty(), l.sep()) == Seq::<char>::empty(),
        joined(seq![part], l.sep()) == part,
        parts.len() > 0 ==> joined(parts.push(part), l.sep()) == joined(parts, l.sep()) + seq![
            l.sep(),
        ] + part,
        l.sep() == if l.flow { ',' } else { '\n' },
        l.with(parts) == l.head + joined(parts, l.sep()) + l.tail,
        l.text() == l.with(l.parts),
{
    if parts.len() > 0 {
        assert(parts.push(part).drop_last() =~= parts);
        assert(joined(parts.push(part), l.sep()) =~= joined(parts, l.sep()) + seq![l.sep()] + part);
    }
}

/// Lines have no line feed, and with one between each two they are the text.
pub proof fn lines_are_between_line_feeds(s: Seq<char>)
    ensures
        joined(lines_of(s), '\n') == s,
        lines_of(s).len() > 0,
        forall|i: int, j: int|
            0 <= i < lines_of(s).len() && 0 <= j < lines_of(s)[i].len() ==> #[trigger] lines_of(s)[i][j]
                != '\n',
    decreases s.len(),
{
    lemma_lines_joined(s);
    if s.len() > 0 {
        let less = s.drop_last();
        lines_are_between_line_feeds(less);
        let (before, after) = (lines_of(less), lines_of(s));
        assert forall|i: int, j: int|
            0 <= i < after.len() && 0 <= j < after[i].len() implies #[trigger] after[i][j] != '\n' by {
            if i < before.len() - 1 {
                assert(after[i] == before[i]);
                assert(before[i][j] != '\n');
            } else if i == before.len() - 1 && j < before[i].len() {
                assert(before[i][j] != '\n');
            }
        }
    }
}

/// Where entries are not indented: a line starts one unless it is empty, indented, a comment, an
/// item of a sequence, the value of a key before it, or closes brackets. A line of blanks and a
/// comment are gaps.
pub proof fn lines_by_form(l: Seq<char>)
    ensures
        start_line(l, 0) <==> l.len() > 0 && l[0] != ' ' && l[0] != '\t' && l[0] != '\r' && l[0] != '#'
            && l[0] != ']' && l[0] != '}' && ((l[0] == '-' || l[0] == ':') ==> l.len() > 1 && l[1] != ' '
            && l[1] != '\t' && l[1] != '\r'),
        gap_line(l, 0) <==> (l.len() > 0 && l[0] == '#') || forall|i: int|
            0 <= i < l.len() ==> #[trigger] l[i] == ' ' || l[i] == '\t' || l[i] == '\r',
{
    if l.len() > 0 && l[0] != ' ' {
        assert(indent(l) == 0);
    }
    if l.len() > 0 && l[0] == ' ' {
        lemma_indent(l, 1);
        assert(indent(l) == indent_from(l, 1));
    }
    if forall|i: int| 0 <= i < l.len() ==> #[trigger] l[i] == ' ' || l[i] == '\t' || l[i] == '\r' {
        assert(blank_line(l));
    }
    if blank_line(l) {
        assert forall|i: int| 0 <= i < l.len() implies #[trigger] l[i] == ' ' || l[i] == '\t' || l[i]
            == '\r' by {
            assert(is_margin(l[i]));
        }
    }
}

proof fn lemma_indent(l: Seq<char>, i: int)
    requires
        0 <= i,
    ensures
        indent_from(l, i) >= i,
    decreases l.len() - i,
{
    if i < l.len() {
        lemma_indent(l, i + 1);
    }
}

/// Front matter is cut before each line that may start an entry, and before each gap that the next
/// entry or the end follows, and nowhere else.
pub proof fn parts_are_cut_at_entries_and_gaps(lines: Seq<Seq<char>>, margin: int, n: int)
    requires
        0 < n < lines.len(),
    ensures
        ({
            let before = parts_of(lines, margin, n);
            let after = parts_of(lines, margin, n + 1);
            let gap = gap_line(lines[n], margin);
            &&& start_line(lines[n], margin) ==> after == before.push(lines[n])
            &&& gap && (n + 1 == lines.len() || start_line(lines[n + 1], margin)) ==> after
                == before.push(lines[n])
            &&& !start_line(lines[n], margin) && !gap ==> after == before.drop_last().push(
                before.last().push('\n') + lines[n],
            )
            &&& after.len() == before.len() || after == before.push(lines[n])
        }),
        parts_of(lines, margin, 1) == seq![lines[0]],
{
    lemma_parts_joined(lines, margin, n);
    assert(parts_of(lines, margin, 1) =~= seq![lines[0]]) by {
        assert(parts_of(lines, margin, 0) == Seq::<Seq<char>>::empty());
    }
}

/// Front matter whose first line starts an entry at its first character is not indented.
pub proof fn entries_at_the_margin(front: Seq<char>)
    ensures
        !block_layout(front).flow,
        block_layout(front).head.len() == 0,
        block_layout(front).tail.len() == 0,
        start_line(lines_of(front)[0], 0) ==> block_layout(front).margin == 0,
        start_line(lines_of(front)[0], 0) ==> block_layout(front).parts == parts_of(
            lines_of(front),
            0,
            lines_of(front).len() as int,
        ),
{
    lemma_lines_joined(front);
    let l = lines_of(front)[0];
    if start_line(l, 0) {
        assert(!is_margin(l[0]));
        assert(!blank_line(l));
        assert(indent(l) == 0);
    }
}

} // verus!
