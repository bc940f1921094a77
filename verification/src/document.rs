//! Splitting a document into front matter and body, and putting it back together.
//!
//! A document starts with a separator line (`---`, then spaces or tabs, then a line
//! break or the end of the text). The front matter runs up to the next separator line;
//! what follows that line is the body.

use vstd::prelude::*;

use crate::text::{chars_of, string_of};

verus! {

/// A character that may follow the dashes of a separator line.
pub open spec fn is_blank(c: char) -> bool {
    c == ' ' || c == '\t'
}

/// The first position at or after `i` that holds no blank.
pub open spec fn blank_end(t: Seq<char>, i: int) -> int
    decreases t.len() - i,
{
    if 0 <= i < t.len() && is_blank(t[i]) {
        blank_end(t, i + 1)
    } else {
        i
    }
}

/// Where the separator line that starts at `at` ends, its line break included. `None` if no
/// separator line starts there.
pub open spec fn sep_end(t: Seq<char>, at: int) -> Option<int> {
    if 0 <= at && at + 3 <= t.len() && t[at] == '-' && t[at + 1] == '-' && t[at + 2] == '-' {
        let e = blank_end(t, at + 3);
        if e == t.len() {
            Some(e)
        } else if t[e] == '\n' {
            Some(e + 1)
        } else if e + 1 < t.len() && t[e] == '\r' && t[e + 1] == '\n' {
            Some(e + 2)
        } else {
            None
        }
    } else {
        None
    }
}

/// A line of the text from `open` on starts at `p`.
pub open spec fn line_start(t: Seq<char>, open: int, p: int) -> bool {
    p == open || (open < p <= t.len() && t[p - 1] == '\n')
}

/// The first separator line of the text from `open` on starts at `p`.
pub open spec fn closes_at(t: Seq<char>, open: int, p: int) -> bool {
    &&& line_start(t, open, p)
    &&& sep_end(t, p) is Some
    &&& forall|q: int| open <= q < p && line_start(t, open, q) ==> sep_end(t, q) is None
}

/// The first separator line of the text from `open` on.
pub open spec fn closing_line(t: Seq<char>, open: int) -> int {
    choose|p: int| closes_at(t, open, p)
}

/// Where the front matter of a document starts, and where its closing line starts.
pub open spec fn front_at(t: Seq<char>) -> Option<(int, int)> {
    match sep_end(t, 0) {
        Some(open) => if exists|p: int| closes_at(t, open, p) {
            Some((open, closing_line(t, open)))
        } else {
            None
        },
        None => None,
    }
}

/// The front matter of a document, if it has any, and its body.
pub open spec fn split_spec(t: Seq<char>) -> (Option<Seq<char>>, Seq<char>) {
    match front_at(t) {
        Some((open, p)) => {
            let front = if p == open {
                Seq::empty()
            } else {
                t.subrange(open, p - 1)
            };
            (Some(front), t.skip(sep_end(t, p)->0))
        },
        None => (None, t),
    }
}

/// The document with the front matter `front` and the body `body`.
pub open spec fn join_spec(front: Seq<char>, body: Seq<char>) -> Seq<char> {
    let head = seq!['-', '-', '-', '\n'] + front + seq!['\n', '-', '-', '-'];
    if body.len() == 0 {
        head
    } else {
        head.push('\n') + body
    }
}

/// The document `t` with the front matter `front` in place of its own: what stands before its front
/// matter, and its closing line with all that follows, stay as they are. A document without front
/// matter becomes the body.
pub open spec fn replace_spec(t: Seq<char>, front: Seq<char>) -> Seq<char> {
    match front_at(t) {
        Some((open, p)) => t.take(open) + front.push('\n') + t.skip(p),
        None => join_spec(front, t),
    }
}

/// A line of `front` is a separator line, so that `front` would end there.
pub open spec fn has_separator_line(front: Seq<char>) -> bool {
    exists|p: int| line_start(front, 0, p) && #[trigger] sep_end(front.push('\n'), p) is Some
}

/// A line of `t` starts with three dashes.
pub open spec fn dashed_line(t: Seq<char>) -> bool {
    exists|p: int| #[trigger] line_start(t, 0, p) && starts_dashed(t, p)
}

/// Three dashes stand at `p`.
pub open spec fn starts_dashed(t: Seq<char>, p: int) -> bool {
    0 <= p && p + 3 <= t.len() && t[p] == '-' && t[p + 1] == '-' && t[p + 2] == '-'
}

/// Blanks end at the first position that holds none.
pub proof fn lemma_blank_end(t: Seq<char>, i: int)
    requires
        0 <= i <= t.len(),
    ensures
        i <= blank_end(t, i) <= t.len(),
        forall|k: int| i <= k < blank_end(t, i) ==> is_blank(#[trigger] t[k]),
        blank_end(t, i) < t.len() ==> !is_blank(t[blank_end(t, i)]),
    decreases t.len() - i,
{
    if i < t.len() && is_blank(t[i]) {
        lemma_blank_end(t, i + 1);
    }
}

proof fn lemma_closes_once(t: Seq<char>, open: int, p: int, q: int)
    requires
        closes_at(t, open, p),
        closes_at(t, open, q),
        open <= p,
        open <= q,
    ensures
        p == q,
{
}

/// The closing line of a document is the first one that is found.
pub proof fn lemma_closes(t: Seq<char>, open: int, p: int)
    requires
        sep_end(t, 0) == Some(open),
        closes_at(t, open, p),
        open <= p,
    ensures
        front_at(t) == Some((open, p)),
{
    let c = closing_line(t, open);
    assert(exists|q: int| closes_at(t, open, q));
    assert(closes_at(t, open, c));
    lemma_closes_once(t, open, p, c);
    let (a, b) = front_at(t)->0;
    assert(front_at(t) is Some && a == open && b == c);
}

/// The end of the separator line of `cs` that starts at `at`.
fn strip_sep(cs: &Vec<char>, at: usize) -> (r: Option<usize>)
    requires
        at <= cs@.len(),
    ensures
        match r {
            Some(e) => sep_end(cs@, at as int) == Some(e as int) && at + 3 <= e <= cs@.len(),
            None => sep_end(cs@, at as int) is None,
        },
{
    let n = cs.len();
    if n - at < 3 || cs[at] != '-' || cs[at + 1] != '-' || cs[at + 2] != '-' {
        return None;
    }
    let mut e: usize = at + 3;
    while e < n && (cs[e] == ' ' || cs[e] == '\t')
        invariant
            at + 3 <= e <= n,
            n == cs@.len(),
            blank_end(cs@, at + 3) == blank_end(cs@, e as int),
        decreases n - e,
    {
        e += 1;
    }
    if e == n {
        Some(e)
    } else if cs[e] == '\n' {
        Some(e + 1)
    } else if n - e >= 2 && cs[e] == '\r' && cs[e + 1] == '\n' {
        Some(e + 2)
    } else {
        None
    }
}

/// Where the front matter of a document starts, where its closing line starts, and where its body
/// starts.
fn find_front(cs: &Vec<char>) -> (r: Option<(usize, usize, usize)>)
    ensures
        match r {
            Some((open, p, end)) => {
                &&& front_at(cs@) == Some((open as int, p as int))
                &&& sep_end(cs@, 0) == Some(open as int)
                &&& closes_at(cs@, open as int, p as int)
                &&& sep_end(cs@, p as int) == Some(end as int)
                &&& 3 <= open <= p < end <= cs@.len()
            },
            None => front_at(cs@) is None,
        },
{
    let n = cs.len();
    let open = match strip_sep(cs, 0) {
        Some(open) => open,
        None => {
            return None;
        },
    };
    let mut p: usize = open;
    let mut at_line: bool = true;
    while p < n
        invariant
            3 <= open <= p <= n,
            n == cs@.len(),
            sep_end(cs@, 0) == Some(open as int),
            at_line == line_start(cs@, open as int, p as int),
            forall|q: int|
                open <= q < p && #[trigger] line_start(cs@, open as int, q) ==> sep_end(cs@, q) is None,
        decreases n - p,
    {
        if at_line {
            if let Some(end) = strip_sep(cs, p) {
                proof {
                    lemma_closes(cs@, open as int, p as int);
                }
                return Some((open, p, end));
            }
        }
        at_line = cs[p] == '\n';
        p += 1;
    }
    proof {
        if exists|c: int| closes_at(cs@, open as int, c) {
            let c = choose|c: int| closes_at(cs@, open as int, c);
            assert(line_start(cs@, open as int, c));
            assert(open <= c <= p);
        }
    }
    None
}

/// The front matter of a document, without its separator lines, and its body.
///
/// The front matter is `None` where the text does not start with a separator line or where
/// no second one follows; the body is then the whole text. The body is never changed.
pub fn split(text: &str) -> (r: (Option<String>, String))
    ensures
        r.1@ == split_spec(text@).1,
        match r.0 {
            Some(front) => split_spec(text@).0 == Some(front@),
            None => split_spec(text@).0 is None,
        },
{
    let cs = chars_of(text);
    match find_front(&cs) {
        Some((open, p, end)) => {
            let front = if p == open {
                String::new()
            } else {
                string_of(&cs, open, p - 1)
            };
            assert(cs@.skip(end as int) =~= cs@.subrange(end as int, cs@.len() as int));
            (Some(front), string_of(&cs, end, cs.len()))
        },
        None => (None, text.to_owned()),
    }
}

/// The document `text` with the front matter `fm` in place of its own. Its separator lines and its
/// body stay as they are; a document without front matter becomes the body.
pub fn replace_front(text: &str, fm: &str) -> (r: String)
    ensures
        r@ == replace_spec(text@, fm@),
{
    let cs = chars_of(text);
    match find_front(&cs) {
        Some((open, p, _)) => {
            let mut out = string_of(&cs, 0, open);
            out.append(fm);
            out.push('\n');
            out.append(string_of(&cs, p, cs.len()).as_str());
            assert(out@ =~= replace_spec(text@, fm@));
            out
        },
        None => join(fm, text),
    }
}

/// The document with the front matter `fm` and the body `body`.
pub fn join(fm: &str, body: &str) -> (r: String)
    ensures
        r@ == join_spec(fm@, body@),
{
    proof {
        reveal_strlit("---\n");
        reveal_strlit("\n---");
        reveal_strlit("\n");
    }
    let mut out = String::from_str("---\n");
    out.append(fm);
    out.append("\n---");
    if !body.is_empty() {
        out.append("\n");
        out.append(body);
    }
    assert(out@ =~= join_spec(fm@, body@));
    out
}

proof fn lemma_blank_end_shift(t: Seq<char>, s: Seq<char>, a: int, i: int)
    requires
        0 <= a,
        a + s.len() <= t.len(),
        s == t.subrange(a, a + s.len()),
        s.len() > 0,
        s.last() == '\n',
        0 <= i < s.len(),
    ensures
        blank_end(t, a + i) == a + blank_end(s, i),
        i <= blank_end(s, i) < s.len(),
    decreases s.len() - i,
{
    assert(s[i] == t[a + i]);
    if is_blank(s[i]) {
        lemma_blank_end_shift(t, s, a, i + 1);
    }
}

/// A text that ends in a line break decides by itself which of its lines are separator lines.
proof fn lemma_sep_shift(t: Seq<char>, s: Seq<char>, a: int, i: int)
    requires
        0 <= a,
        a + s.len() <= t.len(),
        s == t.subrange(a, a + s.len()),
        s.len() > 0,
        s.last() == '\n',
        0 <= i < s.len(),
    ensures
        match sep_end(s, i) {
            Some(e) => sep_end(t, a + i) == Some(a + e),
            None => sep_end(t, a + i) is None,
        },
{
    assert(forall|k: int| 0 <= k < s.len() ==> s[k] == t[a + k]);
    assert(s[s.len() - 1] == '\n');
    if i + 3 < s.len() {
        lemma_blank_end_shift(t, s, a, i + 3);
    }
}

proof fn lemma_split_at(t: Seq<char>, open: int, p: int)
    requires
        sep_end(t, 0) == Some(open),
        open <= p,
        closes_at(t, open, p),
    ensures
        split_spec(t) == (
            Some(
                if p == open {
                    Seq::empty()
                } else {
                    t.subrange(open, p - 1)
                },
            ),
            t.skip(sep_end(t, p)->0),
        ),
{
    lemma_closes(t, open, p);
}

/// The parts of a document are taken from it unchanged: the body is the end of the text, and
/// a document without front matter is all body.
pub proof fn split_keeps_the_body(t: Seq<char>)
    ensures
        split_spec(t).1.len() <= t.len(),
        split_spec(t).1 == t.skip(t.len() - split_spec(t).1.len()),
        split_spec(t).0 is None ==> split_spec(t).1 == t,
{
    if let Some(open) = sep_end(t, 0) {
        if exists|p: int| closes_at(t, open, p) {
            let p = choose|p: int| closes_at(t, open, p);
            lemma_blank_end(t, p + 3);
        }
    }
}

/// A document that was put together comes apart into the same front matter and the same body,
/// exactly if no line of the front matter is itself a separator line.
pub proof fn split_of_join(front: Seq<char>, body: Seq<char>)
    ensures
        split_spec(join_spec(front, body)) == (Some(front), body) <==> !has_separator_line(front),
{
    let t = join_spec(front, body);
    let s = front.push('\n');
    let m = front.len() as int;
    assert(t.subrange(4, m + 5) =~= s);
    assert(blank_end(t, 3) == 3);
    assert(sep_end(t, 0) == Some(4int));
    // The closing line.
    assert(t[m + 5] == '-' && t[m + 6] == '-' && t[m + 7] == '-');
    assert(blank_end(t, m + 8) == m + 8);
    assert(sep_end(t, m + 5) is Some);
    assert(t.skip(sep_end(t, m + 5)->0) =~= body);
    assert(t[m + 4] == '\n');
    assert forall|q: int| 4 <= q < m + 5 implies {
        &&& line_start(t, 4, q) == line_start(front, 0, q - 4)
        &&& sep_end(t, q) is Some == sep_end(s, q - 4) is Some
    } by {
        lemma_sep_shift(t, s, 4, q - 4);
        if q > 4 {
            assert(t[q - 1] == front[q - 5]);
        }
    }
    if has_separator_line(front) {
        let p0 = choose|p: int| line_start(front, 0, p) && #[trigger] sep_end(s, p) is Some;
        lemma_sep_shift(t, s, 4, p0);
        assert(line_start(t, 4, p0 + 4));
        lemma_first_separator(t, 4, p0 + 4);
        let p = choose|p: int| 4 <= p <= p0 + 4 && closes_at(t, 4, p);
        lemma_split_at(t, 4, p);
        assert(split_spec(t).0->0.len() < m || (p == 4 && split_spec(t).0->0.len() == 0));
        if m == 0 {
            assert(p0 == 0);
            assert(s.len() == 1);
        }
    } else {
        assert(closes_at(t, 4, m + 5)) by {
            assert forall|q: int| 4 <= q < m + 5 && line_start(t, 4, q) implies sep_end(t, q) is None by {
                assert(line_start(front, 0, q - 4));
            }
        }
        lemma_split_at(t, 4, m + 5);
        assert(t.subrange(4, m + 4) =~= front);
    }
}

/// Where there is a separator line, there is a first one.
pub proof fn lemma_first_separator(t: Seq<char>, open: int, q: int)
    requires
        open <= q,
        line_start(t, open, q),
        sep_end(t, q) is Some,
    ensures
        exists|p: int| open <= p <= q && closes_at(t, open, p),
    decreases q - open,
{
    if exists|r: int| open <= r < q && line_start(t, open, r) && sep_end(t, r) is Some {
        let r = choose|r: int| open <= r < q && line_start(t, open, r) && sep_end(t, r) is Some;
        lemma_first_separator(t, open, r);
    } else {
        assert(closes_at(t, open, q));
    }
}

/// Front matter that was split off a document has no separator line, so that the document
/// can be put together from its parts and split into the same parts again.
pub proof fn split_parts_rejoin(t: Seq<char>)
    ensures
        split_spec(t) matches (Some(front), body) ==> {
            &&& !has_separator_line(front)
            &&& split_spec(join_spec(front, body)) == (Some(front), body)
        },
{
    if let (Some(front), body) = split_spec(t) {
        let open = sep_end(t, 0)->0;
        let p = choose|p: int| closes_at(t, open, p);
        lemma_blank_end(t, 3);
        let s = front.push('\n');
        if has_separator_line(front) {
            let i = choose|i: int| line_start(front, 0, i) && #[trigger] sep_end(s, i) is Some;
            if p == open {
                assert(s.len() == 1);
            } else {
                assert(t.subrange(open, open + s.len()) =~= s);
                lemma_sep_shift(t, s, open, i);
                if i > 0 {
                    assert(t[open + i - 1] == front[i - 1]);
                }
                assert(line_start(t, open, open + i));
            }
        }
        split_of_join(front, body);
    }
}

/// Where front matter starts and ends.
pub proof fn lemma_front_at(t: Seq<char>)
    ensures
        front_at(t) matches Some((open, p)) ==> {
            &&& sep_end(t, 0) == Some(open)
            &&& closes_at(t, open, p)
            &&& 4 <= open <= p
            &&& p + 3 <= sep_end(t, p)->0 <= t.len()
            &&& t[open - 1] == '\n'
            &&& p > open ==> t[p - 1] == '\n'
        },
{
    if let Some((open, p)) = front_at(t) {
        lemma_blank_end(t, 3);
        lemma_blank_end(t, p + 3);
    }
}

proof fn lemma_blank_end_suffix(u: Seq<char>, a: int, v: Seq<char>, b: int, i: int)
    requires
        0 <= a <= u.len(),
        0 <= b <= v.len(),
        u.skip(a) == v.skip(b),
        0 <= i <= u.len() - a,
    ensures
        u.len() - a == v.len() - b,
        blank_end(u, a + i) - a == blank_end(v, b + i) - b,
    decreases u.len() - a - i,
{
    assert(u.skip(a).len() == u.len() - a && v.skip(b).len() == v.len() - b);
    if i < u.len() - a {
        assert(u.skip(a)[i] == u[a + i]);
        assert(v.skip(b)[i] == v[b + i]);
        lemma_blank_end_suffix(u, a, v, b, i + 1);
    }
}

/// What follows decides whether a separator line starts somewhere.
proof fn lemma_sep_suffix(u: Seq<char>, a: int, v: Seq<char>, b: int)
    requires
        0 <= a <= u.len(),
        0 <= b <= v.len(),
        u.skip(a) == v.skip(b),
    ensures
        match sep_end(u, a) {
            Some(e) => sep_end(v, b) == Some(e - a + b),
            None => sep_end(v, b) is None,
        },
{
    assert(u.skip(a).len() == u.len() - a && v.skip(b).len() == v.len() - b);
    assert forall|j: int| a <= j < u.len() implies #[trigger] u[j] == v[j - a + b] by {
        assert(u.skip(a)[j - a] == u[j]);
        assert(v.skip(b)[j - a] == v[j - a + b]);
    }
    if u.len() - a >= 3 {
        assert(u[a + 0] == v[b + 0] && u[a + 1] == v[b + 1] && u[a + 2] == v[b + 2]);
        lemma_blank_end_suffix(u, a, v, b, 3);
        lemma_blank_end(u, a + 3);
        let k = blank_end(u, a + 3) - a;
        if k < u.len() - a {
            assert(u[a + k] == v[b + k]);
            if k + 1 < u.len() - a {
                assert(u[a + (k + 1)] == v[b + (k + 1)]);
            }
        }
    }
}

proof fn lemma_no_earlier_close(u: Seq<char>, open: int, front: Seq<char>)
    requires
        0 <= open,
        open + front.len() + 1 <= u.len(),
        u.subrange(open, open + front.len() + 1) == front.push('\n'),
        !has_separator_line(front),
    ensures
        forall|q: int|
            open <= q < open + front.len() + 1 && line_start(u, open, q) ==> sep_end(u, q) is None,
{
    let s = front.push('\n');
    assert forall|q: int| open <= q < open + front.len() + 1 && line_start(u, open, q) implies sep_end(
        u,
        q,
    ) is None by {
        if q > open {
            assert(u[q - 1] == s[q - open - 1]);
        }
        assert(line_start(front, 0, q - open));
        assert(sep_end(s, q - open) is None);
        lemma_sep_shift(u, s, open, q - open);
    }
}

/// A document whose front matter was replaced comes apart into that front matter and the body that
/// it had, if no line of the front matter is itself a separator line.
pub proof fn split_of_replaced(t: Seq<char>, front: Seq<char>)
    requires
        !has_separator_line(front),
    ensures
        split_spec(replace_spec(t, front)) == (Some(front), split_spec(t).1),
{
    lemma_front_at(t);
    match front_at(t) {
        None => {
            split_of_join(front, t);
        },
        Some((open, p)) => {
            lemma_split_of_replaced(t, front, open, p);
        },
    }
}

proof fn lemma_same_opening(t: Seq<char>, u: Seq<char>, open: int)
    requires
        4 <= open <= t.len(),
        open <= u.len(),
        u.take(open) == t.take(open),
        t[open - 1] == '\n',
        sep_end(t, 0) == Some(open),
    ensures
        sep_end(u, 0) == Some(open),
{
    let head = t.take(open);
    assert(t.subrange(0, open) =~= head);
    assert(u.subrange(0, open) =~= u.take(open));
    lemma_sep_shift(t, head, 0, 0);
    lemma_sep_shift(u, head, 0, 0);
}

#[verifier::spinoff_prover]
proof fn lemma_split_of_replaced(t: Seq<char>, front: Seq<char>, open: int, p: int)
    requires
        !has_separator_line(front),
        front_at(t) == Some((open, p)),
        sep_end(t, 0) == Some(open),
        sep_end(t, p) is Some,
        4 <= open <= p,
        p + 3 <= sep_end(t, p)->0 <= t.len(),
        t[open - 1] == '\n',
    ensures
        split_spec(replace_spec(t, front)) == (Some(front), split_spec(t).1),
{
    let u = replace_spec(t, front);
    let close = open + front.len() + 1;
    let e = sep_end(t, p)->0;
    assert(u == t.take(open) + front.push('\n') + t.skip(p));
    assert(u.take(open) =~= t.take(open));
    lemma_same_opening(t, u, open);
    assert(u.skip(close) =~= t.skip(p));
    lemma_sep_suffix(u, close, t, p);
    assert(u.subrange(open, close) =~= front.push('\n'));
    lemma_no_earlier_close(u, open, front);
    assert(u[close - 1] == '\n');
    assert(line_start(u, open, close));
    assert(closes_at(u, open, close));
    lemma_split_at(u, open, close);
    assert(u.subrange(open, close - 1) =~= front);
    assert(u.skip(e - p + close) =~= t.skip(e));
}

/// A document whose front matter was replaced has front matter.
pub proof fn replaced_has_front_matter(t: Seq<char>, front: Seq<char>)
    requires
        front_at(t) is Some,
    ensures
        split_spec(replace_spec(t, front)).0 is Some,
{
    lemma_front_at(t);
    if let Some((open, p)) = front_at(t) {
        let u = replace_spec(t, front);
        let close = open + front.len() + 1;
        assert(u == t.take(open) + front.push('\n') + t.skip(p));
        assert(u.take(open) =~= t.take(open));
        lemma_same_opening(t, u, open);
        assert(u.skip(close) =~= t.skip(p));
        lemma_sep_suffix(u, close, t, p);
        assert(u[close - 1] == '\n');
        assert(line_start(u, open, close));
        lemma_first_separator(u, open, close);
        let c = choose|c: int| open <= c <= close && closes_at(u, open, c);
        lemma_closes(u, open, c);
    }
}

/// What stands before the front matter, and its closing line with all that follows, stays where
/// front matter is replaced.
pub proof fn replacing_keeps_the_rest(t: Seq<char>, front: Seq<char>)
    ensures
        front_at(t) matches Some((open, p)) ==> {
            &&& replace_spec(t, front).take(open) == t.take(open)
            &&& replace_spec(t, front).skip(open + front.len() + 1) == t.skip(p)
        },
{
    lemma_front_at(t);
    if let Some((open, p)) = front_at(t) {
        let u = replace_spec(t, front);
        assert(u.take(open) =~= t.take(open));
        assert(u.skip(open + front.len() + 1) =~= t.skip(p));
    }
}

/// Replacing front matter by itself changes nothing. Where no line stands between the separator
/// lines, there is nothing to replace.
pub proof fn replaced_by_itself(t: Seq<char>)
    ensures
        front_at(t) matches Some((open, p)) ==> p > open ==> replace_spec(t, split_spec(t).0->0) == t,
{
    lemma_front_at(t);
    if let Some((open, p)) = front_at(t) {
        if p > open {
            assert(replace_spec(t, split_spec(t).0->0) =~= t);
        }
    }
}

/// A separator line: three dashes, then blanks alone, then a line feed, a carriage return and a line
/// feed, or the end of the text. It ends behind its line break.
pub proof fn separator_lines_by_form(t: Seq<char>, at: int, e: int)
    ensures
        sep_end(t, at) == Some(e) <==> 0 <= at && at + 3 <= t.len() && t[at] == '-' && t[at + 1] == '-'
            && t[at + 2] == '-' && exists|b: int|
            #![trigger t[b]]
            at + 3 <= b <= t.len() && (forall|k: int| at + 3 <= k < b ==> #[trigger] t[k] == ' ' || t[k]
                == '\t') && ((b == t.len() && e == b) || (b < t.len() && t[b] == '\n' && e == b + 1) || (
            b + 1 < t.len() && t[b] == '\r' && t[b + 1] == '\n' && e == b + 2)),
{
    if 0 <= at && at + 3 <= t.len() {
        let b = blank_end(t, at + 3);
        lemma_blank_end(t, at + 3);
        let c = t[b];
        if sep_end(t, at) == Some(e) {
            assert(forall|k: int| at + 3 <= k < b ==> is_blank(#[trigger] t[k]));
        }
        assert forall|x: int|
            #![trigger t[x]]
            at + 3 <= x <= t.len() && (forall|k: int| at + 3 <= k < x ==> #[trigger] t[k] == ' ' || t[k]
                == '\t') && (x == t.len() || !is_blank(t[x])) implies x == b by {
            if x < b {
                assert(is_blank(t[x]));
            }
            if b < x {
                assert(t[b] == ' ' || t[b] == '\t');
            }
        }
    }
}

/// The front matter of a document runs from behind its first separator line up to the line feed
/// before the next, and its body is all that follows that one.
pub proof fn front_matter_stands_between_separator_lines(t: Seq<char>, open: int, p: int, e: int)
    requires
        sep_end(t, 0) == Some(open),
        sep_end(t, p) == Some(e),
        p == open || (p > open && t[p - 1] == '\n'),
        forall|q: int|
            open <= q < p && (q == open || t[q - 1] == '\n') ==> (#[trigger] sep_end(t, q)) is None,
    ensures
        p == open ==> split_spec(t) == (Some(Seq::<char>::empty()), t.skip(e)),
        p > open ==> split_spec(t) == (Some(t.subrange(open, p - 1)), t.skip(e)),
        forall|front: Seq<char>|
            #[trigger] replace_spec(t, front) == t.take(open) + front + seq!['\n'] + t.skip(p),
{
    assert(closes_at(t, open, p));
    lemma_closes(t, open, p);
    assert forall|front: Seq<char>| #[trigger] replace_spec(t, front) == t.take(open) + front + seq![
        '\n',
    ] + t.skip(p) by {
        assert(replace_spec(t, front) =~= t.take(open) + front + seq!['\n'] + t.skip(p));
    }
}

/// A text that does not start with a separator line, or in which no other follows, is all body.
/// Front matter is put before it, between separator lines of its own.
pub proof fn other_texts_are_all_body(t: Seq<char>, front: Seq<char>)
    requires
        sep_end(t, 0) matches Some(open) ==> forall|q: int|
            open <= q && (q == open || (q <= t.len() && t[q - 1] == '\n')) ==> (#[trigger] sep_end(
                t,
                q,
            )) is None,
    ensures
        split_spec(t) == (None::<Seq<char>>, t),
        replace_spec(t, front) == join_spec(front, t),
{
    if let Some(open) = sep_end(t, 0) {
        lemma_blank_end(t, 3);
        if exists|p: int| closes_at(t, open, p) {
            let p = choose|p: int| closes_at(t, open, p);
            assert(line_start(t, open, p));
            assert(sep_end(t, p) is Some);
        }
    }
}

/// A document that is put together: the front matter between two lines of three dashes, and behind
/// them the body, if there is any.
pub proof fn joined_documents_by_form(front: Seq<char>, body: Seq<char>)
    ensures
        body.len() == 0 ==> join_spec(front, body) == "---\n"@ + front + "\n---"@,
        body.len() > 0 ==> join_spec(front, body) == "---\n"@ + front + "\n---\n"@ + body,
{
    reveal_strlit("---\n");
    reveal_strlit("\n---");
    reveal_strlit("\n---\n");
    if body.len() == 0 {
        assert(join_spec(front, body) =~= "---\n"@ + front + "\n---"@);
    } else {
        assert(join_spec(front, body) =~= "---\n"@ + front + "\n---\n"@ + body);
    }
}

} // verus!
