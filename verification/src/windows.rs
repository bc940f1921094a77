//! Documents with the line breaks of Windows.

use vstd::prelude::*;

use crate::document::{
    blank_end, closes_at, front_at, is_blank, lemma_blank_end, lemma_closes, lemma_first_separator,
    lemma_front_at, line_start, sep_end, split_spec,
};
use crate::frontmatter::{document_entries, lemma_source_keeps, parse_spec, source};
use crate::text::unix;

verus! {

/// `t` with the line breaks of Windows: each line feed follows a carriage return.
pub open spec fn windows(t: Seq<char>) -> Seq<char>
    decreases t.len(),
{
    if t.len() == 0 {
        t
    } else if t.last() == '\n' {
        windows(t.drop_last()) + seq!['\r', '\n']
    } else {
        windows(t.drop_last()).push(t.last())
    }
}

/// Line feeds come back from the line breaks of Windows.
proof fn lemma_unix_of_windows(t: Seq<char>)
    requires
        !t.contains('\r'),
    ensures
        unix(windows(t)) == t,
    decreases t.len(),
{
    if t.len() > 0 {
        let less = t.drop_last();
        let w = windows(t);
        assert(t.contains(t.last()));
        assert(!less.contains('\r')) by {
            if less.contains('\r') {
                let i = choose|i: int| 0 <= i < less.len() && less[i] == '\r';
                assert(t[i] == '\r');
            }
        }
        lemma_unix_of_windows(less);
        assert(less.push(t.last()) =~= t);
        if t.last() == '\n' {
            assert(w.take(w.len() - 2) =~= windows(less));
        } else {
            assert(w.drop_last() =~= windows(less));
        }
    }
}

/// Front matter with the line breaks of Windows writes the same entries as it does with line feeds
/// alone, whether or not the last carriage return is counted to it.
pub proof fn windows_line_breaks_read_the_same(t: Seq<char>)
    requires
        !t.contains('\r'),
    ensures
        parse_spec(windows(t)) == parse_spec(t),
        parse_spec(windows(t).push('\r')) == parse_spec(t),
{
    let ended = t.push('\n');
    lemma_source_keeps(t);
    assert(!ended.contains('\r')) by {
        if ended.contains('\r') {
            let i = choose|i: int| 0 <= i < ended.len() && ended[i] == '\r';
            assert(t[i] == '\r');
        }
    }
    lemma_unix_of_windows(t);
    lemma_unix_of_windows(ended);
    assert(ended.drop_last() =~= t);
    let w = windows(t);
    // With the carriage return.
    assert(w.push('\r').push('\n') =~= windows(ended));
    assert(source(w.push('\r')) == t);
    // Without it.
    lemma_windows_end(t);
    assert(w.push('\n').drop_last() =~= w);
    assert(unix(w.push('\n')) == unix(w).push('\n'));
    assert(source(w) =~= t);
}

proof fn lemma_windows_end(t: Seq<char>)
    requires
        !t.contains('\r'),
    ensures
        windows(t).len() > 0 ==> windows(t).last() != '\r',
{
    if t.len() > 0 {
        assert(t.contains(t.last()));
    }
}

/// Where the characters of `t` before `i` end in `windows(t)`.
pub open spec fn moved(t: Seq<char>, i: int) -> int {
    windows(t.take(i)).len() as int
}

proof fn lemma_windows_concat(a: Seq<char>, b: Seq<char>)
    ensures
        windows(a + b) == windows(a) + windows(b),
    decreases b.len(),
{
    if b.len() == 0 {
        assert(a + b =~= a);
        assert(windows(a) + windows(b) =~= windows(a));
    } else {
        assert((a + b).drop_last() =~= a + b.drop_last());
        lemma_windows_concat(a, b.drop_last());
        assert(windows(a + b) =~= windows(a) + windows(b));
    }
}

proof fn lemma_moved(t: Seq<char>, i: int)
    requires
        0 <= i <= t.len(),
    ensures
        moved(t, 0) == 0,
        moved(t, t.len() as int) == windows(t).len(),
        i <= moved(t, i) <= windows(t).len(),
        windows(t).take(moved(t, i)) == windows(t.take(i)),
        windows(t).skip(moved(t, i)) == windows(t.skip(i)),
        i < t.len() ==> {
            &&& moved(t, i + 1) == moved(t, i) + if t[i] == '\n' {
                2int
            } else {
                1int
            }
            &&& moved(t, i + 1) <= windows(t).len()
            &&& windows(t)[moved(t, i)] == if t[i] == '\n' {
                '\r'
            } else {
                t[i]
            }
            &&& t[i] == '\n' ==> windows(t)[moved(t, i) + 1] == '\n'
        },
    decreases i,
{
    assert(t.take(0) =~= Seq::empty());
    assert(t.take(t.len() as int) =~= t);
    let (a, b) = (t.take(i), t.skip(i));
    assert(a + b =~= t);
    lemma_windows_concat(a, b);
    assert(windows(t).take(windows(a).len() as int) =~= windows(a));
    assert(windows(t).skip(windows(a).len() as int) =~= windows(b));
    if i > 0 {
        lemma_moved(t, i - 1);
        assert(t.take(i).drop_last() =~= t.take(i - 1));
    }
    if i < t.len() {
        let more = t.take(i + 1);
        assert(more.drop_last() =~= a);
        assert(more + t.skip(i + 1) =~= t);
        lemma_windows_concat(more, t.skip(i + 1));
        let w = windows(t);
        assert(w.take(windows(more).len() as int) =~= windows(more));
        assert(w[moved(t, i)] == windows(more)[moved(t, i)]);
        if t[i] == '\n' {
            assert(w[moved(t, i) + 1] == windows(more)[moved(t, i) + 1]);
        }
    }
}

proof fn lemma_moved_order(t: Seq<char>, i: int, j: int)
    requires
        0 <= i <= j <= t.len(),
    ensures
        moved(t, i) + (j - i) <= moved(t, j),
    decreases j - i,
{
    if i < j {
        lemma_moved(t, j - 1);
        lemma_moved_order(t, i, j - 1);
    }
}

proof fn lemma_moved_back(t: Seq<char>, q: int, i: int)
    requires
        0 <= i <= t.len(),
        0 <= q < moved(t, i),
    ensures
        exists|k: int| 0 <= k < i && #[trigger] moved(t, k) <= q < moved(t, k + 1),
    decreases i,
{
    lemma_moved(t, 0);
    if i > 0 {
        lemma_moved(t, i - 1);
        if q >= moved(t, i - 1) {
            assert(moved(t, i - 1) <= q < moved(t, (i - 1) + 1));
        } else {
            lemma_moved_back(t, q, i - 1);
        }
    }
}

proof fn lemma_blank_end_moved(t: Seq<char>, i: int)
    requires
        0 <= i <= t.len(),
    ensures
        blank_end(windows(t), moved(t, i)) == moved(t, blank_end(t, i)),
    decreases t.len() - i,
{
    lemma_moved(t, i);
    if i < t.len() && is_blank(t[i]) {
        lemma_blank_end_moved(t, i + 1);
    }
}

proof fn lemma_sep_moved(t: Seq<char>, p: int)
    requires
        0 <= p <= t.len(),
        !t.contains('\r'),
    ensures
        match sep_end(t, p) {
            Some(e) => sep_end(windows(t), moved(t, p)) == Some(moved(t, e)),
            None => sep_end(windows(t), moved(t, p)) is None,
        },
{
    let w = windows(t);
    lemma_moved(t, p);
    lemma_moved(t, t.len() as int);
    if p < t.len() {
        lemma_moved(t, p + 1);
    }
    if p + 1 < t.len() {
        lemma_moved(t, p + 2);
    }
    if p + 3 <= t.len() && t[p] == '-' && t[p + 1] == '-' && t[p + 2] == '-' {
        lemma_moved(t, p + 3);
        lemma_blank_end_moved(t, p + 3);
        lemma_blank_end(t, p + 3);
        let e = blank_end(t, p + 3);
        lemma_moved(t, e);
        lemma_moved_order(t, p + 3, e);
        if e < t.len() {
            assert(t.contains(t[e]));
        }
    }
}

proof fn lemma_line_start_back(t: Seq<char>, open: int, q: int)
    requires
        0 <= open <= t.len(),
        moved(t, open) <= q,
        line_start(windows(t), moved(t, open), q),
    ensures
        exists|p: int| open <= p <= t.len() && line_start(t, open, p) && #[trigger] moved(t, p) == q,
{
    lemma_moved(t, open);
    lemma_moved(t, t.len() as int);
    if q == moved(t, open) {
        assert(line_start(t, open, open));
    } else {
        lemma_moved_back(t, q - 1, t.len() as int);
        let k = choose|k: int| 0 <= k < t.len() && #[trigger] moved(t, k) <= q - 1 < moved(t, k + 1);
        lemma_moved(t, k);
        if k < open {
            lemma_moved_order(t, k + 1, open);
        }
        assert(moved(t, k + 1) == q);
        assert(line_start(t, open, k + 1));
    }
}

proof fn lemma_front_moved(t: Seq<char>)
    requires
        !t.contains('\r'),
    ensures
        match front_at(t) {
            Some((open, p)) => front_at(windows(t)) == Some((moved(t, open), moved(t, p))),
            None => front_at(windows(t)) is None,
        },
{
    let w = windows(t);
    lemma_moved(t, 0);
    lemma_sep_moved(t, 0);
    lemma_front_at(t);
    lemma_front_at(w);
    if let Some(open) = sep_end(t, 0) {
        lemma_blank_end(t, 3);
        lemma_moved(t, open);
        let start = moved(t, open);
        match front_at(t) {
            Some((_, p)) => {
                lemma_sep_moved(t, p);
                lemma_moved_order(t, open, p);
                if p > open {
                    lemma_moved(t, p - 1);
                    assert(w[moved(t, p) - 1] == '\n');
                }
                assert forall|q: int| start <= q < moved(t, p) && line_start(w, start, q) implies sep_end(
                    w,
                    q,
                ) is None by {
                    lemma_line_start_back(t, open, q);
                    let r = choose|r: int|
                        open <= r <= t.len() && line_start(t, open, r) && #[trigger] moved(t, r) == q;
                    lemma_sep_moved(t, r);
                    if r >= p {
                        lemma_moved_order(t, p, r);
                    }
                }
                assert(closes_at(w, start, moved(t, p)));
                lemma_closes(w, start, moved(t, p));
            },
            None => {
                if let Some((_, q)) = front_at(w) {
                    lemma_line_start_back(t, open, q);
                    let r = choose|r: int|
                        open <= r <= t.len() && line_start(t, open, r) && #[trigger] moved(t, r) == q;
                    lemma_sep_moved(t, r);
                    lemma_first_separator(t, open, r);
                    let c = choose|c: int| open <= c <= r && closes_at(t, open, c);
                    lemma_closes(t, open, c);
                }
            },
        }
    }
}

/// A document with the line breaks of Windows has the same entries as it has with line feeds alone,
/// and the same body but for its line breaks.
pub proof fn windows_documents_read_the_same(t: Seq<char>)
    requires
        !t.contains('\r'),
    ensures
        document_entries(windows(t)) == document_entries(t),
        split_spec(windows(t)).1 == windows(split_spec(t).1),
        split_spec(windows(t)).0 is Some == split_spec(t).0 is Some,
{
    let w = windows(t);
    lemma_front_moved(t);
    lemma_front_at(t);
    if let Some((open, p)) = front_at(t) {
        let e = sep_end(t, p)->0;
        lemma_sep_moved(t, p);
        lemma_moved(t, e);
        lemma_moved(t, open);
        lemma_moved_order(t, open, p);
        if p > open {
            let front = t.subrange(open, p - 1);
            lemma_moved(t, p - 1);
            lemma_moved(t, p);
            lemma_moved_order(t, open, p - 1);
            let rest = t.skip(open);
            assert(rest.take(p - 1 - open) =~= front);
            lemma_moved(rest, p - 1 - open);
            assert(t.take(open) + front =~= t.take(p - 1));
            lemma_windows_concat(t.take(open), front);
            assert(w.subrange(moved(t, open), moved(t, p) - 1) =~= windows(front).push('\r'));
            assert(!front.contains('\r')) by {
                if front.contains('\r') {
                    let i = choose|i: int| 0 <= i < front.len() && front[i] == '\r';
                    assert(t[open + i] == '\r');
                }
            }
            windows_line_breaks_read_the_same(front);
        }
    }
}

} // verus!
