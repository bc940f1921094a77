//! Strings as sequences of characters.

use vstd::prelude::*;

verus! {

/// The specification of [`String::push`]: the character is appended at the end.
pub assume_specification[ std::string::String::push ](s: &mut std::string::String, c: char)
    ensures
        final(s)@ == old(s)@.push(c),
;

/// The characters of `s`, in order.
pub fn chars_of(s: &str) -> (r: Vec<char>)
    ensures
        r@ == s@,
{
    let mut out: Vec<char> = Vec::new();
    for c in it: s.chars()
        invariant
            out@ == it.seq().take(it.index() as int),
            it.seq() == s@,
    {
        out.push(c);
    }
    out
}

/// The characters of `cs` from `from` up to `to`, as a string.
pub fn string_of(cs: &Vec<char>, from: usize, to: usize) -> (r: String)
    requires
        from <= to <= cs@.len(),
    ensures
        r@ == cs@.subrange(from as int, to as int),
{
    let mut out = String::new();
    let mut i: usize = from;
    while i < to
        invariant
            from <= i <= to <= cs@.len(),
            out@ == cs@.subrange(from as int, i as int),
        decreases to - i,
    {
        out.push(cs[i]);
        i += 1;
    }
    out
}

/// Whether `a` and `b` hold the same characters.
pub fn same(a: &str, b: &str) -> (r: bool)
    ensures
        r == (a@ == b@),
{
    a.to_owned() == b.to_owned()
}

/// `text` between `before` and `after`.
pub(crate) fn around(before: &str, text: &str, after: &str) -> (r: String)
    ensures
        r@ == before@ + text@ + after@,
{
    let mut out = before.to_owned();
    out.append(text);
    out.append(after);
    out
}

/// A white space character of Unicode.
pub open spec fn is_space(c: char) -> bool {
    ||| '\u{9}' <= c <= '\u{d}'
    ||| c == ' '
    ||| c == '\u{85}'
    ||| c == '\u{a0}'
    ||| c == '\u{1680}'
    ||| '\u{2000}' <= c <= '\u{200a}'
    ||| c == '\u{2028}'
    ||| c == '\u{2029}'
    ||| c == '\u{202f}'
    ||| c == '\u{205f}'
    ||| c == '\u{3000}'
}

/// All of `s` is white space.
pub open spec fn all_space(s: Seq<char>) -> bool {
    forall|i: int| 0 <= i < s.len() ==> is_space(#[trigger] s[i])
}

/// `s` without the line feeds at its end.
pub open spec fn trimmed(s: Seq<char>) -> Seq<char>
    decreases s.len(),
{
    if s.len() > 0 && s.last() == '\n' {
        trimmed(s.drop_last())
    } else {
        s
    }
}

/// `s` with a line feed in place of each carriage return that a line feed follows, and of that
/// line feed.
pub open spec fn unix(s: Seq<char>) -> Seq<char>
    decreases s.len(),
{
    if s.len() == 0 {
        s
    } else if s.last() == '\n' && s.len() >= 2 && s[s.len() - 2] == '\r' {
        unix(s.take(s.len() - 2)).push('\n')
    } else {
        unix(s.drop_last()).push(s.last())
    }
}

/// Whether `s` is all white space.
pub fn is_all_space(s: &str) -> (r: bool)
    ensures
        r == all_space(s@),
{
    for c in it: s.chars()
        invariant
            it.seq() == s@,
            forall|i: int| 0 <= i < it.index() ==> is_space(#[trigger] s@[i]),
    {
        let space = ('\u{9}' <= c && c <= '\u{d}') || c == ' ' || c == '\u{85}' || c == '\u{a0}' || c
            == '\u{1680}' || ('\u{2000}' <= c && c <= '\u{200a}') || c == '\u{2028}' || c
            == '\u{2029}' || c == '\u{202f}' || c == '\u{205f}' || c == '\u{3000}';
        if !space {
            assert(s@[it.index() as int] == c);
            return false;
        }
    }
    true
}

/// `s` without the line feeds at its end.
pub fn trim_line_feeds(s: &str) -> (r: String)
    ensures
        r@ == trimmed(s@),
{
    let cs = chars_of(s);
    let mut n: usize = cs.len();
    assert(cs@.take(n as int) =~= cs@);
    while n > 0 && cs[n - 1] == '\n'
        invariant
            n <= cs@.len(),
            trimmed(cs@.take(n as int)) == trimmed(cs@),
        decreases n,
    {
        assert(cs@.take(n as int).drop_last() =~= cs@.take(n - 1));
        n -= 1;
    }
    assert(cs@.take(n as int) =~= cs@.subrange(0, n as int));
    string_of(&cs, 0, n)
}

/// `s` without the line feed at its end, if there is one.
pub open spec fn unended(s: Seq<char>) -> Seq<char> {
    if s.len() > 0 && s.last() == '\n' {
        s.drop_last()
    } else {
        s
    }
}

/// `s` without the line feed at its end, if there is one.
pub fn drop_line_feed(s: String) -> (r: String)
    ensures
        r@ == unended(s@),
{
    let cs = chars_of(s.as_str());
    let n = cs.len();
    if n > 0 && cs[n - 1] == '\n' {
        assert(cs@.subrange(0, n - 1) =~= cs@.drop_last());
        string_of(&cs, 0, n - 1)
    } else {
        s
    }
}

/// `s` with line feeds for its line breaks.
pub fn to_unix(s: &str) -> (r: String)
    ensures
        r@ == unix(s@),
{
    let cs = chars_of(s);
    let mut out = String::new();
    let mut i: usize = 0;
    while i < cs.len()
        invariant
            i <= cs@.len(),
            out@ == unix(cs@.take(i as int)),
            0 < i < cs@.len() && cs@[i as int] == '\n' ==> cs@[i - 1] != '\r',
        decreases cs@.len() - i,
    {
        let c = cs[i];
        if c == '\r' && i + 1 < cs.len() && cs[i + 1] == '\n' {
            assert(cs@.take(i + 2).take(i as int) =~= cs@.take(i as int));
            out.push('\n');
            i += 2;
        } else {
            assert(cs@.take(i + 1).drop_last() =~= cs@.take(i as int));
            out.push(c);
            i += 1;
        }
    }
    assert(cs@.take(i as int) =~= cs@);
    out
}

/// Trimming takes the line feeds off the end and nothing else.
pub proof fn trimming_takes_line_feeds_off(s: Seq<char>)
    ensures
        trimmed(s).len() <= s.len(),
        trimmed(s) == s.take(trimmed(s).len() as int),
        forall|i: int| trimmed(s).len() <= i < s.len() ==> #[trigger] s[i] == '\n',
        trimmed(s).len() > 0 ==> trimmed(s).last() != '\n',
    decreases s.len(),
{
    if s.len() > 0 && s.last() == '\n' {
        let less = s.drop_last();
        trimming_takes_line_feeds_off(less);
        assert(trimmed(s) =~= s.take(trimmed(s).len() as int));
        assert forall|i: int| trimmed(s).len() <= i < s.len() implies #[trigger] s[i] == '\n' by {
            if i < less.len() {
                assert(less[i] == s[i]);
            }
        }
    } else {
        assert(s.take(s.len() as int) =~= s);
    }
}

/// A line feed at the end is dropped once.
pub proof fn one_line_feed_is_dropped(s: Seq<char>)
    ensures
        unended(s.push('\n')) == s,
        s.len() == 0 || s.last() != '\n' ==> unended(s) == s,
{
    assert(s.push('\n').drop_last() =~= s);
}

/// A carriage return goes exactly where a line feed follows it; every other character stays.
pub proof fn carriage_returns_before_line_feeds_go(s: Seq<char>, c: char)
    ensures
        unix(Seq::empty()) == Seq::<char>::empty(),
        c != '\n' || s.len() == 0 || s.last() != '\r' ==> unix(s.push(c)) == unix(s).push(c),
        c == '\n' ==> unix(s.push('\r').push(c)) == unix(s).push('\n'),
{
    assert(s.push(c).drop_last() =~= s);
    let r = s.push('\r').push('\n');
    assert(r.take(r.len() - 2) =~= s);
    if s.len() > 0 {
        assert(s.push(c)[s.len() - 1] == s.last());
    }
}

/// The white space characters.
pub proof fn white_space_by_code(c: char)
    ensures
        is_space(c) <==> {
            let n = c as u32;
            9 <= n <= 13 || n == 32 || n == 133 || n == 160 || n == 5760 || 8192 <= n <= 8202 || n
                == 8232 || n == 8233 || n == 8239 || n == 8287 || n == 12288
        },
{
}

} // verus!
