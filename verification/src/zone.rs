//! What may follow the seconds of a time: a fraction of a second, and a time zone.

use vstd::prelude::*;

use crate::semver::is_digit;

verus! {

/// A capital letter of ASCII.
pub open spec fn is_capital(c: char) -> bool {
    'A' <= c <= 'Z'
}

/// A letter or a digit of ASCII, or one of the other characters of a place in the time zone
/// database.
pub open spec fn is_place_char(c: char) -> bool {
    ||| 'a' <= c <= 'z'
    ||| is_capital(c)
    ||| is_digit(c)
    ||| c == '/'
    ||| c == '_'
    ||| c == '-'
    ||| c == '+'
}

/// Digits alone.
pub open spec fn digits(s: Seq<char>) -> bool {
    forall|i: int| 0 <= i < s.len() ==> is_digit(#[trigger] s[i])
}

/// Capital letters alone.
pub open spec fn capitals(s: Seq<char>) -> bool {
    forall|i: int| 0 <= i < s.len() ==> is_capital(#[trigger] s[i])
}

/// Hours, with minutes and seconds or without: one digit or two, `HHMM` or `HHMMSS`, or with a
/// colon between them.
pub open spec fn hours(s: Seq<char>) -> bool {
    ||| (s.len() == 1 || s.len() == 2 || s.len() == 4 || s.len() == 6) && digits(s)
    ||| s.len() == 4 && digits(s.take(1)) && s[1] == ':' && digits(s.skip(2))
    ||| s.len() == 5 && digits(s.take(2)) && s[2] == ':' && digits(s.skip(3))
    ||| s.len() == 8 && digits(s.take(2)) && s[2] == ':' && digits(s.subrange(3, 5)) && s[5] == ':'
        && digits(s.skip(6))
}

/// The distance from universal time: a sign, and hours.
pub open spec fn offset(s: Seq<char>) -> bool {
    s.len() > 0 && (s[0] == '+' || s[0] == '-') && hours(s.skip(1))
}

/// The first `k` characters are the short name of a zone, such as `Z`, `UTC` or `CEST`, and an
/// offset may follow.
pub open spec fn named_by(s: Seq<char>, k: int) -> bool {
    &&& k <= s.len()
    &&& capitals(s.take(k))
    &&& s.len() == k || offset(s.skip(k))
}

/// A short name of one letter or of three to five, and an offset may follow.
pub open spec fn short_name(s: Seq<char>) -> bool {
    named_by(s, 1) || named_by(s, 3) || named_by(s, 4) || named_by(s, 5)
}

/// A place in the time zone database, such as `Europe/Berlin`.
pub open spec fn place(s: Seq<char>) -> bool {
    &&& s.len() > 0
    &&& is_capital(s[0])
    &&& s.contains('/')
    &&& forall|i: int| 0 <= i < s.len() ==> is_place_char(#[trigger] s[i])
}

/// A time zone in one word: `Z` or `z`, an offset, a short name or a place.
pub open spec fn zone_word(s: Seq<char>) -> bool {
    s == seq!['z'] || offset(s) || short_name(s) || place(s)
}

/// At `k` a time zone in square brackets starts, which runs up to the end.
pub open spec fn bracketed_from(s: Seq<char>, k: int) -> bool {
    &&& 0 <= k < s.len() - 1
    &&& s[k] == '['
    &&& s.last() == ']'
    &&& k == 0 || zone_word(s.take(k))
    &&& zone_word(s.subrange(k + 1, s.len() - 1))
}

/// `s` without the blanks at its start.
pub open spec fn unpadded(s: Seq<char>) -> Seq<char>
    decreases s.len(),
{
    if s.len() > 0 && (s[0] == ' ' || s[0] == '\t') {
        unpadded(s.skip(1))
    } else {
        s
    }
}

/// A time zone: one word, behind blanks or without, and one in square brackets may follow it or
/// stand in its place.
pub open spec fn zone(s: Seq<char>) -> bool {
    let word = unpadded(s);
    zone_word(word) || exists|k: int| #[trigger] bracketed_from(word, k)
}

/// Where the digits from `i` on end.
pub open spec fn digits_end(s: Seq<char>, i: int) -> int
    decreases s.len() - i,
{
    if 0 <= i < s.len() && is_digit(s[i]) {
        digits_end(s, i + 1)
    } else {
        i
    }
}

/// `s` without the fraction of a second at its start: a point and at least one digit.
pub open spec fn after_fraction(s: Seq<char>) -> Seq<char> {
    if s.len() > 1 && s[0] == '.' && is_digit(s[1]) {
        s.skip(digits_end(s, 1))
    } else {
        s
    }
}

/// What may follow the seconds of a time: nothing, a fraction of a second, a time zone, or both.
pub open spec fn time_suffix(s: Seq<char>) -> bool {
    after_fraction(s).len() == 0 || zone(after_fraction(s))
}

/// The characters of `cs` from `from` up to `to`.
fn part(cs: &Vec<char>, from: usize, to: usize) -> (r: Vec<char>)
    requires
        from <= to <= cs@.len(),
    ensures
        r@ == cs@.subrange(from as int, to as int),
{
    let mut out: Vec<char> = Vec::new();
    let mut i: usize = from;
    while i < to
        invariant
            from <= i <= to <= cs@.len(),
            out@ == cs@.subrange(from as int, i as int),
        decreases to - i,
    {
        out.push(cs[i]);
        i += 1;
    }
    out
}

/// Whether `cs` has digits alone.
fn check_digits(cs: &Vec<char>) -> (r: bool)
    ensures
        r == digits(cs@),
{
    let mut i: usize = 0;
    while i < cs.len()
        invariant
            i <= cs@.len(),
            forall|j: int| 0 <= j < i ==> is_digit(#[trigger] cs@[j]),
        decreases cs@.len() - i,
    {
        let c = cs[i];
        if !('0' <= c && c <= '9') {
            assert(!is_digit(cs@[i as int]));
            return false;
        }
        i += 1;
    }
    true
}

/// Whether `cs` has capital letters alone.
fn check_capitals(cs: &Vec<char>) -> (r: bool)
    ensures
        r == capitals(cs@),
{
    let mut i: usize = 0;
    while i < cs.len()
        invariant
            i <= cs@.len(),
            forall|j: int| 0 <= j < i ==> is_capital(#[trigger] cs@[j]),
        decreases cs@.len() - i,
    {
        let c = cs[i];
        if !('A' <= c && c <= 'Z') {
            assert(!is_capital(cs@[i as int]));
            return false;
        }
        i += 1;
    }
    true
}

/// Whether `cs` is a number of hours.
fn check_hours(cs: &Vec<char>) -> (r: bool)
    ensures
        r == hours(cs@),
{
    let n = cs.len();
    proof {
        assert(cs@.skip(2) =~= cs@.subrange(2, n as int) || n < 2);
        assert(cs@.skip(3) =~= cs@.subrange(3, n as int) || n < 3);
        assert(cs@.skip(6) =~= cs@.subrange(6, n as int) || n < 6);
        assert(cs@.take(1) =~= cs@.subrange(0, 1) || n < 1);
        assert(cs@.take(2) =~= cs@.subrange(0, 2) || n < 2);
    }
    if (n == 1 || n == 2 || n == 4 || n == 6) && check_digits(cs) {
        return true;
    }
    if n == 4 {
        check_digits(&part(cs, 0, 1)) && cs[1] == ':' && check_digits(&part(cs, 2, n))
    } else if n == 5 {
        check_digits(&part(cs, 0, 2)) && cs[2] == ':' && check_digits(&part(cs, 3, n))
    } else if n == 8 {
        check_digits(&part(cs, 0, 2)) && cs[2] == ':' && check_digits(&part(cs, 3, 5)) && cs[5]
            == ':' && check_digits(&part(cs, 6, n))
    } else {
        false
    }
}

/// Whether `cs` is an offset.
fn check_offset(cs: &Vec<char>) -> (r: bool)
    ensures
        r == offset(cs@),
{
    let n = cs.len();
    if n == 0 {
        return false;
    }
    assert(cs@.skip(1) =~= cs@.subrange(1, n as int));
    (cs[0] == '+' || cs[0] == '-') && check_hours(&part(cs, 1, n))
}

/// Whether the first `k` characters of `cs` are a short name, and an offset may follow.
fn check_named_by(cs: &Vec<char>, k: usize) -> (r: bool)
    ensures
        r == named_by(cs@, k as int),
{
    let n = cs.len();
    if k > n {
        return false;
    }
    assert(cs@.take(k as int) =~= cs@.subrange(0, k as int));
    assert(cs@.skip(k as int) =~= cs@.subrange(k as int, n as int));
    check_capitals(&part(cs, 0, k)) && (n == k || check_offset(&part(cs, k, n)))
}

/// Whether `cs` is a place.
fn check_place(cs: &Vec<char>) -> (r: bool)
    ensures
        r == place(cs@),
{
    if cs.len() == 0 || !('A' <= cs[0] && cs[0] <= 'Z') {
        return false;
    }
    let mut slash = false;
    let mut i: usize = 0;
    while i < cs.len()
        invariant
            i <= cs@.len(),
            forall|j: int| 0 <= j < i ==> is_place_char(#[trigger] cs@[j]),
            slash ==> cs@.contains('/'),
            !slash ==> forall|j: int| 0 <= j < i ==> #[trigger] cs@[j] != '/',
        decreases cs@.len() - i,
    {
        let c = cs[i];
        if c == '/' {
            assert(cs@[i as int] == '/');
            slash = true;
        } else if !(('a' <= c && c <= 'z') || ('A' <= c && c <= 'Z') || ('0' <= c && c <= '9') || c
            == '_' || c == '-' || c == '+') {
            assert(!is_place_char(cs@[i as int]));
            return false;
        }
        i += 1;
    }
    slash
}

/// Whether `cs` is a time zone in one word.
fn check_word(cs: &Vec<char>) -> (r: bool)
    ensures
        r == zone_word(cs@),
{
    if cs.len() == 1 && cs[0] == 'z' {
        assert(cs@ =~= seq!['z']);
        return true;
    }
    assert(cs@ != seq!['z']) by {
        if cs@ == seq!['z'] {
            assert(cs@.len() == 1 && cs@[0] == 'z');
        }
    }
    check_offset(cs) || check_named_by(cs, 1) || check_named_by(cs, 3) || check_named_by(cs, 4)
        || check_named_by(cs, 5) || check_place(cs)
}

/// Whether a time zone in square brackets starts at `k` in `cs`.
fn check_bracketed(cs: &Vec<char>, k: usize) -> (r: bool)
    ensures
        r == bracketed_from(cs@, k as int),
{
    let n = cs.len();
    if n < 2 || k >= n - 1 {
        return false;
    }
    assert(cs@.take(k as int) =~= cs@.subrange(0, k as int));
    cs[k] == '[' && cs[n - 1] == ']' && (k == 0 || check_word(&part(cs, 0, k))) && check_word(
        &part(cs, k + 1, n - 1),
    )
}

/// Whether `cs` is a time zone from `from` on.
fn check_zone(cs: &Vec<char>, from: usize) -> (r: bool)
    requires
        from <= cs@.len(),
    ensures
        r == zone(cs@.skip(from as int)),
{
    let n = cs.len();
    let mut start = from;
    while start < n && (cs[start] == ' ' || cs[start] == '\t')
        invariant
            from <= start <= n == cs@.len(),
            unpadded(cs@.skip(start as int)) == unpadded(cs@.skip(from as int)),
        decreases n - start,
    {
        assert(cs@.skip(start as int).skip(1) =~= cs@.skip(start + 1));
        start += 1;
    }
    let word = part(cs, start, n);
    assert(word@ =~= cs@.skip(start as int));
    if check_word(&word) {
        return true;
    }
    let mut k: usize = 0;
    while k < word.len()
        invariant
            k <= word@.len(),
            word@ == unpadded(cs@.skip(from as int)),
            forall|j: int| 0 <= j < k ==> !#[trigger] bracketed_from(word@, j),
        decreases word@.len() - k,
    {
        if check_bracketed(&word, k) {
            return true;
        }
        k += 1;
    }
    false
}

/// Whether what stands in `cs` from `from` on may follow the seconds of a time.
pub fn check_suffix(cs: &Vec<char>, from: usize) -> (r: bool)
    requires
        from <= cs@.len(),
    ensures
        r == time_suffix(cs@.skip(from as int)),
{
    let n = cs.len();
    let ghost s = cs@.skip(from as int);
    let mut start = from;
    if n - from > 1 && cs[from] == '.' && '0' <= cs[from + 1] && cs[from + 1] <= '9' {
        start = from + 1;
        while start < n && '0' <= cs[start] && cs[start] <= '9'
            invariant
                from < start <= n == cs@.len(),
                s == cs@.skip(from as int),
                digits_end(s, start - from) == digits_end(s, 1),
            decreases n - start,
        {
            assert(s[start - from] == cs@[start as int]);
            start += 1;
        }
        assert(start < n ==> s[start - from] == cs@[start as int]);
        assert(digits_end(s, 1) == start - from);
        assert(s[1] == cs@[from + 1]);
        assert(s.skip(start - from) =~= cs@.skip(start as int));
    } else if n - from > 1 {
        assert(s[0] == cs@[from as int] && s[1] == cs@[from + 1]);
    }
    assert(after_fraction(s) == cs@.skip(start as int));
    start == n || check_zone(cs, start)
}

/// A sign and two digits, four digits, or two and two with a colon between them are a time zone, as
/// are `Z` and `z`. Nothing needs to follow the seconds.
pub proof fn offsets_are_time_zones(sign: char, a: char, b: char, c: char, d: char)
    requires
        sign == '+' || sign == '-',
        '0' <= a <= '9',
        '0' <= b <= '9',
        '0' <= c <= '9',
        '0' <= d <= '9',
    ensures
        time_suffix(Seq::empty()),
        time_suffix(seq!['Z']),
        time_suffix(seq!['z']),
        time_suffix(seq![sign, a]),
        time_suffix(seq![sign, a, b]),
        time_suffix(seq![sign, a, b, c, d]),
        time_suffix(seq![sign, a, b, ':', c, d]),
{
    let z = seq!['Z'];
    assert(z.take(1) =~= z);
    assert(named_by(z, 1));
    let (one, two) = (seq![sign, a], seq![sign, a, b]);
    let (four, colon) = (seq![sign, a, b, c, d], seq![sign, a, b, ':', c, d]);
    assert(one.skip(1) =~= seq![a]);
    assert(two.skip(1) =~= seq![a, b]);
    assert(four.skip(1) =~= seq![a, b, c, d]);
    let r = colon.skip(1);
    assert(r =~= seq![a, b, ':', c, d]);
    assert(r.take(2) =~= seq![a, b]);
    assert(r.skip(3) =~= seq![c, d]);
    assert(offset(one) && offset(two) && offset(four) && offset(colon));
}

/// A short name of one capital letter or of three to five is a time zone, and so is a place of
/// capitals, letters and slashes.
pub proof fn names_are_time_zones(s: Seq<char>)
    ensures
        (s.len() == 1 || s.len() == 3 || s.len() == 4 || s.len() == 5) && (forall|i: int|
            0 <= i < s.len() ==> 'A' <= #[trigger] s[i] <= 'Z') ==> time_suffix(s),
        s.len() > 0 && 'A' <= s[0] <= 'Z' && s.contains('/') && (forall|i: int|
            0 <= i < s.len() ==> 'a' <= #[trigger] s[i] <= 'z' || 'A' <= s[i] <= 'Z' || s[i] == '/'
                || s[i] == '_') ==> time_suffix(s),
{
    if s.len() > 0 {
        assert(s.take(s.len() as int) =~= s);
        if forall|i: int| 0 <= i < s.len() ==> 'A' <= #[trigger] s[i] <= 'Z' {
            assert(capitals(s));
            assert(named_by(s, s.len() as int));
        }
    }
}

/// A blank before a time zone does not count.
pub proof fn blanks_before_a_time_zone(s: Seq<char>, c: char)
    requires
        c == ' ' || c == '\t',
        s.len() > 0,
        s[0] != '.',
    ensures
        time_suffix(seq![c] + s) <==> time_suffix(s),
{
    let t = seq![c] + s;
    assert(t[0] == c);
    assert(t.skip(1) =~= s);
}

/// A fraction of a second may stand before the time zone or alone.
pub proof fn fraction_before_a_time_zone(s: Seq<char>, d: char, e: char)
    requires
        '0' <= d <= '9',
        '0' <= e <= '9',
    ensures
        time_suffix(seq!['.', d]),
        time_suffix(seq!['.', d, e] + s) <==> time_suffix(seq!['.', d] + s),
        s.len() > 0 && s[0] != '.' && !('0' <= s[0] <= '9') ==> (time_suffix(seq!['.', d] + s) <==>
            time_suffix(s)),
{
    let alone = seq!['.', d];
    assert(digits_end(alone, 2) == 2);
    assert(digits_end(alone, 1) == 2);
    assert(alone.skip(2) =~= Seq::empty());
    let one = seq!['.', d] + s;
    let two = seq!['.', d, e] + s;
    assert(one[0] == '.' && one[1] == d && two[0] == '.' && two[1] == d && two[2] == e);
    assert(digits_end(one, 1) == digits_end(one, 2));
    assert(digits_end(two, 1) == digits_end(two, 2));
    assert(digits_end(two, 2) == digits_end(two, 3));
    assert(one.skip(2) =~= two.skip(3));
    lemma_digits_end(one, 2, two, 3);
    let k = digits_end(one, 2);
    assert(one.skip(k) =~= two.skip(k + 1));
    if s.len() > 0 && !('0' <= s[0] <= '9') {
        assert(one[2] == s[0]);
        assert(digits_end(one, 2) == 2);
        assert(one.skip(2) =~= s);
    }
}

proof fn lemma_digits_end(a: Seq<char>, i: int, b: Seq<char>, j: int)
    requires
        0 <= i <= a.len(),
        0 <= j <= b.len(),
        a.skip(i) == b.skip(j),
    ensures
        digits_end(a, i) - i == digits_end(b, j) - j,
        i <= digits_end(a, i) <= a.len(),
    decreases a.len() - i,
{
    assert(a.skip(i).len() == a.len() - i && b.skip(j).len() == b.len() - j);
    if i < a.len() {
        assert(a.skip(i)[0] == a[i]);
        assert(b.skip(j)[0] == b[j]);
        assert(a.skip(i + 1) =~= a.skip(i).skip(1));
        assert(b.skip(j + 1) =~= b.skip(j).skip(1));
        lemma_digits_end(a, i + 1, b, j + 1);
    }
}

/// A character that a time zone in one word may hold.
spec fn in_word(c: char) -> bool {
    is_place_char(c) || c == ':'
}

proof fn lemma_hours(s: Seq<char>, i: int)
    requires
        hours(s),
        0 <= i < s.len(),
    ensures
        is_digit(s[i]) || s[i] == ':',
{
    if s.len() == 4 && !digits(s) {
        if i == 0 {
            assert(s.take(1)[0] == s[0]);
        } else if i > 1 {
            assert(s.skip(2)[i - 2] == s[i]);
        }
    } else if s.len() == 5 {
        if i < 2 {
            assert(s.take(2)[i] == s[i]);
        } else if i > 2 {
            assert(s.skip(3)[i - 3] == s[i]);
        }
    } else if s.len() == 8 {
        if i < 2 {
            assert(s.take(2)[i] == s[i]);
        } else if 2 < i < 5 {
            assert(s.subrange(3, 5)[i - 3] == s[i]);
        } else if i > 5 {
            assert(s.skip(6)[i - 6] == s[i]);
        }
    }
}

proof fn lemma_offset(s: Seq<char>, i: int)
    requires
        offset(s),
        0 <= i < s.len(),
    ensures
        in_word(s[i]),
{
    if i > 0 {
        assert(s.skip(1)[i - 1] == s[i]);
        lemma_hours(s.skip(1), i - 1);
    }
}

proof fn lemma_named_by(s: Seq<char>, k: int, i: int)
    requires
        named_by(s, k),
        k > 0,
        0 <= i < s.len(),
    ensures
        in_word(s[i]),
        is_capital(s[0]),
{
    assert(s.take(k)[0] == s[0]);
    if i < k {
        assert(s.take(k)[i] == s[i]);
    } else {
        assert(s.skip(k)[i - k] == s[i]);
        lemma_offset(s.skip(k), i - k);
    }
}

proof fn lemma_word(s: Seq<char>, i: int)
    requires
        zone_word(s),
        0 <= i < s.len(),
    ensures
        in_word(s[i]),
        s == seq!['z'] || s[0] == '+' || s[0] == '-' || is_capital(s[0]),
{
    if s == seq!['z'] {
        assert(s[i] == 'z');
    } else if offset(s) {
        lemma_offset(s, i);
    } else if place(s) {
        assert(is_place_char(s[i]));
    } else if named_by(s, 1) {
        lemma_named_by(s, 1, i);
    } else if named_by(s, 3) {
        lemma_named_by(s, 3, i);
    } else if named_by(s, 4) {
        lemma_named_by(s, 4, i);
    } else {
        lemma_named_by(s, 5, i);
    }
}

/// Free text may not follow the seconds. What does, apart from a fraction, is one word behind
/// blanks: it holds no blank and no other character than letters, digits and some signs, and it
/// starts with a sign, a capital letter or a square bracket, or with `z` and then ends or goes on in
/// square brackets.
pub proof fn no_free_text_follows(s: Seq<char>)
    requires
        s.len() > 0,
        s[0] != '.',
        s[0] != ' ',
        s[0] != '\t',
        time_suffix(s),
    ensures
        s[0] == '+' || s[0] == '-' || 'A' <= s[0] <= 'Z' || s[0] == '[' || (s[0] == 'z' && (s.len()
            == 1 || s[1] == '[')),
        forall|i: int|
            0 <= i < s.len() ==> {
                let c = #[trigger] s[i];
                'a' <= c <= 'z' || 'A' <= c <= 'Z' || '0' <= c <= '9' || c == '/' || c == '_' || c
                    == '-' || c == '+' || c == ':' || c == '[' || c == ']'
            },
{
    assert(zone(s));
    assert(unpadded(s) == s);
    if zone_word(s) {
        lemma_word(s, 0);
        assert forall|i: int| 0 <= i < s.len() implies in_word(#[trigger] s[i]) by {
            lemma_word(s, i);
        }
    } else {
        let k = choose|k: int| #[trigger] bracketed_from(s, k);
        let n = s.len() as int;
        let inner = s.subrange(k + 1, n - 1);
        if k > 0 {
            lemma_word(s.take(k), 0);
            assert(s.take(k)[0] == s[0]);
            if s.take(k) == seq!['z'] {
                assert(s.take(k).len() == 1);
            }
        }
        assert forall|i: int| 0 <= i < n implies in_word(#[trigger] s[i]) || s[i] == '[' || s[i]
            == ']' by {
            if i < k {
                assert(s.take(k)[i] == s[i]);
                lemma_word(s.take(k), i);
            } else if k < i < n - 1 {
                assert(inner[i - k - 1] == s[i]);
                lemma_word(inner, i - k - 1);
            }
        }
    }
}

} // verus!
