//! Version numbers of three components, and how they are raised.

use vstd::prelude::*;

use crate::text::{chars_of, same, string_of};

verus! {

/// A decimal digit.
pub open spec fn is_digit(c: char) -> bool {
    '0' <= c <= '9'
}

/// The number that the digits `s` write in base ten.
pub open spec fn decimal(s: Seq<char>) -> nat
    decreases s.len(),
{
    if s.len() == 0 {
        0
    } else {
        (decimal(s.drop_last()) * 10 + (s.last() as nat - '0' as nat)) as nat
    }
}

/// `s` without the plus sign that it may start with.
pub open spec fn unsigned(s: Seq<char>) -> Seq<char> {
    if s.len() > 0 && s[0] == '+' {
        s.skip(1)
    } else {
        s
    }
}

/// All of `s` is digits.
pub open spec fn all_digits(s: Seq<char>) -> bool {
    forall|i: int| 0 <= i < s.len() ==> is_digit(#[trigger] s[i])
}

/// The number that one component of a version writes: digits, with one plus sign before them
/// or none, whose value fits in 64 bits.
pub open spec fn number(s: Seq<char>) -> Option<nat> {
    let digits = unsigned(s);
    if digits.len() > 0 && all_digits(digits) && decimal(digits) <= u64::MAX {
        Some(decimal(digits))
    } else {
        None
    }
}

/// The two dots of `v` stand at `i` and `j`, and `v` has no other.
pub open spec fn dots_at(v: Seq<char>, i: int, j: int) -> bool {
    &&& 0 <= i < j < v.len()
    &&& v[i] == '.'
    &&& v[j] == '.'
    &&& forall|k: int| 0 <= k < v.len() && k != i && k != j ==> v[k] != '.'
}

/// What stands before, between and after the two dots of `v`.
pub open spec fn parts(v: Seq<char>) -> Option<(Seq<char>, Seq<char>, Seq<char>)> {
    if exists|i: int, j: int| dots_at(v, i, j) {
        let (i, j) = choose|i: int, j: int| dots_at(v, i, j);
        Some((v.take(i), v.subrange(i + 1, j), v.skip(j + 1)))
    } else {
        None
    }
}

/// The components of a version.
pub open spec fn version(v: Seq<char>) -> Option<(nat, nat, nat)> {
    match parts(v) {
        Some((a, b, c)) => match (number(a), number(b), number(c)) {
            (Some(major), Some(minor), Some(patch)) => Some((major, minor, patch)),
            _ => None,
        },
        None => None,
    }
}

/// The components after a bump of `level`: that component grows by one, and those after it
/// become zero.
pub open spec fn raised(v: (nat, nat, nat), level: Seq<char>) -> Option<(nat, nat, nat)> {
    if level == "major"@ {
        Some((v.0 + 1, 0, 0))
    } else if level == "minor"@ {
        Some((v.0, v.1 + 1, 0))
    } else if level == "patch"@ {
        Some((v.0, v.1, v.2 + 1))
    } else {
        None
    }
}

/// The digit of `n`.
pub open spec fn digit(n: nat) -> char {
    (n + '0' as nat) as char
}

/// `n` in base ten, without leading zeros.
pub open spec fn decimal_text(n: nat) -> Seq<char>
    decreases n,
{
    if n < 10 {
        seq![digit(n)]
    } else {
        decimal_text(n / 10).push(digit(n % 10))
    }
}

/// A version as it is written.
pub open spec fn version_text(v: (nat, nat, nat)) -> Seq<char> {
    decimal_text(v.0).push('.') + decimal_text(v.1).push('.') + decimal_text(v.2)
}

/// Why a version cannot be bumped.
#[derive(Debug, PartialEq)]
pub enum SemverError {
    /// The version does not have three parts between dots.
    Invalid(String),
    /// The first part, which is no number.
    Major(String),
    /// The second part, which is no number.
    Minor(String),
    /// The third part, which is no number.
    Patch(String),
    /// The level is none of the three that there are.
    Level(String),
}

/// What a [`SemverError`] says.
pub enum SemverFault {
    Invalid(Seq<char>),
    Major(Seq<char>),
    Minor(Seq<char>),
    Patch(Seq<char>),
    Level(Seq<char>),
}

impl View for SemverError {
    type V = SemverFault;

    open spec fn view(&self) -> SemverFault {
        match self {
            SemverError::Invalid(v) => SemverFault::Invalid(v@),
            SemverError::Major(part) => SemverFault::Major(part@),
            SemverError::Minor(part) => SemverFault::Minor(part@),
            SemverError::Patch(part) => SemverFault::Patch(part@),
            SemverError::Level(l) => SemverFault::Level(l@),
        }
    }
}

/// The version that a bump of `v` gives, or the first thing that is wrong: the shape of the
/// version, then its numbers from the left, then the level.
pub open spec fn bump_spec(v: Seq<char>, level: Seq<char>) -> Result<Seq<char>, SemverFault> {
    match parts(v) {
        None => Err(SemverFault::Invalid(v)),
        Some((a, b, c)) => match (number(a), number(b), number(c)) {
            (None, _, _) => Err(SemverFault::Major(a)),
            (_, None, _) => Err(SemverFault::Minor(b)),
            (_, _, None) => Err(SemverFault::Patch(c)),
            (Some(major), Some(minor), Some(patch)) => match raised((major, minor, patch), level) {
                Some(next) => Ok(version_text(next)),
                None => Err(SemverFault::Level(level)),
            },
        },
    }
}

/// A bump would raise a component beyond 64 bits.
pub open spec fn bump_overflows(v: Seq<char>, level: Seq<char>) -> bool {
    match version(v) {
        Some(components) => match raised(components, level) {
            Some((a, b, c)) => a > u64::MAX || b > u64::MAX || c > u64::MAX,
            None => false,
        },
        None => false,
    }
}

proof fn lemma_parts(v: Seq<char>, i: int, j: int)
    requires
        dots_at(v, i, j),
    ensures
        parts(v) == Some((v.take(i), v.subrange(i + 1, j), v.skip(j + 1))),
{
    let (x, y) = choose|x: int, y: int| dots_at(v, x, y);
    assert(x == i && y == j);
}

proof fn lemma_decimal_prefix(s: Seq<char>, n: int)
    requires
        0 <= n <= s.len(),
        all_digits(s),
    ensures
        decimal(s.take(n)) <= decimal(s),
    decreases s.len() - n,
{
    if n < s.len() {
        assert(s.take(n + 1).drop_last() =~= s.take(n));
        lemma_decimal_prefix(s, n + 1);
    } else {
        assert(s.take(n) =~= s);
    }
}

/// The number that the characters of `cs` from `from` up to `to` write.
fn parse_number(cs: &Vec<char>, from: usize, to: usize) -> (r: Option<u64>)
    requires
        from <= to <= cs@.len(),
    ensures
        match r {
            Some(n) => number(cs@.subrange(from as int, to as int)) == Some(n as nat),
            None => number(cs@.subrange(from as int, to as int)) is None,
        },
{
    let ghost s = cs@.subrange(from as int, to as int);
    let start: usize = if from < to && cs[from] == '+' {
        from + 1
    } else {
        from
    };
    let ghost digits = cs@.subrange(start as int, to as int);
    assert(digits =~= unsigned(s));
    if start == to {
        return None;
    }
    let mut value: u64 = 0;
    let mut i: usize = start;
    while i < to
        invariant
            from <= start <= i <= to <= cs@.len(),
            digits == cs@.subrange(start as int, to as int),
            digits == unsigned(cs@.subrange(from as int, to as int)),
            forall|k: int| 0 <= k < i - start ==> is_digit(#[trigger] digits[k]),
            value == decimal(digits.take(i - start)),
        decreases to - i,
    {
        let c = cs[i];
        assert(digits[i - start] == c);
        if c < '0' || c > '9' {
            return None;
        }
        let d: u64 = c as u64 - 48;
        assert(digits.take(i - start + 1).drop_last() =~= digits.take(i - start));
        assert(decimal(digits.take(i - start + 1)) == value * 10 + d);
        if value > (u64::MAX - d) / 10 {
            proof {
                if all_digits(digits) {
                    lemma_decimal_prefix(digits, i - start + 1);
                }
            }
            return None;
        }
        value = value * 10 + d;
        i += 1;
    }
    assert(digits.take(to - start) =~= digits);
    Some(value)
}

/// The character of the digit `d`.
fn digit_char(d: u64) -> (r: char)
    requires
        d < 10,
    ensures
        r == digit(d as nat),
{
    (d as u8 + 48) as char
}

/// Appends `n` in base ten to `out`.
fn push_number(out: &mut String, n: u64)
    ensures
        final(out)@ == old(out)@ + decimal_text(n as nat),
    decreases n,
{
    if n < 10 {
        out.push(digit_char(n));
    } else {
        push_number(out, n / 10);
        out.push(digit_char(n % 10));
    }
}

/// The components of a version, or what is wrong with it.
fn parse_version(v: &str) -> (r: Result<(u64, u64, u64), SemverError>)
    ensures
        match r {
            Ok((major, minor, patch)) => version(v@) == Some((major as nat, minor as nat, patch as nat)),
            Err(e) => version(v@) is None && forall|level: Seq<char>|
                #[trigger] bump_spec(v@, level) == Err::<Seq<char>, SemverFault>(e@),
        },
{
    let cs = chars_of(v);
    let n = cs.len();
    let mut dots: usize = 0;
    let mut first: usize = 0;
    let mut second: usize = 0;
    let mut k: usize = 0;
    while k < n
        invariant
            k <= n == cs@.len(),
            dots <= 2,
            dots == 0 ==> forall|i: int| 0 <= i < k ==> cs@[i] != '.',
            dots == 1 ==> first < k && cs@[first as int] == '.' && forall|i: int|
                0 <= i < k && i != first ==> cs@[i] != '.',
            dots == 2 ==> first < second < k && cs@[first as int] == '.' && cs@[second as int] == '.'
                && forall|i: int| 0 <= i < k && i != first && i != second ==> cs@[i] != '.',
            cs@ == v@,
        decreases n - k,
    {
        if cs[k] == '.' {
            if dots == 0 {
                first = k;
            } else if dots == 1 {
                second = k;
            } else {
                proof {
                    if exists|i: int, j: int| dots_at(v@, i, j) {
                        let (i, j) = choose|i: int, j: int| dots_at(v@, i, j);
                        assert(v@[first as int] == '.' && v@[second as int] == '.' && v@[k as int] == '.');
                    }
                }
                return Err(SemverError::Invalid(v.to_owned()));
            }
            dots += 1;
        }
        k += 1;
    }
    if dots != 2 {
        proof {
            if exists|i: int, j: int| dots_at(v@, i, j) {
                let (i, j) = choose|i: int, j: int| dots_at(v@, i, j);
                assert(v@[i] == '.' && v@[j] == '.');
            }
        }
        return Err(SemverError::Invalid(v.to_owned()));
    }
    proof {
        assert(dots_at(v@, first as int, second as int));
        lemma_parts(v@, first as int, second as int);
        assert(cs@.subrange(0, first as int) =~= v@.take(first as int));
        assert(cs@.subrange(second + 1, n as int) =~= v@.skip(second + 1));
    }
    let major = match parse_number(&cs, 0, first) {
        Some(x) => x,
        None => {
            return Err(SemverError::Major(string_of(&cs, 0, first)));
        },
    };
    let minor = match parse_number(&cs, first + 1, second) {
        Some(x) => x,
        None => {
            return Err(SemverError::Minor(string_of(&cs, first + 1, second)));
        },
    };
    let patch = match parse_number(&cs, second + 1, n) {
        Some(x) => x,
        None => {
            return Err(SemverError::Patch(string_of(&cs, second + 1, n)));
        },
    };
    Ok((major, minor, patch))
}

/// Whether a bump of `v` at `level` would raise a component beyond 64 bits.
pub fn bump_would_overflow(v: &str, level: &str) -> (r: bool)
    ensures
        r == bump_overflows(v@, level@),
{
    match parse_version(v) {
        Ok((major, minor, patch)) => if same(level, "major") {
            major == u64::MAX
        } else if same(level, "minor") {
            minor == u64::MAX
        } else if same(level, "patch") {
            patch == u64::MAX
        } else {
            false
        },
        Err(_) => false,
    }
}

/// The version that follows `v` at `level`, which is `major`, `minor` or `patch`.
pub fn bump_semver(v: &str, level: &str) -> (r: Result<String, SemverError>)
    requires
        !bump_overflows(v@, level@),
    ensures
        match r {
            Ok(next) => bump_spec(v@, level@) == Ok::<Seq<char>, SemverFault>(next@),
            Err(e) => bump_spec(v@, level@) == Err::<Seq<char>, SemverFault>(e@),
        },
{
    let (major, minor, patch) = match parse_version(v) {
        Ok(components) => components,
        Err(e) => {
            return Err(e);
        },
    };
    let (a, b, c): (u64, u64, u64) = if same(level, "major") {
        (major + 1, 0, 0)
    } else if same(level, "minor") {
        (major, minor + 1, 0)
    } else if same(level, "patch") {
        (major, minor, patch + 1)
    } else {
        return Err(SemverError::Level(level.to_owned()));
    };
    let mut out = String::new();
    push_number(&mut out, a);
    out.push('.');
    push_number(&mut out, b);
    out.push('.');
    push_number(&mut out, c);
    assert(out@ =~= version_text((a as nat, b as nat, c as nat)));
    Ok(out)
}

/// A number in base ten has digits alone, which write that number.
pub proof fn lemma_decimal_text(n: nat)
    ensures
        decimal_text(n).len() > 0,
        all_digits(decimal_text(n)),
        decimal(decimal_text(n)) == n,
    decreases n,
{
    let t = decimal_text(n);
    if n < 10 {
        assert(t.drop_last() =~= Seq::empty());
        assert(decimal(t.drop_last()) == 0);
        assert(t.last() as nat == n + '0' as nat);
    } else {
        lemma_decimal_text(n / 10);
        assert(t.drop_last() =~= decimal_text(n / 10));
        assert(t.last() as nat == n % 10 + '0' as nat);
        assert forall|i: int| 0 <= i < t.len() implies is_digit(#[trigger] t[i]) by {
            if i < t.len() - 1 {
                assert(t[i] == decimal_text(n / 10)[i]);
            }
        }
    }
}

/// A number of 64 bits that is written in base ten reads as itself.
pub proof fn number_of_decimal_text(n: nat)
    requires
        n <= u64::MAX,
    ensures
        number(decimal_text(n)) == Some(n),
{
    lemma_decimal_text(n);
    assert(is_digit(decimal_text(n)[0]));
}

/// A version that is written out reads as the same components.
pub proof fn version_of_version_text(v: (nat, nat, nat))
    requires
        v.0 <= u64::MAX,
        v.1 <= u64::MAX,
        v.2 <= u64::MAX,
    ensures
        version(version_text(v)) == Some(v),
{
    let (a, b, c) = (decimal_text(v.0), decimal_text(v.1), decimal_text(v.2));
    let t = version_text(v);
    lemma_decimal_text(v.0);
    lemma_decimal_text(v.1);
    lemma_decimal_text(v.2);
    let i = a.len() as int;
    let j = i + 1 + b.len();
    assert forall|k: int| 0 <= k < t.len() && k != i && k != j implies t[k] != '.' by {
        if k < i {
            assert(is_digit(a[k]));
        } else if k < j {
            assert(is_digit(b[k - i - 1]));
        } else {
            assert(is_digit(c[k - j - 1]));
        }
    }
    assert(dots_at(t, i, j));
    lemma_parts(t, i, j);
    assert(t.take(i) =~= a);
    assert(t.subrange(i + 1, j) =~= b);
    assert(t.skip(j + 1) =~= c);
    number_of_decimal_text(v.0);
    number_of_decimal_text(v.1);
    number_of_decimal_text(v.2);
}

/// A bump gives a version again: it reads as the old components, one of them greater by one
/// and those after it zero.
pub proof fn bump_gives_the_raised_version(v: Seq<char>, level: Seq<char>)
    requires
        !bump_overflows(v, level),
    ensures
        bump_spec(v, level) matches Ok(next) ==> {
            &&& version(v) is Some
            &&& raised(version(v)->0, level) is Some
            &&& version(next) == raised(version(v)->0, level)
        },
{
    if let Ok(next) = bump_spec(v, level) {
        version_of_version_text(raised(version(v)->0, level)->0);
    }
}

/// A bump succeeds exactly on a version of three numbers and one of the three levels, and what
/// it gives can be bumped again.
pub proof fn bump_succeeds_on_versions(v: Seq<char>, level: Seq<char>, again: Seq<char>)
    requires
        !bump_overflows(v, level),
    ensures
        bump_spec(v, level) is Ok <==> version(v) is Some && (level == "major"@ || level == "minor"@
            || level == "patch"@),
        bump_spec(v, level) matches Ok(next) ==> (again == "major"@ || again == "minor"@ || again
            == "patch"@) ==> bump_spec(next, again) is Ok,
{
    bump_gives_the_raised_version(v, level);
}

/// Versions are ordered by their first component, then by the second, then by the third; a bump
/// gives a later one.
pub proof fn bump_gives_a_later_version(v: Seq<char>, level: Seq<char>)
    requires
        !bump_overflows(v, level),
    ensures
        bump_spec(v, level) matches Ok(next) ==> {
            let (old, new) = (version(v)->0, version(next)->0);
            old.0 < new.0 || (old.0 == new.0 && (old.1 < new.1 || (old.1 == new.1 && old.2 < new.2)))
        },
{
    bump_gives_the_raised_version(v, level);
}

/// A component of one character is a digit, and writes it.
pub proof fn one_digit_is_a_number(c: char)
    ensures
        '0' <= c <= '9' ==> number(seq![c]) == Some((c as int - 48) as nat),
        !('0' <= c <= '9') ==> number(seq![c]) is None,
        '0' <= c <= '9' ==> number(seq!['+', c]) == Some((c as int - 48) as nat),
        !('0' <= c <= '9') ==> number(seq!['+', c]) is None,
        number(Seq::empty()) is None,
{
    let one = seq![c];
    let signed = seq!['+', c];
    assert(signed.skip(1) =~= one);
    assert(seq!['+'].skip(1) =~= Seq::<char>::empty());
    assert(one[0] == c);
    assert(one.drop_last() =~= Seq::empty());
    assert(decimal(one.drop_last()) == 0);
    if c == '+' {
        assert(one.skip(1) =~= Seq::empty());
    }
}

/// One more digit behind a number makes it ten times as great, and adds the digit; no number takes
/// more than 64 bits, and no other character belongs to one.
pub proof fn one_more_digit(s: Seq<char>, c: char)
    requires
        s.len() > 0,
        s != seq!['+'],
    ensures
        number(s) matches Some(n) ==> {
            let more = 10 * n + (c as int - 48);
            &&& '0' <= c <= '9' && more <= u64::MAX ==> number(s.push(c)) == Some(more as nat)
            &&& '0' <= c <= '9' && more > u64::MAX ==> number(s.push(c)) is None
            &&& !('0' <= c <= '9') ==> number(s.push(c)) is None
        },
        number(s) is None ==> number(s.push(c)) is None,
{
    let t = s.push(c);
    let (a, b) = (unsigned(s), unsigned(t));
    assert(t[0] == s[0]);
    if s[0] == '+' {
        assert(s.len() > 1) by {
            if s.len() == 1 {
                assert(s =~= seq!['+']);
            }
        }
        assert(b =~= a.push(c));
    } else {
        assert(b =~= a.push(c));
    }
    assert(b.drop_last() =~= a);
    assert(b.last() == c);
    if all_digits(b) {
        assert(is_digit(b[a.len() as int]));
        assert forall|i: int| 0 <= i < a.len() implies is_digit(#[trigger] a[i]) by {
            assert(b[i] == a[i]);
        }
    }
    if all_digits(a) && is_digit(c) {
        assert forall|i: int| 0 <= i < b.len() implies is_digit(#[trigger] b[i]) by {
            if i < a.len() {
                assert(b[i] == a[i]);
            }
        }
    }
}

/// `s` has no dot.
pub open spec fn dotless(s: Seq<char>) -> bool {
    forall|i: int| 0 <= i < s.len() ==> #[trigger] s[i] != '.'
}

/// Three parts with a dot between each two.
pub open spec fn dotted(a: Seq<char>, b: Seq<char>, c: Seq<char>) -> Seq<char> {
    a + seq!['.'] + b + seq!['.'] + c
}

proof fn lemma_dotted(a: Seq<char>, b: Seq<char>, c: Seq<char>)
    requires
        dotless(a),
        dotless(b),
        dotless(c),
    ensures
        parts(dotted(a, b, c)) == Some((a, b, c)),
{
    let t = dotted(a, b, c);
    let i = a.len() as int;
    let j = i + 1 + b.len();
    assert forall|k: int| 0 <= k < t.len() && k != i && k != j implies t[k] != '.' by {
        if k < i {
            assert(t[k] == a[k]);
        } else if k < j {
            assert(t[k] == b[k - i - 1]);
        } else {
            assert(t[k] == c[k - j - 1]);
        }
    }
    assert(dots_at(t, i, j));
    lemma_parts(t, i, j);
    assert(t.take(i) =~= a);
    assert(t.subrange(i + 1, j) =~= b);
    assert(t.skip(j + 1) =~= c);
}

/// A version has the components that its three parts write, and every version has such parts.
pub proof fn version_has_three_parts(a: Seq<char>, b: Seq<char>, c: Seq<char>, v: Seq<char>)
    requires
        dotless(a),
        dotless(b),
        dotless(c),
    ensures
        forall|x: nat, y: nat, z: nat|
            version(dotted(a, b, c)) == Some((x, y, z)) <==> number(a) == Some(x) && number(b)
                == Some(y) && number(c) == Some(z),
        version(v) is Some ==> exists|p: Seq<char>, q: Seq<char>, r: Seq<char>|
            dotless(p) && dotless(q) && dotless(r) && v == #[trigger] dotted(p, q, r),
{
    lemma_dotted(a, b, c);
    if version(v) is Some {
        lemma_parts_of(v);
        let (p, q, r) = parts(v)->0;
        assert(v == dotted(p, q, r));
    }
}

proof fn lemma_parts_of(v: Seq<char>)
    requires
        parts(v) is Some,
    ensures
        ({
            let (p, q, r) = parts(v)->0;
            dotless(p) && dotless(q) && dotless(r) && v == dotted(p, q, r)
        }),
{
    let (i, j) = choose|i: int, j: int| dots_at(v, i, j);
    let (p, q, r) = (v.take(i), v.subrange(i + 1, j), v.skip(j + 1));
    assert(v =~= dotted(p, q, r));
}

/// A number in base ten: one digit for each below ten, and each digit more at the end makes it ten
/// times as great.
pub proof fn decimal_text_by_digits(n: nat, d: nat)
    requires
        d < 10,
    ensures
        decimal_text(d) == seq![(48 + d) as char],
        n > 0 ==> decimal_text(10 * n + d) == decimal_text(n).push((48 + d) as char),
{
    if n > 0 {
        let m = 10 * n + d;
        assert(m / 10 == n && m % 10 == d);
    }
}

/// A bump at level `patch` raises the third component by one and leaves the others.
pub proof fn patch_raises_the_third(v: Seq<char>, a: nat, b: nat, c: nat)
    requires
        version(v) == Some((a, b, c)),
    ensures
        bump_spec(v, "patch"@) == Ok::<Seq<char>, SemverFault>(
            dotted(decimal_text(a), decimal_text(b), decimal_text(c + 1)),
        ),
        bump_overflows(v, "patch"@) <==> c == u64::MAX,
        c < u64::MAX ==> (bump_spec(v, "patch"@) matches Ok(next) && version(next) == Some(
            (a, b, c + 1),
        )),
{
    lemma_levels();
    lemma_components(v);
    lemma_version_text_dotted((a, b, c + 1));
    if c < u64::MAX {
        version_of_version_text((a, b, c + 1));
    }
}

/// A bump at level `minor` raises the second component by one, makes the third zero and leaves the
/// first.
pub proof fn minor_raises_the_second(v: Seq<char>, a: nat, b: nat, c: nat)
    requires
        version(v) == Some((a, b, c)),
    ensures
        bump_spec(v, "minor"@) == Ok::<Seq<char>, SemverFault>(
            dotted(decimal_text(a), decimal_text(b + 1), seq!['0']),
        ),
        bump_overflows(v, "minor"@) <==> b == u64::MAX,
        b < u64::MAX ==> (bump_spec(v, "minor"@) matches Ok(next) && version(next) == Some(
            (a, b + 1, 0nat),
        )),
{
    lemma_levels();
    lemma_components(v);
    lemma_version_text_dotted((a, b + 1, 0));
    decimal_text_by_digits(0, 0);
    if b < u64::MAX {
        version_of_version_text((a, b + 1, 0));
    }
}

/// A bump at level `major` raises the first component by one and makes the others zero.
pub proof fn major_raises_the_first(v: Seq<char>, a: nat, b: nat, c: nat)
    requires
        version(v) == Some((a, b, c)),
    ensures
        bump_spec(v, "major"@) == Ok::<Seq<char>, SemverFault>(
            dotted(decimal_text(a + 1), seq!['0'], seq!['0']),
        ),
        bump_overflows(v, "major"@) <==> a == u64::MAX,
        a < u64::MAX ==> (bump_spec(v, "major"@) matches Ok(next) && version(next) == Some(
            (a + 1, 0nat, 0nat),
        )),
{
    lemma_levels();
    lemma_components(v);
    lemma_version_text_dotted((a + 1, 0, 0));
    decimal_text_by_digits(0, 0);
    if a < u64::MAX {
        version_of_version_text((a + 1, 0, 0));
    }
}

proof fn lemma_levels()
    ensures
        "major"@ != "minor"@,
        "major"@ != "patch"@,
        "minor"@ != "patch"@,
{
    reveal_strlit("major");
    reveal_strlit("minor");
    reveal_strlit("patch");
    assert("major"@[1] == 'a' && "minor"@[1] == 'i' && "patch"@[0] == 'p' && "minor"@[0] == 'm');
    assert("major"@[0] == 'm');
}

proof fn lemma_components(v: Seq<char>)
    ensures
        version(v) matches Some((a, b, c)) ==> a <= u64::MAX && b <= u64::MAX && c <= u64::MAX,
{
}

proof fn lemma_version_text_dotted(v: (nat, nat, nat))
    ensures
        version_text(v) == dotted(decimal_text(v.0), decimal_text(v.1), decimal_text(v.2)),
{
    assert(version_text(v) =~= dotted(decimal_text(v.0), decimal_text(v.1), decimal_text(v.2)));
}

/// What is wrong with a version is told from the left: that it has not three parts, or the first of
/// these that is no number. Only then the level counts, and only three levels are known.
pub proof fn bump_tells_what_is_wrong(
    a: Seq<char>,
    b: Seq<char>,
    c: Seq<char>,
    v: Seq<char>,
    level: Seq<char>,
)
    requires
        dotless(a),
        dotless(b),
        dotless(c),
    ensures
        (forall|p: Seq<char>, q: Seq<char>, r: Seq<char>|
            dotless(p) && dotless(q) && dotless(r) ==> v != #[trigger] dotted(p, q, r)) ==> bump_spec(
            v,
            level,
        ) == Err::<Seq<char>, SemverFault>(SemverFault::Invalid(v)) && !bump_overflows(v, level),
        number(a) is None ==> bump_spec(dotted(a, b, c), level) == Err::<Seq<char>, SemverFault>(
            SemverFault::Major(a),
        ),
        number(a) is Some && number(b) is None ==> bump_spec(dotted(a, b, c), level) == Err::<
            Seq<char>,
            SemverFault,
        >(SemverFault::Minor(b)),
        number(a) is Some && number(b) is Some && number(c) is None ==> bump_spec(
            dotted(a, b, c),
            level,
        ) == Err::<Seq<char>, SemverFault>(SemverFault::Patch(c)),
        number(a) is Some && number(b) is Some && number(c) is Some && level != "major"@ && level
            != "minor"@ && level != "patch"@ ==> bump_spec(dotted(a, b, c), level) == Err::<
            Seq<char>,
            SemverFault,
        >(SemverFault::Level(level)),
        number(a) is None || number(b) is None || number(c) is None || (level != "major"@ && level
            != "minor"@ && level != "patch"@) ==> !bump_overflows(dotted(a, b, c), level),
{
    lemma_dotted(a, b, c);
    if parts(v) is Some {
        lemma_parts_of(v);
        let (p, q, r) = parts(v)->0;
        assert(v == dotted(p, q, r));
    }
}

/// Each error says the text that it is about.
pub proof fn semver_errors_hold_their_texts(e: SemverError)
    ensures
        e matches SemverError::Invalid(s) ==> e@ == SemverFault::Invalid(s@),
        e matches SemverError::Major(s) ==> e@ == SemverFault::Major(s@),
        e matches SemverError::Minor(s) ==> e@ == SemverFault::Minor(s@),
        e matches SemverError::Patch(s) ==> e@ == SemverFault::Patch(s@),
        e matches SemverError::Level(s) ==> e@ == SemverFault::Level(s@),
{
}

} // verus!
