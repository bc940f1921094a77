//! The local time as front matter writes it.

use vstd::prelude::*;

use crate::classify::{date, datetime, digits_but, string_type, wikilink};
use crate::semver::{all_digits, is_digit};

verus! {

/// The year of a timestamp: four digits, or more behind a plus sign.
pub open spec fn stamp_year(y: Seq<char>) -> bool {
    ||| y.len() == 4 && all_digits(y)
    ||| y.len() > 5 && y[0] == '+' && all_digits(y.skip(1))
}

/// What follows the year in a timestamp: `-MM-DD HH:MM:SS`.
pub open spec fn stamp_rest(r: Seq<char>) -> bool {
    &&& r.len() == 15
    &&& r[0] == '-' && is_digit(r[1]) && is_digit(r[2])
    &&& r[3] == '-' && is_digit(r[4]) && is_digit(r[5])
    &&& r[6] == ' ' && is_digit(r[7]) && is_digit(r[8])
    &&& r[9] == ':' && is_digit(r[10]) && is_digit(r[11])
    &&& r[12] == ':' && is_digit(r[13]) && is_digit(r[14])
}

/// A timestamp, `YYYY-MM-DD HH:MM:SS`. A year beyond 9999 has a plus sign and more digits.
pub open spec fn stamp(s: Seq<char>) -> bool {
    s.len() >= 19 && stamp_year(s.take(s.len() - 15)) && stamp_rest(s.skip(s.len() - 15))
}

/// Calls `chrono::Local::now` and formats the time with `%Y-%m-%d %H:%M:%S`. Which time it is
/// rests with the clock of the machine and its time zone, so only the form is claimed. The clock
/// must not stand before 1970.
#[verifier::external_body]
pub(crate) fn now_str() -> (r: String)
    ensures
        stamp(r@),
{
    chrono::Local::now().format("%Y-%m-%d %H:%M:%S").to_string()
}

/// A timestamp of a year with four digits is told as a date with a time when it is read again.
pub proof fn stamp_is_a_datetime(s: Seq<char>)
    requires
        stamp(s),
        s.len() == 19,
    ensures
        datetime(s),
        string_type(s) == "datetime"@,
{
    let (y, r) = (s.take(4), s.skip(4));
    assert(forall|i: int| 0 <= i < 4 ==> is_digit(#[trigger] y[i]));
    assert(forall|i: int| 0 <= i < 4 ==> #[trigger] s[i] == y[i]);
    assert(forall|i: int| 4 <= i < 19 ==> #[trigger] s[i] == r[i - 4]);
    let d = s.take(10);
    assert(forall|i: int| 0 <= i < 10 ==> #[trigger] d[i] == s[i]);
    assert(date(d));
    assert(digits_but(s, 11, 19, ':', 13, 16));
    assert(is_digit(y[0]));
    assert(!wikilink(s));
}

} // verus!
