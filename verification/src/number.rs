//! Numbers of YAML and JSON.
//!
//! Numbers are carried as the values of `serde_yaml` and `serde_json` that they are; what they
//! hold is a [`Num`].

use vstd::prelude::*;

verus! {

/// Declares the numbers of `serde_yaml`.
#[verifier::external_type_specification]
#[verifier::external_body]
pub struct ExYamlNumber(serde_yaml::Number);

/// Declares the numbers of `serde_json`.
#[verifier::external_type_specification]
#[verifier::external_body]
pub struct ExJsonNumber(serde_json::Number);

/// A number: an integer, or a floating-point number of 64 bits, given by its bits.
pub enum Num {
    Int(int),
    Float(u64),
}

/// What a number of `serde_yaml` holds.
pub uninterp spec fn yaml_number(n: serde_yaml::Number) -> Num;

/// What a number of `serde_json` holds.
pub uninterp spec fn json_number(n: serde_json::Number) -> Num;

/// `i` fits in 64 bits with a sign.
pub open spec fn fits_i64(i: int) -> bool {
    i64::MIN <= i <= i64::MAX
}

/// The floating-point number with the bits `b` is neither infinite nor undefined: its
/// exponent is not the greatest.
pub open spec fn finite(b: u64) -> bool {
    (b as int / 0x10_0000_0000_0000) % 0x800 != 0x7ff
}

/// `i` divided by `d`, rounded to the nearest integer, and to the even one of two that are
/// equally near.
pub open spec fn rounded_quotient(i: int, d: int) -> int {
    let q = i / d;
    let r = i % d;
    if 2 * r > d || (2 * r == d && q % 2 == 1) {
        q + 1
    } else {
        q
    }
}

/// The bits of the floating-point number nearest to `i`, where `i` takes all of 64 bits: 53 of
/// them are kept. The exponent 1086 stands for `2^63`, and a significand that is rounded up to
/// the next power of two carries into it.
pub open spec fn nearest_float(i: int) -> u64 {
    (1085 * 0x10_0000_0000_0000 + rounded_quotient(i, 0x800)) as u64
}

/// The number as YAML takes it from JSON: an integer that does not fit in 64 bits with a sign
/// becomes the nearest floating-point number.
pub open spec fn num_to_yaml(n: Num) -> Num {
    match n {
        Num::Int(i) if !fits_i64(i) => Num::Float(nearest_float(i)),
        _ => n,
    }
}

/// The number as JSON takes it from YAML: as [`num_to_yaml`] says, but infinite and undefined
/// numbers have no form in JSON.
pub open spec fn num_to_json(n: Num) -> Option<Num> {
    match n {
        Num::Int(i) if !fits_i64(i) => Some(Num::Float(nearest_float(i))),
        Num::Float(b) if !finite(b) => None,
        _ => Some(n),
    }
}

/// `serde_yaml::Number::as_i64` gives the integer that the number holds, if it fits.
pub assume_specification[ serde_yaml::Number::as_i64 ](n: &serde_yaml::Number) -> (r: Option<i64>)
    ensures
        match yaml_number(*n) {
            Num::Int(i) => if i <= i64::MAX {
                r is Some && r->0 as int == i
            } else {
                r is None
            },
            Num::Float(_) => r is None,
        },
;

/// `serde_yaml::Number::as_u64` gives the integer that the number holds, unless it is negative.
pub assume_specification[ serde_yaml::Number::as_u64 ](n: &serde_yaml::Number) -> (r: Option<u64>)
    ensures
        match yaml_number(*n) {
            Num::Int(i) => if i >= 0 {
                r is Some && r->0 as int == i
            } else {
                r is None
            },
            Num::Float(_) => r is None,
        },
;

/// `serde_json::Number::as_i64` gives the integer that the number holds, if it fits.
pub assume_specification[ serde_json::Number::as_i64 ](n: &serde_json::Number) -> (r: Option<i64>)
    ensures
        match json_number(*n) {
            Num::Int(i) => if i <= i64::MAX {
                r is Some && r->0 as int == i
            } else {
                r is None
            },
            Num::Float(_) => r is None,
        },
;

/// Calls `serde_yaml::Number::from` on an integer, which the number then holds.
#[verifier::external_body]
pub(crate) fn yaml_int(i: i64) -> (r: serde_yaml::Number)
    ensures
        yaml_number(r) == Num::Int(i as int),
{
    serde_yaml::Number::from(i)
}

/// Calls `serde_json::Number::from` on an integer, which the number then holds.
#[verifier::external_body]
pub(crate) fn json_int(i: i64) -> (r: serde_json::Number)
    ensures
        json_number(r) == Num::Int(i as int),
{
    serde_json::Number::from(i)
}

/// Calls `serde_json::Number::as_f64` and `serde_yaml::Number::from` on what it gives: a
/// floating-point number is carried over with its bits, and an integer beyond 64 bits with a
/// sign is rounded. There is always such a number. Nothing is said of smaller integers.
#[verifier::external_body]
fn yaml_float(n: &serde_json::Number) -> (r: Option<serde_yaml::Number>)
    ensures
        match json_number(*n) {
            Num::Int(i) => !fits_i64(i) ==> r is Some && yaml_number(r->0) == Num::Float(nearest_float(i)),
            Num::Float(b) => r is Some && yaml_number(r->0) == Num::Float(b),
        },
{
    n.as_f64().map(serde_yaml::Number::from)
}

/// Calls `serde_yaml::Number::as_f64` and `serde_json::Number::from_f64` on what it gives: a
/// finite floating-point number is carried over with its bits, for another there is none, and
/// an integer beyond 64 bits with a sign is rounded. Nothing is said of smaller integers.
#[verifier::external_body]
fn json_float(n: &serde_yaml::Number) -> (r: Option<serde_json::Number>)
    ensures
        match yaml_number(*n) {
            Num::Int(i) => !fits_i64(i) ==> r is Some && json_number(r->0) == Num::Float(nearest_float(i)),
            Num::Float(b) => if finite(b) {
                r is Some && json_number(r->0) == Num::Float(b)
            } else {
                r is None
            },
        },
{
    n.as_f64().and_then(serde_json::Number::from_f64)
}

/// Calls `serde_yaml::Number::as_f64` and takes the bits of what it gives: those of a
/// floating-point number are its own. Nothing is said of integers.
#[verifier::external_body]
fn yaml_bits(n: &serde_yaml::Number) -> (r: Option<u64>)
    ensures
        yaml_number(*n) matches Num::Float(b) ==> r == Some(b),
{
    match n.as_f64() {
        Some(float) => Some(float.to_bits()),
        None => None,
    }
}

/// Whether two numbers of YAML values are the same number.
pub fn same_number(a: &serde_yaml::Number, b: &serde_yaml::Number) -> (r: bool)
    ensures
        r == (yaml_number(*a) == yaml_number(*b)),
{
    match (is_integer(a), is_integer(b)) {
        (true, true) => a.as_i64() == b.as_i64() && a.as_u64() == b.as_u64(),
        (false, false) => yaml_bits(a) == yaml_bits(b),
        _ => false,
    }
}

/// The number of a JSON value, as a number of a YAML value.
pub fn number_to_yaml(n: &serde_json::Number) -> (r: serde_yaml::Number)
    ensures
        yaml_number(r) == num_to_yaml(json_number(*n)),
{
    if let Some(i) = n.as_i64() {
        yaml_int(i)
    } else {
        yaml_float(n).unwrap()
    }
}

/// The number of a YAML value, as a number of a JSON value.
pub fn number_to_json(n: &serde_yaml::Number) -> (r: Option<serde_json::Number>)
    ensures
        match r {
            Some(j) => num_to_json(yaml_number(*n)) == Some(json_number(j)),
            None => num_to_json(yaml_number(*n)) is None,
        },
{
    if let Some(i) = n.as_i64() {
        Some(json_int(i))
    } else {
        json_float(n)
    }
}

/// Whether a number of a YAML value is an integer.
pub fn is_integer(n: &serde_yaml::Number) -> (r: bool)
    ensures
        r == (yaml_number(*n) is Int),
{
    n.as_i64().is_some() || n.as_u64().is_some()
}

/// A number that went from JSON to YAML comes back as what YAML made of it, which is the number
/// itself unless it was an integer too great for 64 bits with a sign.
pub proof fn number_comes_back(n: Num)
    requires
        n matches Num::Float(b) ==> finite(b),
        n matches Num::Int(i) ==> i64::MIN <= i <= u64::MAX,
    ensures
        num_to_json(num_to_yaml(n)) == Some(num_to_yaml(n)),
        (n matches Num::Int(i) ==> fits_i64(i)) ==> num_to_json(num_to_yaml(n)) == Some(n),
{
    if let Num::Int(i) = n {
        if !fits_i64(i) {
            let q = rounded_quotient(i, 0x800);
            assert(0x10_0000_0000_0000 <= q <= 0x20_0000_0000_0000);
        }
    }
}

/// An integer that takes all of 64 bits becomes the floating-point number that is nearest to it. Of
/// the numbers with the exponent of such an integer, two neighbours are 2048 apart: the significand
/// times 2048 is at most 1024 away, and even where it is exactly that.
pub proof fn great_integers_are_rounded(i: int)
    requires
        i64::MAX < i <= u64::MAX,
    ensures
        num_to_yaml(Num::Int(i)) == num_to_json(Num::Int(i))->0,
        num_to_json(Num::Int(i)) is Some,
        num_to_yaml(Num::Int(i)) is Float,
        ({
            let significand = num_to_yaml(Num::Int(i))->Float_0 as int - 1085 * 0x10_0000_0000_0000;
            &&& 0x10_0000_0000_0000 <= significand <= 0x20_0000_0000_0000
            &&& -1024 <= significand * 2048 - i <= 1024
            &&& significand * 2048 - i == 1024 || significand * 2048 - i == -1024 ==> significand % 2
                == 0
        }),
{
    let q = rounded_quotient(i, 0x800);
    assert(0x10_0000_0000_0000 <= q <= 0x20_0000_0000_0000);
}

/// Other numbers are carried over as they are. Only infinite and undefined ones, whose exponent has
/// all its bits set, have no form in JSON.
pub proof fn other_numbers_stay(i: int, b: u64)
    ensures
        i64::MIN <= i <= i64::MAX ==> num_to_yaml(Num::Int(i)) == Num::Int(i) && num_to_json(
            Num::Int(i),
        ) == Some(Num::Int(i)),
        num_to_yaml(Num::Float(b)) == Num::Float(b),
        num_to_json(Num::Float(b)) == if (b as int / 0x10_0000_0000_0000) % 2048 == 2047 {
            None
        } else {
            Some(Num::Float(b))
        },
{
}

} // verus!
