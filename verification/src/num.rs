use vstd::prelude::*;
use vstd::string::StringExecFns;
use rustc_apfloat::Float;
use rustc_apfloat::ieee::Double;

verus! {

/// The bit pattern of the IEEE-754 binary64 sum of two numbers given by
/// their bit patterns, rounded to nearest, ties to even.
pub uninterp spec fn add_bits(a: u64, b: u64) -> u64;

/// The bit pattern of the IEEE-754 binary64 difference `a - b`.
pub uninterp spec fn sub_bits(a: u64, b: u64) -> u64;

/// The bit pattern of the IEEE-754 binary64 product.
pub uninterp spec fn mul_bits(a: u64, b: u64) -> u64;

/// The bit pattern of the IEEE-754 binary64 quotient `a / b`.
pub uninterp spec fn div_bits(a: u64, b: u64) -> u64;

/// The bit pattern of the IEEE-754 negation (the sign flipped).
pub uninterp spec fn neg_bits(a: u64) -> u64;

/// Whether the bit pattern is one of the IEEE-754 binary64 `NaN`s: an
/// all-ones exponent with a non-zero significand.
pub open spec fn is_nan_bits(a: u64) -> bool {
    (a & 0x7fff_ffff_ffff_ffff) > 0x7ff0_0000_0000_0000
}

/// Whether the bit pattern is one of the two IEEE-754 binary64 zeros.
pub open spec fn is_zero_bits(a: u64) -> bool {
    (a & 0x7fff_ffff_ffff_ffff) == 0
}

/// IEEE-754 equality of the two numbers: `NaN` is equal to nothing, the
/// two zeros are equal to each other, and every other value has exactly
/// one bit pattern, so the patterns themselves decide.
pub open spec fn eq_bits(a: u64, b: u64) -> bool {
    if is_nan_bits(a) || is_nan_bits(b) {
        false
    } else if is_zero_bits(a) && is_zero_bits(b) {
        true
    } else {
        a == b
    }
}

/// IEEE-754 `a < b`.
pub uninterp spec fn lt_bits(a: u64, b: u64) -> bool;

/// IEEE-754 `a > b`.
pub uninterp spec fn gt_bits(a: u64, b: u64) -> bool;

/// The binary64 bit pattern a numeric literal denotes, rounded to nearest,
/// ties to even; `None` when the text is not a number.
pub uninterp spec fn number_bits(s: Seq<char>) -> Option<u64>;

/// The decimal rendering of the number with the given bit pattern.
pub uninterp spec fn rendered_bits(a: u64) -> Seq<char>;

/// Relies on rustc_apfloat: the `Add` impl of `ieee::Double` computes the
/// IEEE-754 binary64 sum, rounded to nearest, ties to even; the result
/// depends on the two bit patterns alone.
#[verifier::external_body]
pub fn num_add(a: u64, b: u64) -> (r: u64)
    ensures
        r == add_bits(a, b),
{
    let x = Double::from_bits(a as u128);
    let y = Double::from_bits(b as u128);
    (x + y).value.to_bits() as u64
}

/// Relies on rustc_apfloat: the `Sub` impl of `ieee::Double` computes the
/// IEEE-754 binary64 difference.
#[verifier::external_body]
pub fn num_sub(a: u64, b: u64) -> (r: u64)
    ensures
        r == sub_bits(a, b),
{
    let x = Double::from_bits(a as u128);
    let y = Double::from_bits(b as u128);
    (x - y).value.to_bits() as u64
}

/// Relies on rustc_apfloat: the `Mul` impl of `ieee::Double` computes the
/// IEEE-754 binary64 product.
#[verifier::external_body]
pub fn num_mul(a: u64, b: u64) -> (r: u64)
    ensures
        r == mul_bits(a, b),
{
    let x = Double::from_bits(a as u128);
    let y = Double::from_bits(b as u128);
    (x * y).value.to_bits() as u64
}

/// Relies on rustc_apfloat: the `Div` impl of `ieee::Double` computes the
/// IEEE-754 binary64 quotient.
#[verifier::external_body]
pub fn num_div(a: u64, b: u64) -> (r: u64)
    ensures
        r == div_bits(a, b),
{
    let x = Double::from_bits(a as u128);
    let y = Double::from_bits(b as u128);
    (x / y).value.to_bits() as u64
}

/// Relies on rustc_apfloat: the `Neg` impl of `ieee::Double` flips the sign
/// and leaves everything else unchanged, so negating the result gives back
/// the original bit pattern.
#[verifier::external_body]
pub fn num_neg(a: u64) -> (r: u64)
    ensures
        r == neg_bits(a),
        neg_bits(r) == a,
{
    (-Double::from_bits(a as u128)).to_bits() as u64
}

/// Relies on rustc_apfloat: the `PartialEq` impl of `ieee::Double` decides
/// `partial_cmp == Some(Equal)`, which is IEEE-754 equality.
#[verifier::external_body]
pub fn num_eq(a: u64, b: u64) -> (r: bool)
    ensures
        r == eq_bits(a, b),
{
    let x = Double::from_bits(a as u128);
    let y = Double::from_bits(b as u128);
    x == y
}

/// Relies on rustc_apfloat: the `PartialOrd` impl of `ieee::Double` orders
/// by IEEE-754 comparison. `NaN` compares less than nothing, `a < b` is
/// the mirror of `b > a`, and a strictly smaller number is not equal.
#[verifier::external_body]
pub fn num_lt(a: u64, b: u64) -> (r: bool)
    ensures
        r == lt_bits(a, b),
        r == gt_bits(b, a),
        (is_nan_bits(a) || is_nan_bits(b)) ==> !r,
        r ==> !eq_bits(a, b),
{
    let x = Double::from_bits(a as u128);
    let y = Double::from_bits(b as u128);
    x < y
}

/// Relies on rustc_apfloat: the `PartialOrd` impl of `ieee::Double` orders
/// by IEEE-754 comparison. `NaN` compares greater than nothing, `a > b`
/// is the mirror of `b < a`, and a strictly greater number is not equal.
#[verifier::external_body]
pub fn num_gt(a: u64, b: u64) -> (r: bool)
    ensures
        r == gt_bits(a, b),
        r == lt_bits(b, a),
        (is_nan_bits(a) || is_nan_bits(b)) ==> !r,
        r ==> !eq_bits(a, b),
{
    let x = Double::from_bits(a as u128);
    let y = Double::from_bits(b as u128);
    x > y
}

/// Relies on rustc_apfloat: the `FromStr` impl of `ieee::Double` reads a
/// decimal number, correctly rounded to nearest, ties to even, and fails
/// only on text that is not a number; a non-empty run of digits, optionally
/// followed by `.` and a non-empty run of digits, always parses.
#[verifier::external_body]
pub fn parse_number(s: &str) -> (r: Option<u64>)
    ensures
        r == number_bits(s@),
        crate::scanner::is_number_lexeme(s@) ==> r is Some,
{
    match s.parse::<Double>() {
        Ok(d) => Some(d.to_bits() as u64),
        Err(_) => None,
    }
}

/// Relies on rustc_apfloat: the `Display` impl of `ieee::Double` renders
/// a round-trippable decimal form of the number; the text depends on the
/// bit pattern alone. An integer prints without a decimal point only up
/// to three trailing zeros (`10000` already prints as `1.0E+4`), and
/// other extreme magnitudes print in scientific notation too.
#[verifier::external_body]
pub fn render_number(a: u64) -> (r: String)
    ensures
        r@ == rendered_bits(a),
{
    format!("{}", Double::from_bits(a as u128))
}

/// The decimal digits of `n`, most significant first.
pub open spec fn spec_decimal(n: nat) -> Seq<char>
    decreases n,
{
    if n < 10 {
        seq![spec_digit_char(n)]
    } else {
        spec_decimal(n / 10).push(spec_digit_char(n % 10))
    }
}

pub open spec fn spec_digit_char(d: nat) -> char {
    if d == 0 {
        '0'
    } else if d == 1 {
        '1'
    } else if d == 2 {
        '2'
    } else if d == 3 {
        '3'
    } else if d == 4 {
        '4'
    } else if d == 5 {
        '5'
    } else if d == 6 {
        '6'
    } else if d == 7 {
        '7'
    } else if d == 8 {
        '8'
    } else {
        '9'
    }
}

/// Renders a machine integer in decimal, for line numbers in diagnostics.
pub fn decimal_string(n: usize) -> (s: String)
    ensures
        s@ =~= spec_decimal(n as nat),
    decreases n,
{
    proof {
        reveal_strlit("0");
        reveal_strlit("1");
        reveal_strlit("2");
        reveal_strlit("3");
        reveal_strlit("4");
        reveal_strlit("5");
        reveal_strlit("6");
        reveal_strlit("7");
        reveal_strlit("8");
        reveal_strlit("9");
    }
    let d = n % 10;
    let digit: &str = if d == 0 {
        "0"
    } else if d == 1 {
        "1"
    } else if d == 2 {
        "2"
    } else if d == 3 {
        "3"
    } else if d == 4 {
        "4"
    } else if d == 5 {
        "5"
    } else if d == 6 {
        "6"
    } else if d == 7 {
        "7"
    } else if d == 8 {
        "8"
    } else {
        "9"
    };
    assert(digit@ =~= seq![spec_digit_char(d as nat)]);
    if n < 10 {
        let mut s = String::new();
        s.append(digit);
        s
    } else {
        let mut s = decimal_string(n / 10);
        s.append(digit);
        s
    }
}

} // verus!
