use vstd::prelude::*;
use bigdecimal::BigDecimal;
use std::str::FromStr;
use crate::cli::{decimal, digit_char};

verus! {

/// Number of decimal places carried by an amount of the payment token.
pub const AMOUNT_DECIMALS: i64 = 18;

/// The last `width` decimal digits of `n`, with leading zeros.
pub open spec fn padded_digits(n: nat, width: nat) -> Seq<char>
    decreases width,
{
    if width == 0 {
        Seq::empty()
    } else {
        padded_digits(n / 10, (width - 1) as nat).push(digit_char((n % 10) as int))
    }
}

/// `s` without the zeros it ends with.
pub open spec fn without_trailing_zeros(s: Seq<char>) -> Seq<char>
    decreases s.len(),
{
    if s.len() > 0 && s.last() == '0' {
        without_trailing_zeros(s.drop_last())
    } else {
        s
    }
}

/// The decimal text that `bigdecimal` prints for `units` * 10^-18 once trailing zeros are
/// removed: a `-` for a negative amount, the digits of the whole part, then, where the
/// fraction is not zero, a `.` and its eighteen digits without the zeros they end with.
pub open spec fn spec_units_text(units: int) -> Seq<char> {
    let a = if units < 0 {
        -units
    } else {
        units
    };
    let unit = 1_000_000_000_000_000_000int;
    let frac = a % unit;
    (if units < 0 {
        seq!['-']
    } else {
        Seq::empty()
    }) + decimal((a / unit) as nat) + if frac == 0 {
        Seq::empty()
    } else {
        seq!['.'] + without_trailing_zeros(padded_digits(frac as nat, 18))
    }
}

/// Prints `units` * 10^-18 with `BigDecimal`'s `Display`, after
/// `BigDecimal::normalized` has removed trailing zeros from the digits (`spec_units_text`).
#[verifier::external_body]
pub(crate) fn amount_to_string(units: i128) -> (r: String)
    ensures
        r@ == spec_units_text(units as int),
{
    let digits = bigdecimal::num_bigint::BigInt::from(units);
    BigDecimal::new(digits, AMOUNT_DECIMALS).normalized().to_string()
}


/// The decimal text that `bigdecimal` prints for `units` * 10^-18 with a precision of four
/// places: a `-` for a negative amount, the digits of the whole part, a `.` and the first
/// four of the eighteen digits of the fraction, cut off rather than rounded.
pub open spec fn spec_units_text4(units: int) -> Seq<char> {
    let a = if units < 0 {
        -units
    } else {
        units
    };
    let unit = 1_000_000_000_000_000_000int;
    (if units < 0 {
        seq!['-']
    } else {
        Seq::empty()
    }) + decimal((a / unit) as nat) + seq!['.'] + padded_digits((a % unit) as nat, 18).take(4)
}

/// Prints `units` * 10^-18 with `BigDecimal`'s `Display` at a precision of four places
/// (`format!("{:.4}")`), which cuts the fraction after four digits (`spec_units_text4`).
#[verifier::external_body]
pub(crate) fn amount_to_string4(units: i128) -> (r: String)
    ensures
        r@ == spec_units_text4(units as int),
{
    let digits = bigdecimal::num_bigint::BigInt::from(units);
    format!("{:.4}", BigDecimal::new(digits, AMOUNT_DECIMALS))
}

/// The amount that a decimal text denotes, counted in units of 10^-18: `None` where the
/// text is no decimal number or the count does not fit an `i128`.
pub uninterp spec fn spec_decimal_units(s: Seq<char>) -> Option<int>;

/// A text that `BigDecimal::from_str` reads, and `with_scale` rescales, without the scale
/// overflowing or a power of ten growing out of bounds: any exponent (after an `e` or `E`)
/// has at most four characters.
pub open spec fn decimal_text_fits(s: Seq<char>) -> bool {
    forall|i: int| 0 <= i < s.len() && (s[i] == 'e' || s[i] == 'E') ==> s.len() - i <= 5
}

/// Whether `s` can be read as a decimal number (see `decimal_text_fits`).
pub fn decimal_text_fits_exec(s: &str) -> (r: bool)
    ensures
        r == decimal_text_fits(s@),
{
    let n = s.unicode_len();
    let mut i: usize = 0;
    while i < n
        invariant
            n == s@.len(),
            0 <= i <= n,
            forall|k: int| 0 <= k < i && (s@[k] == 'e' || s@[k] == 'E') ==> n - k <= 5,
        decreases n - i,
    {
        let c = s.get_char(i);
        if (c == 'e' || c == 'E') && n - i > 5 {
            return false;
        }
        i = i + 1;
    }
    true
}

/// Parses a decimal text with `bigdecimal::BigDecimal::from_str`, rescales it to 18
/// decimal places with `BigDecimal::with_scale` (which drops further digits) and converts
/// the unscaled integer with `BigInt::to_i128`.
#[verifier::external_body]
pub(crate) fn parse_amount_units(s: &str) -> (r: Option<i128>)
    requires
        decimal_text_fits(s@),
    ensures
        r matches Some(v) ==> spec_decimal_units(s@) == Some(v as int),
        r is None ==> spec_decimal_units(s@) is None,
{
    let d = BigDecimal::from_str(s).ok()?;
    let (digits, _) = d.with_scale(AMOUNT_DECIMALS).into_bigint_and_exponent();
    bigdecimal::ToPrimitive::to_i128(&digits)
}

} // verus!

verus! {

/// Text made of `prefix`, the printed `a`, `middle` and the printed `b`.
pub open spec fn two_amounts_text(
    prefix: Seq<char>,
    a: int,
    middle: Seq<char>,
    b: int,
) -> Seq<char> {
    prefix + spec_units_text(a) + middle + spec_units_text(b)
}

/// Builds `prefix`, the printed `a`, `middle` and the printed `b`.
pub fn format_two_amounts(prefix: &str, a: i128, middle: &str, b: i128) -> (r: String)
    ensures
        r@ == two_amounts_text(prefix@, a as int, middle@, b as int),
{
    let mut s = prefix.to_string();
    let ta = amount_to_string(a);
    s.append(ta.as_str());
    s.append(middle);
    let tb = amount_to_string(b);
    s.append(tb.as_str());
    s
}

} // verus!
