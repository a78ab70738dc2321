//! Exact decimal numbers, as `rust_decimal::Decimal` represents them: a signed
//! 96-bit integer mantissa and a scale of 0..=28 decimal places, with a sign
//! bit that zero may carry too (`-0`). Arithmetic is done by `rust_decimal`.

use vstd::prelude::*;
use rust_decimal::Decimal;
use std::str::FromStr;

verus! {

/// Largest mantissa magnitude: 2^96 - 1.
pub const MAX_MANTISSA: i128 = 79228162514264337593543950335i128;

/// Largest scale.
pub const MAX_SCALE: u32 = 28u32;

/// A decimal value `mantissa / 10^scale`.
#[derive(Debug, Clone, Copy)]
pub struct Dec {
    m: i128,
    scale: u32,
    neg: bool,
}

/// 10 to the power `n`.
pub open spec fn pow10(n: nat) -> int
    decreases n,
{
    if n == 0 {
        1
    } else {
        10 * pow10((n - 1) as nat)
    }
}

/// Two decimals (mantissa, scale, sign) denote the same number.
pub open spec fn same_value(a: (int, int, bool), b: (int, int, bool)) -> bool {
    a.0 * pow10(b.1 as nat) == b.0 * pow10(a.1 as nat)
}

/// What `Decimal::from_str` gives for a text, as (mantissa, scale, sign).
pub uninterp spec fn decimal_parse(s: Seq<char>) -> Option<(int, int, bool)>;

/// What `Decimal::checked_add` gives.
pub uninterp spec fn decimal_sum(a: (int, int, bool), b: (int, int, bool)) -> Option<(int, int, bool)>;

/// What `Decimal::checked_sub` gives.
pub uninterp spec fn decimal_difference(a: (int, int, bool), b: (int, int, bool)) -> Option<
    (int, int, bool),
>;

/// What `Decimal::checked_mul` gives.
pub uninterp spec fn decimal_product(a: (int, int, bool), b: (int, int, bool)) -> Option<
    (int, int, bool),
>;

/// What `Decimal::checked_div` gives.
pub uninterp spec fn decimal_quotient(a: (int, int, bool), b: (int, int, bool)) -> Option<
    (int, int, bool),
>;

/// What `Decimal::round_dp` gives (banker's rounding to `dp` places).
pub uninterp spec fn decimal_rounded(a: (int, int, bool), dp: int) -> (int, int, bool);

/// What `Decimal::to_string` gives.
pub uninterp spec fn decimal_text(a: (int, int, bool)) -> Seq<char>;

/// Trailing zeros stripped from a magnitude, one decimal place at a time.
pub open spec fn strip_zeros(mag: nat, scale: nat) -> (nat, nat)
    decreases scale,
{
    if scale > 0 && mag % 10 == 0 {
        strip_zeros(mag / 10, (scale - 1) as nat)
    } else {
        (mag, scale)
    }
}

proof fn lemma_strip_nonzero(mag: nat, scale: nat)
    requires
        mag > 0,
    ensures
        strip_zeros(mag, scale).0 > 0,
    decreases scale,
{
    if scale > 0 && mag % 10 == 0 {
        lemma_strip_nonzero(mag / 10, (scale - 1) as nat);
    }
}

/// The value `Decimal::normalize` gives: trailing zeros stripped, and `-0`
/// made `0`.
pub open spec fn normalized_dec(a: (int, int, bool)) -> (int, int, bool) {
    let mag: nat = if a.0 < 0 {
        (-a.0) as nat
    } else {
        a.0 as nat
    };
    let st = strip_zeros(mag, a.1 as nat);
    let m: int = if a.0 < 0 {
        -(st.0 as int)
    } else {
        st.0 as int
    };
    (m, st.1 as int, a.0 < 0)
}

impl View for Dec {
    type V = (int, int, bool);

    closed spec fn view(&self) -> (int, int, bool) {
        (self.m as int, self.scale as int, self.neg)
    }
}

/// A representable decimal: mantissa within 96 bits, scale at most 28, and
/// the sign bit agreeing with a nonzero mantissa.
pub open spec fn representable(v: (int, int, bool)) -> bool {
    &&& -MAX_MANTISSA <= v.0 <= MAX_MANTISSA
    &&& 0 <= v.1 <= MAX_SCALE
    &&& (v.0 < 0 ==> v.2)
    &&& (v.0 > 0 ==> !v.2)
}

impl Dec {
    #[verifier::type_invariant]
    spec fn inv(self) -> bool {
        representable((self.m as int, self.scale as int, self.neg))
    }

    /// `mantissa / 10^scale`, or `None` when the scale exceeds 28 or the
    /// mantissa exceeds 96 bits (`Decimal::try_from_i128_with_scale`).
    pub fn new(mantissa: i128, scale: u32) -> (r: Option<Dec>)
        ensures
            match r {
                Some(d) => d@ == (mantissa as int, scale as int, mantissa < 0),
                None => !(-MAX_MANTISSA <= mantissa <= MAX_MANTISSA && scale <= MAX_SCALE),
            },
    {
        if -MAX_MANTISSA <= mantissa && mantissa <= MAX_MANTISSA && scale <= MAX_SCALE {
            Some(Dec { m: mantissa, scale, neg: mantissa < 0 })
        } else {
            None
        }
    }

    /// The integer `n` (scale 0).
    pub fn from_i64(n: i64) -> (r: Dec)
        ensures
            r@ == (n as int, 0int, n < 0),
    {
        Dec { m: n as i128, scale: 0, neg: n < 0 }
    }

    /// Zero.
    pub fn zero() -> (r: Dec)
        ensures
            r@ == (0int, 0int, false),
    {
        Dec { m: 0, scale: 0, neg: false }
    }

    pub fn mantissa(&self) -> (r: i128)
        ensures
            r == self@.0,
    {
        self.m
    }

    pub fn scale(&self) -> (r: u32)
        ensures
            r == self@.1,
    {
        self.scale
    }

    pub fn is_sign_negative(&self) -> (r: bool)
        ensures
            r == self@.2,
    {
        self.neg
    }

    pub fn is_zero(&self) -> (r: bool)
        ensures
            r == (self@.0 == 0),
    {
        self.m == 0
    }

    /// Trailing zeros stripped and `-0` made `0` (`Decimal::normalize`).
    pub fn normalize(&self) -> (r: Dec)
        ensures
            r@ == normalized_dec(self@),
    {
        proof {
            use_type_invariant(self);
        }
        let negative = self.m < 0;
        let mut mag: u128 = if negative {
            (-self.m) as u128
        } else {
            self.m as u128
        };
        let mut scale = self.scale;
        let ghost mag0: nat = if self.m < 0 {
            (-self.m) as nat
        } else {
            self.m as nat
        };
        while scale > 0 && mag % 10 == 0
            invariant
                mag <= MAX_MANTISSA,
                scale <= MAX_SCALE,
                strip_zeros(mag0, self.scale as nat) == strip_zeros(mag as nat, scale as nat),
            decreases scale,
        {
            mag = mag / 10;
            scale = scale - 1;
        }
        assert(strip_zeros(mag as nat, scale as nat) == (mag as nat, scale as nat));
        let m: i128 = if negative {
            -(mag as i128)
        } else {
            mag as i128
        };
        proof {
            if negative {
                lemma_strip_nonzero(mag0, self.scale as nat);
            }
        }
        Dec { m, scale, neg: negative }
    }
}

/// `Decimal::from_str`, through the (mantissa, scale, sign) view.
#[verifier::external_body]
pub(crate) fn dec_parse(s: &str) -> (r: Option<Dec>)
    ensures
        match r {
            Some(d) => decimal_parse(s@) == Some(d@),
            None => decimal_parse(s@) is None,
        },
{
    match Decimal::from_str(s) {
        Ok(d) => Some(Dec { m: d.mantissa(), scale: d.scale(), neg: d.is_sign_negative() }),
        Err(_) => None,
    }
}

/// `Decimal::checked_add`.
#[verifier::external_body]
pub(crate) fn dec_add(a: Dec, b: Dec) -> (r: Option<Dec>)
    ensures
        match r {
            Some(d) => decimal_sum(a@, b@) == Some(d@),
            None => decimal_sum(a@, b@) is None,
        },
{
    let mut x = Decimal::from_i128_with_scale(a.m, a.scale);
    x.set_sign_negative(a.neg);
    let mut y = Decimal::from_i128_with_scale(b.m, b.scale);
    y.set_sign_negative(b.neg);
    x.checked_add(y).map(|d| Dec { m: d.mantissa(), scale: d.scale(), neg: d.is_sign_negative() })
}

/// `Decimal::checked_sub`.
#[verifier::external_body]
pub(crate) fn dec_sub(a: Dec, b: Dec) -> (r: Option<Dec>)
    ensures
        match r {
            Some(d) => decimal_difference(a@, b@) == Some(d@),
            None => decimal_difference(a@, b@) is None,
        },
{
    let mut x = Decimal::from_i128_with_scale(a.m, a.scale);
    x.set_sign_negative(a.neg);
    let mut y = Decimal::from_i128_with_scale(b.m, b.scale);
    y.set_sign_negative(b.neg);
    x.checked_sub(y).map(|d| Dec { m: d.mantissa(), scale: d.scale(), neg: d.is_sign_negative() })
}

/// `Decimal::checked_mul`.
#[verifier::external_body]
pub(crate) fn dec_mul(a: Dec, b: Dec) -> (r: Option<Dec>)
    ensures
        match r {
            Some(d) => decimal_product(a@, b@) == Some(d@),
            None => decimal_product(a@, b@) is None,
        },
{
    let mut x = Decimal::from_i128_with_scale(a.m, a.scale);
    x.set_sign_negative(a.neg);
    let mut y = Decimal::from_i128_with_scale(b.m, b.scale);
    y.set_sign_negative(b.neg);
    x.checked_mul(y).map(|d| Dec { m: d.mantissa(), scale: d.scale(), neg: d.is_sign_negative() })
}

/// `Decimal::checked_div`; its documentation promises `None` for a zero divisor.
#[verifier::external_body]
pub(crate) fn dec_div(a: Dec, b: Dec) -> (r: Option<Dec>)
    ensures
        match r {
            Some(d) => decimal_quotient(a@, b@) == Some(d@),
            None => decimal_quotient(a@, b@) is None,
        },
        b@.0 == 0 ==> r is None,
{
    let mut x = Decimal::from_i128_with_scale(a.m, a.scale);
    x.set_sign_negative(a.neg);
    let mut y = Decimal::from_i128_with_scale(b.m, b.scale);
    y.set_sign_negative(b.neg);
    x.checked_div(y).map(|d| Dec { m: d.mantissa(), scale: d.scale(), neg: d.is_sign_negative() })
}

/// `Decimal::round_dp` (midpoint to even).
#[verifier::external_body]
pub(crate) fn dec_round_dp(a: Dec, dp: u32) -> (r: Dec)
    ensures
        r@ == decimal_rounded(a@, dp as int),
{
    let mut x = Decimal::from_i128_with_scale(a.m, a.scale);
    x.set_sign_negative(a.neg);
    let d = x.round_dp(dp);
    Dec { m: d.mantissa(), scale: d.scale(), neg: d.is_sign_negative() }
}

/// `Decimal` equality, which compares the numbers denoted (`1.0 == 1.00`).
#[verifier::external_body]
pub(crate) fn dec_eq(a: Dec, b: Dec) -> (r: bool)
    ensures
        r == same_value(a@, b@),
{
    let mut x = Decimal::from_i128_with_scale(a.m, a.scale);
    x.set_sign_negative(a.neg);
    let mut y = Decimal::from_i128_with_scale(b.m, b.scale);
    y.set_sign_negative(b.neg);
    x == y
}

/// A character `0`..`9`.
pub open spec fn is_digit_char(c: char) -> bool {
    '0' <= c && c <= '9'
}

/// `Decimal::to_string`. Its text is a `-` for a set sign bit, the digits
/// of the mantissa with a `.` before the last `scale` of them (padded with
/// zeros, `0` before a leading `.`), so it holds only digits, `-` and `.`
/// and ends with a digit; and `Decimal::from_str` reads it back to the same
/// mantissa and scale, with the sign bit set only for a nonzero mantissa
/// (`from_parts` clears it for zero).
#[verifier::external_body]
pub(crate) fn dec_to_string(a: Dec) -> (r: String)
    ensures
        r@ == decimal_text(a@),
        r@.len() > 0,
        is_digit_char(r@.last()),
        forall|j: int|
            0 <= j < r@.len() ==> is_digit_char(#[trigger] r@[j]) || r@[j] == '-' || r@[j] == '.',
        decimal_parse(r@) == Some((a@.0, a@.1, a@.0 < 0)),
{
    let mut x = Decimal::from_i128_with_scale(a.m, a.scale);
    x.set_sign_negative(a.neg);
    x.to_string()
}

impl PartialEq for Dec {
    fn eq(&self, other: &Dec) -> (r: bool) {
        dec_eq(*self, *other)
    }
}

impl vstd::std_specs::cmp::PartialEqSpecImpl for Dec {
    open spec fn obeys_eq_spec() -> bool {
        true
    }

    open spec fn eq_spec(&self, other: &Dec) -> bool {
        same_value(self@, other@)
    }
}

} // verus!
