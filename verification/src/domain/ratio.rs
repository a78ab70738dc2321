//! Financial ratios — one line: name, formula, period, value, unit. A value
//! of `None` means "cannot be computed" (an account is missing or the
//! denominator is zero).

use vstd::prelude::*;
use crate::domain::decimal::{Dec, decimal_text, normalized_dec, dec_to_string};
use crate::text::{push_str, to_string};

verus! {

broadcast use vstd::string::group_string_axioms;

/// Unit of a ratio, for display and reading.
#[derive(Debug, Clone, Copy, PartialEq, Eq, Structural)]
pub enum Unit {
    /// Percent (%).
    Percent,
    /// Times (배) — turnover, interest coverage and the like.
    Times,
}

/// One financial ratio.
#[derive(Debug, Clone)]
pub struct Ratio {
    pub name: &'static str,
    /// The formula shown on screen, e.g. "유동자산 / 유동부채".
    pub formula: &'static str,
    pub period: i32,
    /// The result; `None` when an account is missing or the denominator is 0.
    pub value: Option<Dec>,
    pub unit: Unit,
}

pub open spec fn opt_dec(o: Option<Dec>) -> Option<(int, int, bool)> {
    match o {
        Some(d) => Some(d@),
        None => None,
    }
}

/// A ratio as plain values.
pub struct RatioView {
    pub name: Seq<char>,
    pub formula: Seq<char>,
    pub period: i32,
    pub value: Option<(int, int, bool)>,
    pub unit: Unit,
}

pub open spec fn ratio_view(r: Ratio) -> RatioView {
    RatioView {
        name: r.name@,
        formula: r.formula@,
        period: r.period,
        value: opt_dec(r.value),
        unit: r.unit,
    }
}

/// Display text of a ratio value: the number without trailing zeros followed
/// by "%" or "배", or "—" when it cannot be computed.
pub open spec fn ratio_text(value: Option<(int, int, bool)>, unit: Unit) -> Seq<char> {
    match value {
        Some(v) => decimal_text(normalized_dec(v)) + match unit {
            Unit::Percent => "%"@,
            Unit::Times => "배"@,
        },
        None => "—"@,
    }
}

impl Ratio {
    /// "200%", "12.34%", "1.2배"; "—" when the value cannot be computed.
    pub fn display(&self) -> (r: String)
        ensures
            r@ == ratio_text(opt_dec(self.value), self.unit),
    {
        match self.value {
            Some(v) => {
                let mut s = dec_to_string(v.normalize());
                match self.unit {
                    Unit::Percent => push_str(&mut s, "%"),
                    Unit::Times => push_str(&mut s, "배"),
                }
                s
            },
            None => to_string("—"),
        }
    }
}

} // verus!
