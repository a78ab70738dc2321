//! Footing checks — one line: item, period, reported total, sum of parts,
//! and whether they agree. Tolerance is zero (exact).

use vstd::prelude::*;
use crate::domain::decimal::{decimal_difference, decimal_text};
use crate::domain::money::{Money, with_commas};
use crate::text::to_string;

verus! {

broadcast use vstd::string::group_string_axioms;

/// One footing check: `computed` (the reported total) against `expected`
/// (the sum of its parts).
#[derive(Debug, Clone)]
pub struct FootingCheck {
    pub name: &'static str,
    pub period: i32,
    pub computed: Money,
    pub expected: Money,
    pub ok: bool,
}

/// A footing check as plain values.
pub struct CheckView {
    pub name: Seq<char>,
    pub period: i32,
    pub computed: (int, int, bool),
    pub expected: (int, int, bool),
    pub ok: bool,
}

pub open spec fn check_view(c: FootingCheck) -> CheckView {
    CheckView {
        name: c.name@,
        period: c.period,
        computed: c.computed.0@,
        expected: c.expected.0@,
        ok: c.ok,
    }
}

/// The text `display` shows: "OK" when the check holds, else the difference
/// `computed − expected` with thousands separators.
pub open spec fn check_text(c: FootingCheck) -> Seq<char> {
    if c.ok {
        "OK"@
    } else {
        with_commas(decimal_text(decimal_difference(c.computed.0@, c.expected.0@)->0))
    }
}

impl FootingCheck {
    /// Difference `computed − expected`; zero when they agree.
    pub fn diff(&self) -> (r: Money)
        requires
            decimal_difference(self.computed.0@, self.expected.0@) is Some,
        ensures
            r.0@ == decimal_difference(self.computed.0@, self.expected.0@)->0,
    {
        match self.computed.checked_sub(self.expected) {
            Some(d) => d,
            None => self.computed,
        }
    }

    /// Difference `computed − expected`, or `None` when it overflows.
    pub fn checked_diff(&self) -> (r: Option<Money>)
        ensures
            match r {
                Some(d) => decimal_difference(self.computed.0@, self.expected.0@) == Some(d.0@),
                None => decimal_difference(self.computed.0@, self.expected.0@) is None,
            },
    {
        self.computed.checked_sub(self.expected)
    }

    /// "OK" when the check holds, else the difference as a thousands-grouped
    /// amount.
    pub fn display(&self) -> (r: String)
        requires
            !self.ok ==> decimal_difference(self.computed.0@, self.expected.0@) is Some,
        ensures
            r@ == check_text(*self),
    {
        if self.ok {
            to_string("OK")
        } else {
            self.diff().fmt_comma()
        }
    }

    /// [`display`](Self::display), or `None` when the check fails and its
    /// difference overflows.
    pub fn try_display(&self) -> (r: Option<String>)
        ensures
            match r {
                Some(s) => s@ == check_text(*self),
                None => !self.ok && decimal_difference(self.computed.0@, self.expected.0@) is None,
            },
    {
        if !self.ok && self.checked_diff().is_none() {
            None
        } else {
            Some(self.display())
        }
    }
}

} // verus!
