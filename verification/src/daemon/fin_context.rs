//! The company and period under analysis: what the screen shows is what
//! the daemon's tools check. The daemon never passes a company code to a
//! check (a wrong guess would silently check another company); the tools
//! read this context instead.

use vstd::prelude::*;

verus! {

/// The analysis target. Basis and report kind stay as given; they are
/// normalised when statements are fetched.
pub struct FinQuery {
    pub corp_code: String,
    pub start: i32,
    pub end: i32,
    pub basis: Option<String>,
    pub reprt: Option<String>,
}

/// The current analysis target, if any.
pub struct FinContext {
    current: Option<FinQuery>,
}

impl FinContext {
    /// The target, if one is set.
    pub closed spec fn target(&self) -> Option<FinQuery> {
        self.current
    }

    /// No target.
    pub fn new() -> (r: FinContext)
        ensures
            r.target() is None,
    {
        FinContext { current: None }
    }

    /// The current target.
    pub fn get(&self) -> (r: Option<&FinQuery>)
        ensures
            match r {
                Some(q) => self.target() == Some(*q),
                None => self.target() is None,
            },
    {
        match &self.current {
            Some(q) => Some(q),
            None => None,
        }
    }

    /// Sets the target (after statements were loaded on screen).
    pub fn set(&mut self, corp_code: String, start: i32, end: i32, basis: Option<String>, reprt: Option<String>)
        ensures
            final(self).target() == Some(
                (FinQuery { corp_code, start, end, basis, reprt }),
            ),
    {
        self.current = Some(FinQuery { corp_code, start, end, basis, reprt });
    }

    /// Clears the target (conversation reset, screen cleared).
    pub fn clear(&mut self)
        ensures
            final(self).target() is None,
    {
        self.current = None;
    }
}

} // verus!
