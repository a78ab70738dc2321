//! Financial-statement kinds — OpenDART `sj_div` codes as a typed enum.

use vstd::prelude::*;
use crate::text::str_eq;

verus! {

broadcast use vstd::string::group_string_axioms;

/// The five statements that `fnlttSinglAcntAll` reports (`sj_div`).
#[derive(Debug, Clone, Copy, PartialEq, Eq, Hash, Structural)]
pub enum Statement {
    /// Statement of financial position (BS).
    Bs,
    /// Income statement (IS).
    Is,
    /// Statement of comprehensive income (CIS).
    Cis,
    /// Cash-flow statement (CF).
    Cf,
    /// Statement of changes in equity (SCE).
    Sce,
}

/// The statement an `sj_div` code names.
pub open spec fn sj_div_of(code: Seq<char>) -> Option<Statement> {
    if code == "BS"@ {
        Some(Statement::Bs)
    } else if code == "IS"@ {
        Some(Statement::Is)
    } else if code == "CIS"@ {
        Some(Statement::Cis)
    } else if code == "CF"@ {
        Some(Statement::Cf)
    } else if code == "SCE"@ {
        Some(Statement::Sce)
    } else {
        None
    }
}

impl Statement {
    /// Fixed display and sorting order.
    pub const ALL: [Statement; 5] = [
        Statement::Bs,
        Statement::Is,
        Statement::Cis,
        Statement::Cf,
        Statement::Sce,
    ];

    /// Korean name of the statement.
    pub open spec fn name_spec(self) -> Seq<char> {
        match self {
            Statement::Bs => "재무상태표"@,
            Statement::Is => "손익계산서"@,
            Statement::Cis => "포괄손익계산서"@,
            Statement::Cf => "현금흐름표"@,
            Statement::Sce => "자본변동표"@,
        }
    }

    /// Display and grouping rank: BS → IS → CIS → CF → SCE.
    pub open spec fn rank(self) -> u8 {
        match self {
            Statement::Bs => 0,
            Statement::Is => 1,
            Statement::Cis => 2,
            Statement::Cf => 3,
            Statement::Sce => 4,
        }
    }

    /// `sj_div` code → statement; unknown codes give `None`.
    pub fn from_sj_div(code: &str) -> (r: Option<Statement>)
        ensures
            r == sj_div_of(code@),
    {
        if str_eq(code, "BS") {
            Some(Statement::Bs)
        } else if str_eq(code, "IS") {
            Some(Statement::Is)
        } else if str_eq(code, "CIS") {
            Some(Statement::Cis)
        } else if str_eq(code, "CF") {
            Some(Statement::Cf)
        } else if str_eq(code, "SCE") {
            Some(Statement::Sce)
        } else {
            None
        }
    }

    /// Korean statement name (screen and spreadsheet display).
    pub fn name(&self) -> (r: &'static str)
        ensures
            r@ == self.name_spec(),
    {
        match self {
            Statement::Bs => "재무상태표",
            Statement::Is => "손익계산서",
            Statement::Cis => "포괄손익계산서",
            Statement::Cf => "현금흐름표",
            Statement::Sce => "자본변동표",
        }
    }

    /// Display and grouping order: BS → IS → CIS → CF → SCE.
    pub fn order(&self) -> (r: u8)
        ensures
            r == self.rank(),
    {
        match self {
            Statement::Bs => 0,
            Statement::Is => 1,
            Statement::Cis => 2,
            Statement::Cf => 3,
            Statement::Sce => 4,
        }
    }

    /// Flow statements (IS, CIS, CF) report period totals; BS is a point-in-time
    /// balance and SCE is special.
    pub fn is_flow(&self) -> (r: bool)
        ensures
            r == (*self == Statement::Is || *self == Statement::Cis || *self == Statement::Cf),
    {
        match self {
            Statement::Is | Statement::Cis | Statement::Cf => true,
            _ => false,
        }
    }
}

/// Different statements have different ranks, so ordering by rank groups them.
pub proof fn rank_is_injective(a: Statement, b: Statement)
    ensures
        a.rank() == b.rank() <==> a == b,
{
}

/// Different statements have different Korean names, so a row labelled by
/// its statement's name tells the statement.
pub proof fn names_are_distinct(a: Statement, b: Statement)
    ensures
        a.name_spec() == b.name_spec() <==> a == b,
{
    reveal_strlit("재무상태표");
    reveal_strlit("손익계산서");
    reveal_strlit("포괄손익계산서");
    reveal_strlit("현금흐름표");
    reveal_strlit("자본변동표");
    if a != b {
        assert(a.name_spec()[0] != b.name_spec()[0]);
    }
}

} // verus!
