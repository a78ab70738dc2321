//! Account-name alias dictionary: resolves well-known Korean account names to
//! standard concept ids. Exact matching of the normalised name only — no value
//! heuristics, and ambiguous generic words are deliberately absent.

use vstd::prelude::*;
use crate::domain::account::{normalize, normalized};
use crate::domain::concept;
use crate::text::str_eq;

verus! {

broadcast use vstd::string::group_string_axioms;

/// The standard concept id that a normalised account name stands for, if it
/// is a known alias.
pub open spec fn alias_of(n: Seq<char>) -> Option<Seq<char>> {
    if n == "자산총계"@ {
        Some(concept::ASSETS@)
    } else if n == "유동자산"@ {
        Some(concept::CURRENT_ASSETS@)
    } else if n == "비유동자산"@ {
        Some(concept::NONCURRENT_ASSETS@)
    } else if n == "부채총계"@ {
        Some(concept::LIABILITIES@)
    } else if n == "유동부채"@ {
        Some(concept::CURRENT_LIABILITIES@)
    } else if n == "비유동부채"@ {
        Some(concept::NONCURRENT_LIABILITIES@)
    } else if n == "자본총계"@ {
        Some(concept::EQUITY@)
    } else if n == "매출액"@ || n == "매출"@ || n == "영업수익"@ || n == "수익"@ {
        Some(concept::REVENUE@)
    } else if n == "당기순이익"@ || n == "당기순손익"@ || n == "분기순이익"@ || n == "반기순이익"@ {
        Some(concept::PROFIT_LOSS@)
    } else if n == "영업이익"@ || n == "영업손익"@ {
        Some(concept::OPERATING_INCOME@)
    } else {
        None
    }
}

/// Account name → standard concept id, or `None` when the name is not a known
/// alias. The raw name is normalised first (bracketed notes, numbering and
/// white space removed).
pub fn resolve(account_nm: &str) -> (r: Option<&'static str>)
    ensures
        match r {
            Some(id) => alias_of(normalized(account_nm@)) == Some(id@),
            None => alias_of(normalized(account_nm@)) is None,
        },
{
    let n = normalize(account_nm);
    let n = n.as_str();
    if str_eq(n, "자산총계") {
        Some(concept::ASSETS)
    } else if str_eq(n, "유동자산") {
        Some(concept::CURRENT_ASSETS)
    } else if str_eq(n, "비유동자산") {
        Some(concept::NONCURRENT_ASSETS)
    } else if str_eq(n, "부채총계") {
        Some(concept::LIABILITIES)
    } else if str_eq(n, "유동부채") {
        Some(concept::CURRENT_LIABILITIES)
    } else if str_eq(n, "비유동부채") {
        Some(concept::NONCURRENT_LIABILITIES)
    } else if str_eq(n, "자본총계") {
        Some(concept::EQUITY)
    } else if str_eq(n, "매출액") || str_eq(n, "매출") || str_eq(n, "영업수익") || str_eq(n, "수익") {
        Some(concept::REVENUE)
    } else if str_eq(n, "당기순이익") || str_eq(n, "당기순손익") || str_eq(n, "분기순이익") || str_eq(
        n,
        "반기순이익",
    ) {
        Some(concept::PROFIT_LOSS)
    } else if str_eq(n, "영업이익") || str_eq(n, "영업손익") {
        Some(concept::OPERATING_INCOME)
    } else {
        None
    }
}

/// Each alias names its own concept, and each concept has exactly its own
/// aliases: total assets, current and non-current assets, total, current and
/// non-current liabilities, total equity, revenue (매출액/매출/영업수익/수익),
/// net profit (당기순이익/당기순손익/분기순이익/반기순이익) and operating income
/// (영업이익/영업손익). No other name is an alias.
pub proof fn law_alias_table(n: Seq<char>)
    ensures
        (alias_of(n) == Some("ifrs-full_Assets"@)) == (n == "자산총계"@),
        (alias_of(n) == Some("ifrs-full_CurrentAssets"@)) == (n == "유동자산"@),
        (alias_of(n) == Some("ifrs-full_NoncurrentAssets"@)) == (n == "비유동자산"@),
        (alias_of(n) == Some("ifrs-full_Liabilities"@)) == (n == "부채총계"@),
        (alias_of(n) == Some("ifrs-full_CurrentLiabilities"@)) == (n == "유동부채"@),
        (alias_of(n) == Some("ifrs-full_NoncurrentLiabilities"@)) == (n == "비유동부채"@),
        (alias_of(n) == Some("ifrs-full_Equity"@)) == (n == "자본총계"@),
        (alias_of(n) == Some("ifrs-full_Revenue"@)) == (n == "매출액"@ || n == "매출"@ || n
            == "영업수익"@ || n == "수익"@),
        (alias_of(n) == Some("ifrs-full_ProfitLoss"@)) == (n == "당기순이익"@ || n == "당기순손익"@
            || n == "분기순이익"@ || n == "반기순이익"@),
        (alias_of(n) == Some("dart_OperatingIncomeLoss"@)) == (n == "영업이익"@ || n == "영업손익"@),
        (alias_of(n) is Some) == (n == "자산총계"@ || n == "유동자산"@ || n == "비유동자산"@ || n
            == "부채총계"@ || n == "유동부채"@ || n == "비유동부채"@ || n == "자본총계"@ || n
            == "매출액"@ || n == "매출"@ || n == "영업수익"@ || n == "수익"@ || n == "당기순이익"@ || n
            == "당기순손익"@ || n == "분기순이익"@ || n == "반기순이익"@ || n == "영업이익"@ || n
            == "영업손익"@),
{
    reveal_strlit("ifrs-full_Assets");
    reveal_strlit("ifrs-full_CurrentAssets");
    reveal_strlit("ifrs-full_NoncurrentAssets");
    reveal_strlit("ifrs-full_Liabilities");
    reveal_strlit("ifrs-full_CurrentLiabilities");
    reveal_strlit("ifrs-full_NoncurrentLiabilities");
    reveal_strlit("ifrs-full_Equity");
    reveal_strlit("ifrs-full_Revenue");
    reveal_strlit("ifrs-full_ProfitLoss");
    reveal_strlit("dart_OperatingIncomeLoss");
    reveal_strlit("자산총계");
    reveal_strlit("유동자산");
    reveal_strlit("비유동자산");
    reveal_strlit("부채총계");
    reveal_strlit("유동부채");
    reveal_strlit("비유동부채");
    reveal_strlit("자본총계");
    reveal_strlit("매출액");
    reveal_strlit("매출");
    reveal_strlit("영업수익");
    reveal_strlit("수익");
    reveal_strlit("당기순이익");
    reveal_strlit("당기순손익");
    reveal_strlit("분기순이익");
    reveal_strlit("반기순이익");
    reveal_strlit("영업이익");
    reveal_strlit("영업손익");
    assert("ifrs-full_Assets"@.len() == 16 && "ifrs-full_Assets"@[10] == 'A');
    assert("ifrs-full_CurrentAssets"@.len() == 23 && "ifrs-full_CurrentAssets"@[10] == 'C');
    assert("ifrs-full_NoncurrentAssets"@.len() == 26 && "ifrs-full_NoncurrentAssets"@[10] == 'N');
    assert("ifrs-full_Liabilities"@.len() == 21 && "ifrs-full_Liabilities"@[10] == 'L');
    assert("ifrs-full_CurrentLiabilities"@.len() == 28 && "ifrs-full_CurrentLiabilities"@[10] == 'C');
    assert("ifrs-full_NoncurrentLiabilities"@.len() == 31 && "ifrs-full_NoncurrentLiabilities"@[10] == 'N');
    assert("ifrs-full_Equity"@.len() == 16 && "ifrs-full_Equity"@[10] == 'E');
    assert("ifrs-full_Revenue"@.len() == 17 && "ifrs-full_Revenue"@[10] == 'R');
    assert("ifrs-full_ProfitLoss"@.len() == 20 && "ifrs-full_ProfitLoss"@[10] == 'P');
    assert("dart_OperatingIncomeLoss"@.len() == 24 && "dart_OperatingIncomeLoss"@[10] == 't');
    assert("자산총계"@.len() == 4 && "자산총계"@[0] == '자' && "자산총계"@[3] == '계' && "자산총계"@[1] == '산');
    assert("유동자산"@.len() == 4 && "유동자산"@[0] == '유' && "유동자산"@[3] == '산' && "유동자산"@[1] == '동' && "유동자산"@[2] == '자');
    assert("비유동자산"@.len() == 5 && "비유동자산"@[0] == '비' && "비유동자산"@[4] == '산' && "비유동자산"@[1] == '유' && "비유동자산"@[2] == '동');
    assert("부채총계"@.len() == 4 && "부채총계"@[0] == '부' && "부채총계"@[3] == '계' && "부채총계"@[1] == '채');
    assert("유동부채"@.len() == 4 && "유동부채"@[0] == '유' && "유동부채"@[3] == '채' && "유동부채"@[1] == '동' && "유동부채"@[2] == '부');
    assert("비유동부채"@.len() == 5 && "비유동부채"@[0] == '비' && "비유동부채"@[4] == '채' && "비유동부채"@[1] == '유' && "비유동부채"@[2] == '동');
    assert("자본총계"@.len() == 4 && "자본총계"@[0] == '자' && "자본총계"@[3] == '계' && "자본총계"@[1] == '본');
    assert("매출액"@.len() == 3 && "매출액"@[0] == '매' && "매출액"@[2] == '액' && "매출액"@[1] == '출');
    assert("매출"@.len() == 2 && "매출"@[0] == '매' && "매출"@[1] == '출' && "매출"@[1] == '출');
    assert("영업수익"@.len() == 4 && "영업수익"@[0] == '영' && "영업수익"@[3] == '익' && "영업수익"@[1] == '업' && "영업수익"@[2] == '수');
    assert("수익"@.len() == 2 && "수익"@[0] == '수' && "수익"@[1] == '익' && "수익"@[1] == '익');
    assert("당기순이익"@.len() == 5 && "당기순이익"@[0] == '당' && "당기순이익"@[4] == '익' && "당기순이익"@[1] == '기' && "당기순이익"@[2] == '순');
    assert("당기순손익"@.len() == 5 && "당기순손익"@[0] == '당' && "당기순손익"@[4] == '익' && "당기순손익"@[1] == '기' && "당기순손익"@[2] == '순');
    assert("분기순이익"@.len() == 5 && "분기순이익"@[0] == '분' && "분기순이익"@[4] == '익' && "분기순이익"@[1] == '기' && "분기순이익"@[2] == '순');
    assert("반기순이익"@.len() == 5 && "반기순이익"@[0] == '반' && "반기순이익"@[4] == '익' && "반기순이익"@[1] == '기' && "반기순이익"@[2] == '순');
    assert("영업이익"@.len() == 4 && "영업이익"@[0] == '영' && "영업이익"@[3] == '익' && "영업이익"@[1] == '업' && "영업이익"@[2] == '이');
    assert("영업손익"@.len() == 4 && "영업손익"@[0] == '영' && "영업손익"@[3] == '익' && "영업손익"@[1] == '업' && "영업손익"@[2] == '손');
}

} // verus!
