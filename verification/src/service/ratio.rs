//! Financial ratios (use case) — liquidity, stability and profitability, over
//! facts picked by concept id. A missing account or a zero denominator gives
//! `None` for that ratio only.

use vstd::prelude::*;
use crate::domain::concept;
use crate::domain::decimal::{Dec, dec_div, dec_mul, dec_round_dp, decimal_quotient, decimal_product,
    decimal_rounded};
use crate::domain::fact::{Fact, amount, first_amount, periods_desc, periods_newest_first};
use crate::domain::ratio::{Ratio, RatioView, Unit, ratio_view, opt_dec};

verus! {

broadcast use vstd::string::group_string_axioms;

pub open spec fn hundred() -> (int, int, bool) {
    (100, 0, false)
}

/// `num / den × 100`, rounded to 2 places; `None` when an operand is missing
/// or the denominator is zero.
pub open spec fn percent_of(num: Option<(int, int, bool)>, den: Option<(int, int, bool)>) -> Option<
    (int, int, bool),
> {
    match (num, den) {
        (Some(n), Some(d)) => if d.0 != 0 {
            Some(decimal_rounded(decimal_product(decimal_quotient(n, d)->0, hundred())->0, 2))
        } else {
            None
        },
        _ => None,
    }
}

/// The division and the scaling do not overflow where they are computed.
pub open spec fn percent_fits(num: Option<(int, int, bool)>, den: Option<(int, int, bool)>) -> bool {
    match (num, den) {
        (Some(n), Some(d)) => d.0 != 0 ==> (decimal_quotient(n, d) is Some && decimal_product(
            decimal_quotient(n, d)->0,
            hundred(),
        ) is Some),
        _ => true,
    }
}

pub open spec fn amt(facts: Seq<Fact>, c: &'static str, p: i32) -> Option<(int, int, bool)> {
    first_amount(facts, c@, p)
}

/// The seven ratios of a period as (name, formula, numerator, denominator),
/// in display order.
pub open spec fn ratio_terms(facts: Seq<Fact>, p: i32) -> Seq<
    (Seq<char>, Seq<char>, Option<(int, int, bool)>, Option<(int, int, bool)>),
> {
    let ca = amt(facts, concept::CURRENT_ASSETS, p);
    let cl = amt(facts, concept::CURRENT_LIABILITIES, p);
    let liab = amt(facts, concept::LIABILITIES, p);
    let eq = amt(facts, concept::EQUITY, p);
    let asset = amt(facts, concept::ASSETS, p);
    let rev = amt(facts, concept::REVENUE, p);
    let ni = amt(facts, concept::PROFIT_LOSS, p);
    let oi = amt(facts, concept::OPERATING_INCOME, p);
    seq![
        ("유동비율"@, "유동자산 / 유동부채"@, ca, cl),
        ("부채비율"@, "부채총계 / 자본총계"@, liab, eq),
        ("자기자본비율"@, "자본총계 / 자산총계"@, eq, asset),
        ("영업이익률"@, "영업이익 / 매출액"@, oi, rev),
        ("순이익률"@, "당기순이익 / 매출액"@, ni, rev),
        ("ROA(총자산순이익률)"@, "당기순이익 / 자산총계"@, ni, asset),
        ("ROE(자기자본순이익률)"@, "당기순이익 / 자본총계"@, ni, eq),
    ]
}

/// The ratios of one period.
pub open spec fn period_ratios(facts: Seq<Fact>, p: i32) -> Seq<RatioView> {
    ratio_terms(facts, p).map_values(
        |t: (Seq<char>, Seq<char>, Option<(int, int, bool)>, Option<(int, int, bool)>)|
            RatioView {
                name: t.0,
                formula: t.1,
                period: p,
                value: percent_of(t.2, t.3),
                unit: Unit::Percent,
            },
    )
}

pub open spec fn ratios_for(facts: Seq<Fact>, ps: Seq<i32>) -> Seq<RatioView>
    decreases ps.len(),
{
    if ps.len() == 0 {
        Seq::empty()
    } else {
        ratios_for(facts, ps.drop_last()) + period_ratios(facts, ps.last())
    }
}

/// All ratios of `facts`, newest period first.
pub open spec fn ratios_of(facts: Seq<Fact>) -> Seq<RatioView> {
    ratios_for(facts, periods_desc(facts))
}

/// No division or scaling that the ratios compute overflows.
pub open spec fn ratios_fit(facts: Seq<Fact>) -> bool {
    forall|p: i32, j: int|
        periods_desc(facts).contains(p) && 0 <= j < 7 ==> percent_fits(
            (#[trigger] ratio_terms(facts, p)[j]).2,
            ratio_terms(facts, p)[j].3,
        )
}

/// `num / den × 100`, 2 decimal places; `Ok(None)` when an operand is missing
/// or the denominator is zero, `Err(())` on overflow.
fn div(num: Option<Dec>, den: Option<Dec>) -> (r: Result<Option<Dec>, ()>)
    ensures
        match r {
            Ok(v) => percent_fits(opt_dec(num), opt_dec(den)) && opt_dec(v) == percent_of(
                opt_dec(num),
                opt_dec(den),
            ),
            Err(()) => !percent_fits(opt_dec(num), opt_dec(den)),
        },
{
    match (num, den) {
        (Some(n), Some(d)) => {
            if d.is_zero() {
                Ok(None)
            } else {
                let q = match dec_div(n, d) {
                    Some(q) => q,
                    None => return Err(()),
                };
                let scaled = match dec_mul(q, Dec::from_i64(100)) {
                    Some(s) => s,
                    None => return Err(()),
                };
                Ok(Some(dec_round_dp(scaled, 2)))
            }
        },
        _ => Ok(None),
    }
}

/// One percentage ratio.
fn pct(
    name: &'static str,
    formula: &'static str,
    period: i32,
    num: Option<Dec>,
    den: Option<Dec>,
) -> (r: Result<Ratio, ()>)
    ensures
        match r {
            Ok(x) => percent_fits(opt_dec(num), opt_dec(den)) && ratio_view(x) == (RatioView {
                name: name@,
                formula: formula@,
                period,
                value: percent_of(opt_dec(num), opt_dec(den)),
                unit: Unit::Percent,
            }),
            Err(()) => !percent_fits(opt_dec(num), opt_dec(den)),
        },
{
    let value = div(num, den)?;
    Ok(Ratio { name, formula, period, value, unit: Unit::Percent })
}

fn money_amount(facts: &[Fact], concept_id: &str, period: i32) -> (r: Option<Dec>)
    ensures
        opt_dec(r) == first_amount(facts@, concept_id@, period),
{
    match amount(facts, concept_id, period) {
        Some(m) => Some(m.0),
        None => None,
    }
}

/// Ratios of every period (liquidity, stability, profitability), newest
/// first; `None` when a division overflows.
pub fn try_compute_ratios(facts: &[Fact]) -> (r: Option<Vec<Ratio>>)
    ensures
        match r {
            Some(v) => ratios_fit(facts@) && v@.map_values(|x: Ratio| ratio_view(x)) == ratios_of(
                facts@,
            ),
            None => !ratios_fit(facts@),
        },
{
    let ps = periods_newest_first(facts);
    let mut out: Vec<Ratio> = Vec::new();
    let mut i: usize = 0;
    while i < ps.len()
        invariant
            i <= ps@.len(),
            ps@ == periods_desc(facts@),
            out@.map_values(|x: Ratio| ratio_view(x)) == ratios_for(facts@, ps@.take(i as int)),
            forall|k: int, j: int|
                0 <= k < i && 0 <= j < 7 ==> percent_fits(
                    (#[trigger] ratio_terms(facts@, ps@[k])[j]).2,
                    ratio_terms(facts@, ps@[k])[j].3,
                ),
        decreases ps@.len() - i,
    {
        let p = ps[i];
        let ca = money_amount(facts, concept::CURRENT_ASSETS, p);
        let cl = money_amount(facts, concept::CURRENT_LIABILITIES, p);
        let liab = money_amount(facts, concept::LIABILITIES, p);
        let eq = money_amount(facts, concept::EQUITY, p);
        let asset = money_amount(facts, concept::ASSETS, p);
        let rev = money_amount(facts, concept::REVENUE, p);
        let ni = money_amount(facts, concept::PROFIT_LOSS, p);
        let oi = money_amount(facts, concept::OPERATING_INCOME, p);
        let ghost terms = ratio_terms(facts@, p);
        let mut row: Vec<Ratio> = Vec::new();
        let r = pct("유동비율", "유동자산 / 유동부채", p, ca, cl);
        if r.is_err() {
            assert(!percent_fits(terms[0].2, terms[0].3));
            assert(periods_desc(facts@).contains(p));
            return None;
        }
        row.push(r.unwrap());
        let r = pct("부채비율", "부채총계 / 자본총계", p, liab, eq);
        if r.is_err() {
            assert(!percent_fits(terms[1].2, terms[1].3));
            assert(periods_desc(facts@).contains(p));
            return None;
        }
        row.push(r.unwrap());
        let r = pct("자기자본비율", "자본총계 / 자산총계", p, eq, asset);
        if r.is_err() {
            assert(!percent_fits(terms[2].2, terms[2].3));
            assert(periods_desc(facts@).contains(p));
            return None;
        }
        row.push(r.unwrap());
        let r = pct("영업이익률", "영업이익 / 매출액", p, oi, rev);
        if r.is_err() {
            assert(!percent_fits(terms[3].2, terms[3].3));
            assert(periods_desc(facts@).contains(p));
            return None;
        }
        row.push(r.unwrap());
        let r = pct("순이익률", "당기순이익 / 매출액", p, ni, rev);
        if r.is_err() {
            assert(!percent_fits(terms[4].2, terms[4].3));
            assert(periods_desc(facts@).contains(p));
            return None;
        }
        row.push(r.unwrap());
        let r = pct("ROA(총자산순이익률)", "당기순이익 / 자산총계", p, ni, asset);
        if r.is_err() {
            assert(!percent_fits(terms[5].2, terms[5].3));
            assert(periods_desc(facts@).contains(p));
            return None;
        }
        row.push(r.unwrap());
        let r = pct("ROE(자기자본순이익률)", "당기순이익 / 자본총계", p, ni, eq);
        if r.is_err() {
            assert(!percent_fits(terms[6].2, terms[6].3));
            assert(periods_desc(facts@).contains(p));
            return None;
        }
        row.push(r.unwrap());
        proof {
            assert(row@.map_values(|x: Ratio| ratio_view(x)) =~= period_ratios(facts@, p));
            assert forall|j: int| 0 <= j < 7 implies percent_fits(
                (#[trigger] ratio_terms(facts@, p)[j]).2,
                ratio_terms(facts@, p)[j].3,
            ) by {}
            assert(ps@.take(i + 1).drop_last() =~= ps@.take(i as int));
            assert(ps@.take(i + 1).last() == p);
        }
        let ghost before = out@;
        out.append(&mut row);
        proof {
            assert(out@.map_values(|x: Ratio| ratio_view(x)) =~= before.map_values(
                |x: Ratio| ratio_view(x),
            ) + period_ratios(facts@, p));
        }
        i += 1;
    }
    proof {
        assert(ps@.take(ps@.len() as int) =~= ps@);
        assert forall|p: i32, j: int|
            periods_desc(facts@).contains(p) && 0 <= j < 7 implies percent_fits(
            (#[trigger] ratio_terms(facts@, p)[j]).2,
            ratio_terms(facts@, p)[j].3,
        ) by {
            let k = choose|k: int| 0 <= k < ps@.len() && ps@[k] == p;
            assert(ratio_terms(facts@, ps@[k])[j] == ratio_terms(facts@, p)[j]);
        }
    }
    Some(out)
}

/// Ratios of every period (liquidity, stability, profitability), newest
/// first. ROE and ROA use period-end balances.
pub fn compute_ratios(facts: &[Fact]) -> (r: Vec<Ratio>)
    requires
        ratios_fit(facts@),
    ensures
        r@.map_values(|x: Ratio| ratio_view(x)) == ratios_of(facts@),
{
    match try_compute_ratios(facts) {
        Some(v) => v,
        None => Vec::new(),
    }
}

/// The ratios of the periods `ps` hold every ratio of each period in `ps`.
proof fn lemma_ratios_for_has(facts: Seq<Fact>, ps: Seq<i32>, p: i32, j: int)
    requires
        ps.contains(p),
        0 <= j < 7,
    ensures
        ratios_for(facts, ps).contains(period_ratios(facts, p)[j]),
    decreases ps.len(),
{
    let d = ps.drop_last();
    let pr = period_ratios(facts, ps.last());
    if ps.last() == p {
        assert(ratios_for(facts, ps)[ratios_for(facts, d).len() + j] == pr[j]);
    } else {
        let k = choose|k: int| 0 <= k < ps.len() && ps[k] == p;
        assert(d[k] == p);
        lemma_ratios_for_has(facts, d, p, j);
        let i = choose|i: int| 0 <= i < ratios_for(facts, d).len() && ratios_for(facts, d)[i]
            == period_ratios(facts, p)[j];
        assert(ratios_for(facts, ps)[i] == ratios_for(facts, d)[i]);
    }
}

/// A percentage ratio is the numerator over the denominator, times 100,
/// rounded to 2 places; it is absent when an operand is missing or the
/// denominator is zero.
pub proof fn law_percent_of(n: Option<(int, int, bool)>, d: Option<(int, int, bool)>)
    ensures
        n is Some && d is Some && (d->0).0 != 0 ==> percent_of(n, d) == Some(
            decimal_rounded(decimal_product(decimal_quotient(n->0, d->0)->0, (100, 0, false))->0, 2),
        ),
        !(n is Some && d is Some && (d->0).0 != 0) ==> percent_of(n, d) is None,
{
}

/// Every period's ratios are its formulas' numerator concepts over their
/// denominator concepts: current ratio (current assets / current
/// liabilities), debt ratio (liabilities / equity), equity ratio (equity /
/// assets), operating margin (operating income / revenue), net margin
/// (profit / revenue), ROA (profit / assets) and ROE (profit / equity), each
/// from the period's first amount of the concept.
pub proof fn law_ratio_definitions(facts: Seq<Fact>, p: i32)
    requires
        periods_desc(facts).contains(p),
    ensures
        ratios_of(facts).contains(
            RatioView {
                name: "유동비율"@,
                formula: "유동자산 / 유동부채"@,
                period: p,
                value: percent_of(first_amount(facts, "ifrs-full_CurrentAssets"@, p), first_amount(facts, "ifrs-full_CurrentLiabilities"@, p)),
                unit: Unit::Percent,
            },
        ),
        ratios_of(facts).contains(
            RatioView {
                name: "부채비율"@,
                formula: "부채총계 / 자본총계"@,
                period: p,
                value: percent_of(first_amount(facts, "ifrs-full_Liabilities"@, p), first_amount(facts, "ifrs-full_Equity"@, p)),
                unit: Unit::Percent,
            },
        ),
        ratios_of(facts).contains(
            RatioView {
                name: "자기자본비율"@,
                formula: "자본총계 / 자산총계"@,
                period: p,
                value: percent_of(first_amount(facts, "ifrs-full_Equity"@, p), first_amount(facts, "ifrs-full_Assets"@, p)),
                unit: Unit::Percent,
            },
        ),
        ratios_of(facts).contains(
            RatioView {
                name: "영업이익률"@,
                formula: "영업이익 / 매출액"@,
                period: p,
                value: percent_of(first_amount(facts, "dart_OperatingIncomeLoss"@, p), first_amount(facts, "ifrs-full_Revenue"@, p)),
                unit: Unit::Percent,
            },
        ),
        ratios_of(facts).contains(
            RatioView {
                name: "순이익률"@,
                formula: "당기순이익 / 매출액"@,
                period: p,
                value: percent_of(first_amount(facts, "ifrs-full_ProfitLoss"@, p), first_amount(facts, "ifrs-full_Revenue"@, p)),
                unit: Unit::Percent,
            },
        ),
        ratios_of(facts).contains(
            RatioView {
                name: "ROA(총자산순이익률)"@,
                formula: "당기순이익 / 자산총계"@,
                period: p,
                value: percent_of(first_amount(facts, "ifrs-full_ProfitLoss"@, p), first_amount(facts, "ifrs-full_Assets"@, p)),
                unit: Unit::Percent,
            },
        ),
        ratios_of(facts).contains(
            RatioView {
                name: "ROE(자기자본순이익률)"@,
                formula: "당기순이익 / 자본총계"@,
                period: p,
                value: percent_of(first_amount(facts, "ifrs-full_ProfitLoss"@, p), first_amount(facts, "ifrs-full_Equity"@, p)),
                unit: Unit::Percent,
            },
        ),
{
    let ps = periods_desc(facts);
    lemma_ratios_for_has(facts, ps, p, 0);
    lemma_ratios_for_has(facts, ps, p, 1);
    lemma_ratios_for_has(facts, ps, p, 2);
    lemma_ratios_for_has(facts, ps, p, 3);
    lemma_ratios_for_has(facts, ps, p, 4);
    lemma_ratios_for_has(facts, ps, p, 5);
    lemma_ratios_for_has(facts, ps, p, 6);
}

} // verus!
