//! Footing (use case) — the standard accounting identities checked exactly
//! over facts, by concept id: the accounting equation (assets = liabilities +
//! equity) and subtotal consistency (current + non-current = total).

use vstd::prelude::*;
use crate::domain::concept;
use crate::domain::decimal::{decimal_sum, same_value};
use crate::domain::fact::{Fact, amount, first_amount, periods_desc, periods_newest_first};
use crate::domain::footing::{FootingCheck, CheckView, check_view};
use crate::domain::money::Money;

verus! {

broadcast use vstd::string::group_string_axioms;

/// Left-to-right sum of the parts, starting from zero, as `+` computes it:
/// it stops at the first missing part, or at the first sum that overflows.
pub enum PartsSum {
    Missing,
    Overflow,
    Total((int, int, bool)),
}

pub open spec fn sum_parts(parts: Seq<Option<(int, int, bool)>>) -> PartsSum
    decreases parts.len(),
{
    if parts.len() == 0 {
        PartsSum::Total((0, 0, false))
    } else {
        match sum_parts(parts.drop_last()) {
            PartsSum::Total(a) => match parts.last() {
                None => PartsSum::Missing,
                Some(v) => match decimal_sum(a, v) {
                    Some(t) => PartsSum::Total(t),
                    None => PartsSum::Overflow,
                },
            },
            other => other,
        }
    }
}

/// The check `computed == Σ parts`: absent when the total or any part is
/// missing (it cannot be checked).
pub open spec fn check_of(
    name: Seq<char>,
    period: i32,
    computed: Option<(int, int, bool)>,
    parts: Seq<Option<(int, int, bool)>>,
) -> Option<CheckView> {
    match computed {
        None => None,
        Some(c) => match sum_parts(parts) {
            PartsSum::Total(e) => Some(
                CheckView { name, period, computed: c, expected: e, ok: same_value(c, e) },
            ),
            _ => None,
        },
    }
}

/// The sum of the parts does not overflow where the check gets that far.
pub open spec fn check_fits(
    computed: Option<(int, int, bool)>,
    parts: Seq<Option<(int, int, bool)>>,
) -> bool {
    computed is Some ==> !(sum_parts(parts) is Overflow)
}

pub open spec fn opt_seq<A>(o: Option<A>) -> Seq<A> {
    match o {
        Some(a) => seq![a],
        None => Seq::empty(),
    }
}

pub open spec fn amt(facts: Seq<Fact>, c: &'static str, p: i32) -> Option<(int, int, bool)> {
    first_amount(facts, c@, p)
}

pub open spec fn equation_check(facts: Seq<Fact>, p: i32) -> Option<CheckView> {
    check_of(
        "회계등식 (자산=부채+자본)"@,
        p,
        amt(facts, concept::ASSETS, p),
        seq![amt(facts, concept::LIABILITIES, p), amt(facts, concept::EQUITY, p)],
    )
}

pub open spec fn assets_check(facts: Seq<Fact>, p: i32) -> Option<CheckView> {
    check_of(
        "자산총계 = 유동+비유동"@,
        p,
        amt(facts, concept::ASSETS, p),
        seq![amt(facts, concept::CURRENT_ASSETS, p), amt(facts, concept::NONCURRENT_ASSETS, p)],
    )
}

pub open spec fn liabilities_check(facts: Seq<Fact>, p: i32) -> Option<CheckView> {
    check_of(
        "부채총계 = 유동+비유동"@,
        p,
        amt(facts, concept::LIABILITIES, p),
        seq![
            amt(facts, concept::CURRENT_LIABILITIES, p),
            amt(facts, concept::NONCURRENT_LIABILITIES, p),
        ],
    )
}

/// The checks of one period, in order: accounting equation, total assets,
/// total liabilities — each only when it can be checked.
pub open spec fn period_checks(facts: Seq<Fact>, p: i32) -> Seq<CheckView> {
    opt_seq(equation_check(facts, p)) + opt_seq(assets_check(facts, p)) + opt_seq(
        liabilities_check(facts, p),
    )
}

/// The checks of the periods `ps`, in that order.
pub open spec fn checks_for(facts: Seq<Fact>, ps: Seq<i32>) -> Seq<CheckView>
    decreases ps.len(),
{
    if ps.len() == 0 {
        Seq::empty()
    } else {
        checks_for(facts, ps.drop_last()) + period_checks(facts, ps.last())
    }
}

/// All footing checks of `facts`, newest period first.
pub open spec fn footing_of(facts: Seq<Fact>) -> Seq<CheckView> {
    checks_for(facts, periods_desc(facts))
}

/// No sum that the checks compute overflows.
pub open spec fn footing_fits(facts: Seq<Fact>) -> bool {
    forall|p: i32|
        periods_desc(facts).contains(p) ==> {
            &&& check_fits(
                amt(facts, concept::ASSETS, p),
                seq![amt(facts, concept::LIABILITIES, p), amt(facts, concept::EQUITY, p)],
            )
            &&& check_fits(
                amt(facts, concept::ASSETS, p),
                seq![
                    amt(facts, concept::CURRENT_ASSETS, p),
                    amt(facts, concept::NONCURRENT_ASSETS, p),
                ],
            )
            &&& check_fits(
                amt(facts, concept::LIABILITIES, p),
                seq![
                    amt(facts, concept::CURRENT_LIABILITIES, p),
                    amt(facts, concept::NONCURRENT_LIABILITIES, p),
                ],
            )
        }
}

pub open spec fn opt_money(o: Option<Money>) -> Option<(int, int, bool)> {
    match o {
        Some(m) => Some(m.0@),
        None => None,
    }
}

/// Outcome of summing two parts: `Err(true)` when a part is missing,
/// `Err(false)` when the sum overflows.
fn sum_two(a: Option<Money>, b: Option<Money>) -> (r: Result<Money, bool>)
    ensures
        match r {
            Ok(m) => sum_parts(seq![opt_money(a), opt_money(b)]) == PartsSum::Total(m.0@),
            Err(true) => sum_parts(seq![opt_money(a), opt_money(b)]) is Missing,
            Err(false) => sum_parts(seq![opt_money(a), opt_money(b)]) is Overflow,
        },
{
    let ghost s = seq![opt_money(a), opt_money(b)];
    assert(s.drop_last().drop_last() =~= Seq::<Option<(int, int, bool)>>::empty());
    assert(s.drop_last() =~= seq![opt_money(a)]);
    proof {
        reveal_with_fuel(sum_parts, 3);
    }
    let zero = Money::zero();
    let a = match a {
        Some(a) => a,
        None => return Err(true),
    };
    let first = match zero.checked_add(a) {
        Some(x) => x,
        None => return Err(false),
    };
    let b = match b {
        Some(b) => b,
        None => return Err(true),
    };
    match first.checked_add(b) {
        Some(x) => Ok(x),
        None => Err(false),
    }
}

/// `computed == Σ parts` for one item; `None` when a needed account is
/// missing (the item cannot be checked). `Err(())` when the sum overflows.
fn check(name: &'static str, period: i32, computed: Option<Money>, a: Option<Money>, b: Option<Money>) -> (r: Result<Option<FootingCheck>, ()>)
    ensures
        match r {
            Ok(c) => check_fits(opt_money(computed), seq![opt_money(a), opt_money(b)])
                && match c {
                Some(c) => check_of(name@, period, opt_money(computed), seq![opt_money(a), opt_money(b)]) == Some(check_view(c)),
                None => check_of(name@, period, opt_money(computed), seq![opt_money(a), opt_money(b)]) is None,
            },
            Err(()) => !check_fits(opt_money(computed), seq![opt_money(a), opt_money(b)]),
        },
{
    let computed = match computed {
        Some(c) => c,
        None => return Ok(None),
    };
    match sum_two(a, b) {
        Ok(expected) => {
            let ok = computed == expected;
            Ok(Some(FootingCheck { name, period, computed, expected, ok }))
        },
        Err(true) => Ok(None),
        Err(false) => Err(()),
    }
}

fn push_opt(out: &mut Vec<FootingCheck>, c: Option<FootingCheck>)
    ensures
        final(out)@.map_values(|x: FootingCheck| check_view(x)) == old(out)@.map_values(
            |x: FootingCheck| check_view(x),
        ) + opt_seq(
            match c {
                Some(c) => Some(check_view(c)),
                None => None,
            },
        ),
{
    let ghost before = out@;
    if let Some(c) = c {
        out.push(c);
        assert(out@.map_values(|x: FootingCheck| check_view(x)) =~= before.map_values(
            |x: FootingCheck| check_view(x),
        ) + seq![check_view(c)]);
    } else {
        assert(out@.map_values(|x: FootingCheck| check_view(x)) =~= before.map_values(
            |x: FootingCheck| check_view(x),
        ) + Seq::<CheckView>::empty());
    }
}

/// The footing checks of every period, newest first, each where it can be
/// checked; `None` when one of the sums overflows.
#[verifier::rlimit(40)]
pub fn try_verify_footing(facts: &[Fact]) -> (r: Option<Vec<FootingCheck>>)
    ensures
        match r {
            Some(v) => footing_fits(facts@) && v@.map_values(|x: FootingCheck| check_view(x))
                == footing_of(facts@),
            None => !footing_fits(facts@),
        },
{
    let ps = periods_newest_first(facts);
    let mut out: Vec<FootingCheck> = Vec::new();
    let mut i: usize = 0;
    while i < ps.len()
        invariant
            i <= ps@.len(),
            ps@ == periods_desc(facts@),
            out@.map_values(|x: FootingCheck| check_view(x)) == checks_for(
                facts@,
                ps@.take(i as int),
            ),
            forall|j: int|
                0 <= j < i ==> {
                    let p = #[trigger] ps@[j];
                    &&& check_fits(
                        amt(facts@, concept::ASSETS, p),
                        seq![amt(facts@, concept::LIABILITIES, p), amt(facts@, concept::EQUITY, p)],
                    )
                    &&& check_fits(
                        amt(facts@, concept::ASSETS, p),
                        seq![
                            amt(facts@, concept::CURRENT_ASSETS, p),
                            amt(facts@, concept::NONCURRENT_ASSETS, p),
                        ],
                    )
                    &&& check_fits(
                        amt(facts@, concept::LIABILITIES, p),
                        seq![
                            amt(facts@, concept::CURRENT_LIABILITIES, p),
                            amt(facts@, concept::NONCURRENT_LIABILITIES, p),
                        ],
                    )
                },
        decreases ps@.len() - i,
    {
        let p = ps[i];
        let assets = amount(facts, concept::ASSETS, p);
        let liab = amount(facts, concept::LIABILITIES, p);
        let eq = amount(facts, concept::EQUITY, p);
        let ca = amount(facts, concept::CURRENT_ASSETS, p);
        let nca = amount(facts, concept::NONCURRENT_ASSETS, p);
        let cl = amount(facts, concept::CURRENT_LIABILITIES, p);
        let ncl = amount(facts, concept::NONCURRENT_LIABILITIES, p);
        let c1 = match check("회계등식 (자산=부채+자본)", p, assets, liab, eq) {
            Ok(c) => c,
            Err(()) => {
                assert(periods_desc(facts@).contains(p));
                return None;
            },
        };
        let c2 = match check("자산총계 = 유동+비유동", p, assets, ca, nca) {
            Ok(c) => c,
            Err(()) => {
                assert(periods_desc(facts@).contains(p));
                return None;
            },
        };
        let c3 = match check("부채총계 = 유동+비유동", p, liab, cl, ncl) {
            Ok(c) => c,
            Err(()) => {
                assert(periods_desc(facts@).contains(p));
                return None;
            },
        };
        push_opt(&mut out, c1);
        push_opt(&mut out, c2);
        push_opt(&mut out, c3);
        proof {
            assert(ps@.take(i + 1).drop_last() =~= ps@.take(i as int));
            assert(ps@.take(i + 1).last() == p);
        }
        i += 1;
    }
    proof {
        assert(ps@.take(ps@.len() as int) =~= ps@);
        assert forall|p: i32| periods_desc(facts@).contains(p) implies {
            &&& check_fits(
                amt(facts@, concept::ASSETS, p),
                seq![amt(facts@, concept::LIABILITIES, p), amt(facts@, concept::EQUITY, p)],
            )
            &&& check_fits(
                amt(facts@, concept::ASSETS, p),
                seq![
                    amt(facts@, concept::CURRENT_ASSETS, p),
                    amt(facts@, concept::NONCURRENT_ASSETS, p),
                ],
            )
            &&& check_fits(
                amt(facts@, concept::LIABILITIES, p),
                seq![
                    amt(facts@, concept::CURRENT_LIABILITIES, p),
                    amt(facts@, concept::NONCURRENT_LIABILITIES, p),
                ],
            )
        } by {
            let j = choose|j: int| 0 <= j < ps@.len() && ps@[j] == p;
            assert(ps@[j] == p);
        }
    }
    Some(out)
}

/// The footing checks of every period (accounting equation, total assets,
/// total liabilities), newest period first; an item whose accounts are
/// missing is skipped.
pub fn verify_footing(facts: &[Fact]) -> (r: Vec<FootingCheck>)
    requires
        footing_fits(facts@),
    ensures
        r@.map_values(|x: FootingCheck| check_view(x)) == footing_of(facts@),
{
    match try_verify_footing(facts) {
        Some(v) => v,
        None => Vec::new(),
    }
}

/// `a + b` summed from zero, as the checks add two parts; `None` on
/// overflow.
pub open spec fn two_parts_sum(a: (int, int, bool), b: (int, int, bool)) -> Option<(int, int, bool)> {
    match decimal_sum((0, 0, false), a) {
        Some(s) => decimal_sum(s, b),
        None => None,
    }
}

/// The checks of the periods `ps` hold every check of each period in `ps`.
proof fn lemma_checks_for_has(facts: Seq<Fact>, ps: Seq<i32>, p: i32, j: int)
    requires
        ps.contains(p),
        0 <= j < period_checks(facts, p).len(),
    ensures
        checks_for(facts, ps).contains(period_checks(facts, p)[j]),
    decreases ps.len(),
{
    let d = ps.drop_last();
    if ps.last() == p {
        assert(checks_for(facts, ps)[checks_for(facts, d).len() + j] == period_checks(facts, p)[j]);
    } else {
        let k = choose|k: int| 0 <= k < ps.len() && ps[k] == p;
        assert(d[k] == p);
        lemma_checks_for_has(facts, d, p, j);
        let i = choose|i: int| 0 <= i < checks_for(facts, d).len() && checks_for(facts, d)[i]
            == period_checks(facts, p)[j];
        assert(checks_for(facts, ps)[i] == checks_for(facts, d)[i]);
    }
}

/// Each period's checks compare the right totals with the sums of the right
/// parts: total assets with liabilities plus equity, total assets with
/// current plus non-current assets, total liabilities with current plus
/// non-current liabilities — each from the period's first amount of the
/// concept; a check is ok exactly when the two denote the same number.
pub proof fn law_footing_checks(facts: Seq<Fact>, p: i32)
    requires
        periods_desc(facts).contains(p),
    ensures
        match (
            first_amount(facts, "ifrs-full_Assets"@, p),
            first_amount(facts, "ifrs-full_Liabilities"@, p),
            first_amount(facts, "ifrs-full_Equity"@, p),
        ) {
            (Some(t), Some(a), Some(b)) => match two_parts_sum(a, b) {
                Some(e) => footing_of(facts).contains(
                    CheckView { name: "회계등식 (자산=부채+자본)"@, period: p, computed: t, expected: e, ok: same_value(t, e) },
                ),
                None => true,
            },
            _ => true,
        },
        match (
            first_amount(facts, "ifrs-full_Assets"@, p),
            first_amount(facts, "ifrs-full_CurrentAssets"@, p),
            first_amount(facts, "ifrs-full_NoncurrentAssets"@, p),
        ) {
            (Some(t), Some(a), Some(b)) => match two_parts_sum(a, b) {
                Some(e) => footing_of(facts).contains(
                    CheckView { name: "자산총계 = 유동+비유동"@, period: p, computed: t, expected: e, ok: same_value(t, e) },
                ),
                None => true,
            },
            _ => true,
        },
        match (
            first_amount(facts, "ifrs-full_Liabilities"@, p),
            first_amount(facts, "ifrs-full_CurrentLiabilities"@, p),
            first_amount(facts, "ifrs-full_NoncurrentLiabilities"@, p),
        ) {
            (Some(t), Some(a), Some(b)) => match two_parts_sum(a, b) {
                Some(e) => footing_of(facts).contains(
                    CheckView { name: "부채총계 = 유동+비유동"@, period: p, computed: t, expected: e, ok: same_value(t, e) },
                ),
                None => true,
            },
            _ => true,
        },
{
    let ps = periods_desc(facts);
    let pc = period_checks(facts, p);
    reveal_with_fuel(sum_parts, 3);
    let e = equation_check(facts, p);
    let a = assets_check(facts, p);
    let l = liabilities_check(facts, p);
    if e is Some {
        assert(pc[0] == e->0);
        lemma_checks_for_has(facts, ps, p, 0);
    }
    if a is Some {
        assert(pc[opt_seq(e).len() as int] == a->0);
        lemma_checks_for_has(facts, ps, p, opt_seq(e).len() as int);
    }
    if l is Some {
        let k: int = (opt_seq(e).len() + opt_seq(a).len()) as int;
        assert(pc[k] == l->0);
        lemma_checks_for_has(facts, ps, p, k);
    }
}

} // verus!
