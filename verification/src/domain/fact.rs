//! Fact — the tidy (long) unit of statement data: (statement, account, year)
//! → one value. A wide OpenDART row (this/last/previous year) is melted into
//! three facts; tables are pivoted back only for display.

use vstd::prelude::*;
use crate::domain::account::normalized;
use crate::domain::alias::{resolve, alias_of};
use crate::domain::money::Money;
use crate::domain::statement::Statement;
use crate::text::to_string;

verus! {

broadcast use vstd::string::group_string_axioms;

/// One cell of a financial statement. `concept_id` (XBRL `account_id`) is the
/// key across companies and years; empty for a non-standard account.
#[derive(Debug, Clone)]
pub struct Fact {
    pub statement: Statement,
    pub concept_id: String,
    pub account_nm: String,
    pub period: i32,
    pub value: Money,
}

/// The concept id a melted fact carries: the given one, or — when it is
/// empty — the standard id of a known alias of the name, else empty.
pub open spec fn melt_concept(concept_id: Seq<char>, account_nm: Seq<char>) -> Seq<char> {
    if concept_id.len() == 0 {
        match alias_of(normalized(account_nm)) {
            Some(c) => c,
            None => Seq::empty(),
        }
    } else {
        concept_id
    }
}

/// Strictly decreasing.
pub open spec fn strictly_desc(s: Seq<i32>) -> bool {
    forall|i: int, j: int| 0 <= i < j < s.len() ==> s[i] > s[j]
}

/// `ps` lists the values of `xs`, each once, largest first.
pub open spec fn distinct_desc(ps: Seq<i32>, xs: Seq<i32>) -> bool {
    &&& strictly_desc(ps)
    &&& forall|p: i32| ps.contains(p) <==> xs.contains(p)
}

/// The distinct values of `xs`, largest first (unique, see
/// [`lemma_desc_unique`]).
pub open spec fn desc_of(xs: Seq<i32>) -> Seq<i32> {
    choose|ps: Seq<i32>| distinct_desc(ps, xs)
}

/// The periods of the facts, in order.
pub open spec fn fact_periods(facts: Seq<Fact>) -> Seq<i32> {
    facts.map_values(|f: Fact| f.period)
}

/// The periods of `facts`, newest first, each once.
#[verifier::opaque]
pub open spec fn periods_desc(facts: Seq<Fact>) -> Seq<i32> {
    desc_of(fact_periods(facts))
}

/// Two strictly decreasing sequences with the same elements are equal.
pub proof fn lemma_desc_unique(a: Seq<i32>, b: Seq<i32>)
    requires
        strictly_desc(a),
        strictly_desc(b),
        forall|x: i32| a.contains(x) <==> b.contains(x),
    ensures
        a == b,
    decreases a.len(),
{
    if a.len() == 0 {
        if b.len() > 0 {
            assert(b.contains(b[0]));
        }
        assert(a =~= b);
    } else {
        assert(a.contains(a[0]));
        assert(b.len() > 0);
        assert(b.contains(b[0]));
        let ja = choose|j: int| 0 <= j < a.len() && a[j] == b[0];
        let jb = choose|j: int| 0 <= j < b.len() && b[j] == a[0];
        if ja > 0 {
            assert(a[0] > a[ja]);
        }
        if jb > 0 {
            assert(b[0] > b[jb]);
        }
        assert(a[0] == b[0]);
        let a1 = a.drop_first();
        let b1 = b.drop_first();
        assert forall|x: i32| a1.contains(x) <==> b1.contains(x) by {
            if a1.contains(x) {
                let j = choose|j: int| 0 <= j < a1.len() && a1[j] == x;
                assert(a[j + 1] == x);
                assert(x < a[0]);
                assert(a.contains(x));
                let k = choose|k: int| 0 <= k < b.len() && b[k] == x;
                assert(k > 0);
                assert(b1[k - 1] == x);
            }
            if b1.contains(x) {
                let j = choose|j: int| 0 <= j < b1.len() && b1[j] == x;
                assert(b[j + 1] == x);
                assert(x < b[0]);
                assert(b.contains(x));
                let k = choose|k: int| 0 <= k < a.len() && a[k] == x;
                assert(k > 0);
                assert(a1[k - 1] == x);
            }
        }
        lemma_desc_unique(a1, b1);
        assert(a =~= seq![a[0]] + a1);
        assert(b =~= seq![b[0]] + b1);
    }
}

/// The distinct values of `xs`, largest first (a `BTreeSet` walked in
/// reverse).
pub fn distinct_newest_first(xs: &Vec<i32>) -> (r: Vec<i32>)
    ensures
        distinct_desc(r@, xs@),
        r@ == desc_of(xs@),
{
    let mut ps: Vec<i32> = Vec::new();
    let mut i: usize = 0;
    while i < xs.len()
        invariant
            i <= xs@.len(),
            strictly_desc(ps@),
            forall|p: i32| ps@.contains(p) <==> xs@.take(i as int).contains(p),
        decreases xs@.len() - i,
    {
        let p = xs[i];
        let mut k: usize = 0;
        while k < ps.len() && ps[k] > p
            invariant
                k <= ps@.len(),
                forall|j: int| 0 <= j < k ==> ps@[j] > p,
            decreases ps@.len() - k,
        {
            k += 1;
        }
        let ghost before = ps@;
        if k < ps.len() && ps[k] == p {
            assert(before.contains(p));
            assert forall|x: i32| ps@.contains(x) <==> (before.contains(x) || x == p) by {}
        } else {
            ps.insert(k, p);
            proof {
                assert forall|a: int, b: int| 0 <= a < b < ps@.len() implies ps@[a] > ps@[b] by {
                    if b < k {
                    } else if b == k {
                    } else if a < k {
                        assert(ps@[b] == before[b - 1]);
                    } else if a == k {
                        assert(ps@[b] == before[b - 1]);
                        if b - 1 > k {
                            assert(before[k as int] > before[b - 1]);
                        }
                    } else {
                        assert(ps@[a] == before[a - 1]);
                        assert(ps@[b] == before[b - 1]);
                    }
                }
                assert(ps@[k as int] == p);
                assert forall|x: i32| ps@.contains(x) <==> (before.contains(x) || x == p) by {
                    if ps@.contains(x) {
                        let j = choose|j: int| 0 <= j < ps@.len() && ps@[j] == x;
                        if j < k {
                            assert(before[j] == x);
                        } else if j > k {
                            assert(before[j - 1] == x);
                        }
                    }
                    if before.contains(x) {
                        let j = choose|j: int| 0 <= j < before.len() && before[j] == x;
                        if j < k {
                            assert(ps@[j] == x);
                        } else {
                            assert(ps@[j + 1] == x);
                        }
                    }
                }
            }
        }
        proof {
            let t0 = xs@.take(i as int);
            let t1 = xs@.take(i + 1);
            assert(t1 =~= t0.push(p));
            assert forall|x: i32| ps@.contains(x) <==> t1.contains(x) by {
                assert(ps@.contains(x) <==> (before.contains(x) || x == p));
                assert(before.contains(x) <==> t0.contains(x));
                if t1.contains(x) {
                    let j = choose|j: int| 0 <= j < t1.len() && t1[j] == x;
                    if j < i {
                        assert(t0[j] == x);
                        assert(t0.contains(x));
                    } else {
                        assert(x == p);
                    }
                }
                if t0.contains(x) {
                    let j = choose|j: int| 0 <= j < t0.len() && t0[j] == x;
                    assert(t1[j] == x);
                }
                if x == p {
                    assert(t1[i as int] == x);
                }
            }
        }
        i += 1;
    }
    proof {
        assert(xs@.take(xs@.len() as int) =~= xs@);
        assert(distinct_desc(ps@, xs@));
        assert(distinct_desc(desc_of(xs@), xs@));
        lemma_desc_unique(desc_of(xs@), ps@);
    }
    ps
}

/// The distinct periods of `facts`, newest first.
pub fn periods_newest_first(facts: &[Fact]) -> (r: Vec<i32>)
    ensures
        r@ == periods_desc(facts@),
        strictly_desc(r@),
        forall|p: i32| r@.contains(p) <==> fact_periods(facts@).contains(p),
{
    let mut xs: Vec<i32> = Vec::new();
    let mut i: usize = 0;
    while i < facts.len()
        invariant
            i <= facts@.len(),
            xs@ == fact_periods(facts@).take(i as int),
        decreases facts@.len() - i,
    {
        xs.push(facts[i].period);
        i += 1;
        assert(xs@ =~= fact_periods(facts@).take(i as int));
    }
    assert(fact_periods(facts@).take(facts@.len() as int) =~= fact_periods(facts@));
    reveal(periods_desc);
    distinct_newest_first(&xs)
}

impl Fact {
    /// A wide row (this year / last year / the year before) → three long
    /// facts, `base_year` first. Zero amounts stay (pivoting tells "0" from
    /// "not reported"). An empty `concept_id` is filled from the alias
    /// dictionary when the account name is a known alias.
    pub fn melt(
        statement: Statement,
        concept_id: &str,
        account_nm: &str,
        base_year: i32,
        amounts: [Money; 3],
    ) -> (r: Vec<Fact>)
        requires
            base_year >= i32::MIN + 2,
        ensures
            r@.len() == 3,
            forall|i: int|
                0 <= i < 3 ==> {
                    &&& (#[trigger] r@[i]).statement == statement
                    &&& r@[i].concept_id@ == melt_concept(concept_id@, account_nm@)
                    &&& r@[i].account_nm@ == account_nm@
                    &&& r@[i].period == base_year - i
                    &&& r@[i].value == amounts@[i]
                },
    {
        proof {
            reveal_strlit("");
        }
        let cid: &str = if concept_id.is_empty() {
            match resolve(account_nm) {
                Some(c) => c,
                None => "",
            }
        } else {
            concept_id
        };
        let mut out: Vec<Fact> = Vec::new();
        let mut i: usize = 0;
        while i < 3
            invariant
                i <= 3,
                base_year >= i32::MIN + 2,
                cid@ == melt_concept(concept_id@, account_nm@),
                out@.len() == i,
                forall|j: int|
                    0 <= j < i ==> {
                        &&& (#[trigger] out@[j]).statement == statement
                        &&& out@[j].concept_id@ == cid@
                        &&& out@[j].account_nm@ == account_nm@
                        &&& out@[j].period == base_year - j
                        &&& out@[j].value == amounts@[j]
                    },
            decreases 3 - i,
        {
            out.push(
                Fact {
                    statement,
                    concept_id: to_string(cid),
                    account_nm: to_string(account_nm),
                    period: base_year - i as i32,
                    value: amounts[i],
                },
            );
            i += 1;
        }
        out
    }
}

/// The value of the first fact with this concept id and period.
pub open spec fn first_amount(facts: Seq<Fact>, concept_id: Seq<char>, period: i32) -> Option<
    (int, int, bool),
>
    decreases facts.len(),
{
    if facts.len() == 0 {
        None
    } else if facts[0].concept_id@ == concept_id && facts[0].period == period {
        Some(facts[0].value.0@)
    } else {
        first_amount(facts.drop_first(), concept_id, period)
    }
}

/// The first fact with this concept id and period, if any.
pub fn amount(facts: &[Fact], concept_id: &str, period: i32) -> (r: Option<Money>)
    ensures
        match r {
            Some(m) => first_amount(facts@, concept_id@, period) == Some(m.0@),
            None => first_amount(facts@, concept_id@, period) is None,
        },
{
    let mut i: usize = 0;
    assert(facts@.skip(0) =~= facts@);
    while i < facts.len()
        invariant
            i <= facts@.len(),
            first_amount(facts@, concept_id@, period) == first_amount(
                facts@.skip(i as int),
                concept_id@,
                period,
            ),
        decreases facts@.len() - i,
    {
        proof {
            let t = facts@.skip(i as int);
            assert(t[0] == facts@[i as int]);
            assert(t.drop_first() =~= facts@.skip(i + 1));
        }
        if facts[i].period == period && crate::text::str_eq(facts[i].concept_id.as_str(), concept_id) {
            return Some(facts[i].value);
        }
        i += 1;
    }
    None
}

} // verus!
