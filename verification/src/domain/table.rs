//! Table — a generic rows-and-columns view: the common input of display and
//! export. Money is rendered to text here for the first time.

use vstd::prelude::*;
use crate::domain::fact::{desc_of, distinct_newest_first};
use crate::domain::footing::{FootingCheck, check_text};
use crate::domain::decimal::decimal_difference;
use crate::domain::grid::{first_occurrences, names_at, lemma_first_occurrences, row_cells, strs_view, strings_view, first_rows, cells_for};
use crate::domain::ratio::{Ratio, ratio_text, opt_dec};
use crate::domain::account::{merge_key, merge_key_of};
use crate::domain::decimal::decimal_text;
use crate::domain::fact::{Fact, periods_desc, periods_newest_first};
use crate::domain::money::with_commas;
use crate::domain::statement::{Statement, names_are_distinct};
use crate::seqs::{keyed, sorted_by, stable_sort_of, lemma_keyed_push, lemma_sorted_insert, distinct, lemma_stable_sort_elements};
use crate::text::{int_text, i32_text, to_string, str_eq};

verus! {

broadcast use vstd::string::group_string_axioms;

/// A rendered table.
#[derive(Debug, Clone)]
pub struct Table {
    pub headers: Vec<String>,
    pub rows: Vec<Vec<String>>,
    /// Per-row merge key (concept id), parallel to `rows`; not displayed or
    /// exported. Empty when unused.
    pub keys: Vec<String>,
}

/// The text of each cell of a row.
pub open spec fn cells_view(v: Seq<String>) -> Seq<Seq<char>> {
    v.map_values(|s: String| s@)
}

/// The column headers for years: their decimal text, in order.
pub open spec fn years_text(ys: Seq<i32>) -> Seq<Seq<char>> {
    ys.map_values(|y: i32| int_text(y as int))
}

pub proof fn lemma_cells_push(v: Seq<String>, x: String)
    ensures
        cells_view(v.push(x)) =~= cells_view(v).push(x@),
{
    assert forall|i: int| 0 <= i < v.len() + 1 implies cells_view(v.push(x))[i] == cells_view(
        v,
    ).push(x@)[i] by {
        if i < v.len() {
            assert(v.push(x)[i] == v[i]);
        }
    }
}

pub proof fn lemma_take_push<A>(a: Seq<A>, t: Seq<A>, c: int)
    requires
        0 <= c < t.len(),
    ensures
        a + t.take(c + 1) =~= (a + t.take(c)).push(t[c]),
{
}

pub open spec fn rows_view(rows: Seq<Vec<String>>) -> Seq<Seq<Seq<char>>> {
    rows.map_values(|r: Vec<String>| cells_view(r@))
}

fn year_headers(mut headers: Vec<String>, years: &Vec<i32>) -> (r: Vec<String>)
    ensures
        cells_view(r@) == cells_view(headers@) + years_text(years@),
{
    let ghost h0 = cells_view(headers@);
    let ghost n0 = headers@.len();
    let mut i: usize = 0;
    while i < years.len()
        invariant
            i <= years@.len(),
            headers@.len() == n0 + i,
            h0.len() == n0,
            cells_view(headers@) == h0 + years_text(years@.take(i as int)),
        decreases years@.len() - i,
    {
        let ghost before = headers@;
        let t = i32_text(years[i]);
        headers.push(t);
        proof {
            lemma_cells_push(before, t);
            assert(years_text(years@.take(i + 1)) =~= years_text(years@.take(i as int)).push(
                int_text(years@[i as int] as int),
            ));
            assert(h0 + years_text(years@.take(i + 1)) =~= (h0 + years_text(
                years@.take(i as int),
            )).push(int_text(years@[i as int] as int)));
        }
        i += 1;
    }
    assert(years@.take(years@.len() as int) =~= years@);
    headers
}

pub open spec fn ratio_names(rs: Seq<Ratio>) -> Seq<Seq<char>> {
    rs.map_values(|r: Ratio| r.name@)
}

pub open spec fn ratio_periods(rs: Seq<Ratio>) -> Seq<i32> {
    rs.map_values(|r: Ratio| r.period)
}

pub open spec fn ratio_texts(rs: Seq<Ratio>) -> Seq<Seq<char>> {
    rs.map_values(|r: Ratio| ratio_text(opt_dec(r.value), r.unit))
}

pub open spec fn check_names(cs: Seq<FootingCheck>) -> Seq<Seq<char>> {
    cs.map_values(|c: FootingCheck| c.name@)
}

pub open spec fn check_periods(cs: Seq<FootingCheck>) -> Seq<i32> {
    cs.map_values(|c: FootingCheck| c.period)
}

pub open spec fn check_texts(cs: Seq<FootingCheck>) -> Seq<Seq<char>> {
    cs.map_values(|c: FootingCheck| check_text(c))
}

/// Every failing check's difference can be computed.
pub open spec fn checks_displayable(cs: Seq<FootingCheck>) -> bool {
    forall|i: int|
        0 <= i < cs.len() ==> (!(#[trigger] cs[i]).ok ==> decimal_difference(
            cs[i].computed.0@,
            cs[i].expected.0@,
        ) is Some)
}

/// The footing table of `cs`: column "검증 항목", then the years newest
/// first; one row per check name in order of first appearance; each cell the
/// display of the last check for that name and year, or "—".
pub open spec fn footing_table(cs: Seq<FootingCheck>, t: Table) -> bool {
    &&& cells_view(t.headers@) == seq!["검증 항목"@] + years_text(desc_of(check_periods(cs)))
    &&& t.rows@.len() == first_occurrences(check_names(cs), cs.len() as int).len()
    &&& forall|k: int|
        0 <= k < t.rows@.len() ==> {
            let f = first_occurrences(check_names(cs), cs.len() as int)[k];
            cells_view((#[trigger] t.rows@[k])@) == seq![cs[f].name@] + row_cells(
                check_names(cs),
                check_periods(cs),
                check_texts(cs),
                cs[f].name@,
                desc_of(check_periods(cs)),
                "—"@,
            )
        }
    &&& t.keys@.len() == 0
}

/// The merge key of a fact.
pub open spec fn fact_key(f: Fact) -> Seq<char> {
    merge_key_of(f.concept_id@, f.account_nm@)
}

/// The row identity of each fact: (statement, merge key).
pub open spec fn row_ids(facts: Seq<Fact>) -> Seq<(Statement, Seq<char>)> {
    facts.map_values(|f: Fact| (f.statement, fact_key(f)))
}

/// Sort key of a fact index: the rank of its statement.
pub open spec fn rank_of(facts: Seq<Fact>) -> spec_fn(int) -> int {
    |i: int| facts[i].statement.rank() as int
}

/// The rows of the pivot, as fact indices: one per (statement, merge key),
/// at its first fact, grouped by statement rank (stable, so the order of
/// first appearance holds within a statement).
pub open spec fn pivot_order(facts: Seq<Fact>, order: Seq<int>) -> bool {
    stable_sort_of(order, first_occurrences(row_ids(facts), facts.len() as int), rank_of(facts))
}

/// Value of the last fact among the first `n` with this statement, merge key
/// and period.
pub open spec fn last_value(facts: Seq<Fact>, s: Statement, k: Seq<char>, y: i32, n: int) -> Option<
    (int, int, bool),
>
    decreases n,
{
    if n <= 0 {
        None
    } else if facts[n - 1].statement == s && fact_key(facts[n - 1]) == k && facts[n - 1].period
        == y {
        Some(facts[n - 1].value.0@)
    } else {
        last_value(facts, s, k, y, n - 1)
    }
}

/// A pivot cell: the thousands-grouped amount, or empty when the account
/// has no fact for that year.
pub open spec fn pivot_cell(facts: Seq<Fact>, s: Statement, k: Seq<char>, y: i32) -> Seq<char> {
    match last_value(facts, s, k, y, facts.len() as int) {
        Some(v) => with_commas(decimal_text(v)),
        None => Seq::empty(),
    }
}

/// The pivot row of the fact at index `i`: statement name, that fact's
/// account name, then one cell per year (newest first).
pub open spec fn pivot_row(facts: Seq<Fact>, i: int) -> Seq<Seq<char>> {
    seq![facts[i].statement.name_spec(), facts[i].account_nm@] + periods_desc(facts).map_values(
        |y: i32| pivot_cell(facts, facts[i].statement, fact_key(facts[i]), y),
    )
}

pub open spec fn idx_view(v: Seq<usize>) -> Seq<int> {
    v.map_values(|i: usize| i as int)
}

/// Index of the last fact with this row identity and period.
fn last_fact(
    facts: &[Fact],
    keys: &Vec<String>,
    s: Statement,
    k: &str,
    y: i32,
) -> (r: Option<usize>)
    requires
        keys@.len() == facts@.len(),
        forall|j: int| 0 <= j < facts@.len() ==> (#[trigger] keys@[j])@ == fact_key(facts@[j]),
    ensures
        match r {
            Some(j) => j < facts@.len() && last_value(facts@, s, k@, y, facts@.len() as int) == Some(
                facts@[j as int].value.0@,
            ),
            None => last_value(facts@, s, k@, y, facts@.len() as int) is None,
        },
{
    let mut n = facts.len();
    while n > 0
        invariant
            n <= facts@.len(),
            keys@.len() == facts@.len(),
            forall|j: int| 0 <= j < facts@.len() ==> (#[trigger] keys@[j])@ == fact_key(facts@[j]),
            last_value(facts@, s, k@, y, facts@.len() as int) == last_value(
                facts@,
                s,
                k@,
                y,
                n as int,
            ),
        decreases n,
    {
        assert(keys@[n - 1]@ == fact_key(facts@[n - 1]));
        if facts[n - 1].statement == s && facts[n - 1].period == y && str_eq(
            keys[n - 1].as_str(),
            k,
        ) {
            return Some(n - 1);
        }
        n -= 1;
    }
    None
}

/// Inserts index `x` after every index whose statement rank is at most its own.
fn insert_by_rank(v: &mut Vec<usize>, x: usize, facts: &[Fact])
    requires
        x < facts@.len(),
        forall|j: int| 0 <= j < old(v)@.len() ==> old(v)@[j] < facts@.len(),
        sorted_by(idx_view(old(v)@), rank_of(facts@)),
    ensures
        forall|j: int| 0 <= j < final(v)@.len() ==> final(v)@[j] < facts@.len(),
        sorted_by(idx_view(final(v)@), rank_of(facts@)),
        forall|k: int|
            #[trigger] keyed(idx_view(final(v)@), rank_of(facts@), k) == if (rank_of(facts@))(
                x as int,
            ) == k {
                keyed(idx_view(old(v)@), rank_of(facts@), k).push(x as int)
            } else {
                keyed(idx_view(old(v)@), rank_of(facts@), k)
            },
{
    let ghost s = idx_view(v@);
    let rx = facts[x].statement.order();
    let mut p: usize = 0;
    while p < v.len() && facts[v[p]].statement.order() <= rx
        invariant
            p <= v@.len(),
            s == idx_view(v@),
            x < facts@.len(),
            rx == facts@[x as int].statement.rank(),
            forall|j: int| 0 <= j < v@.len() ==> v@[j] < facts@.len(),
            forall|j: int| 0 <= j < p ==> (rank_of(facts@))(#[trigger] s[j]) <= rx,
        decreases v@.len() - p,
    {
        p += 1;
    }
    proof {
        assert forall|j: int| p <= j < s.len() implies (rank_of(facts@))(#[trigger] s[j]) > rx by {
            if p < s.len() {
                assert((rank_of(facts@))(s[p as int]) > rx);
            }
        }
        lemma_sorted_insert(s, p as int, x as int, rank_of(facts@));
    }
    v.insert(p, x);
    assert(idx_view(v@) =~= s.insert(p as int, x as int));
}

/// `t` is the account × year table of `facts`: the headers "재무제표",
/// "계정" and the years newest first; one row per (statement, merge key) in
/// the order [`pivot_order`] fixes, with its cells and its merge key.
pub open spec fn is_pivot(facts: Seq<Fact>, t: Table) -> bool {
    &&& cells_view(t.headers@) == seq!["재무제표"@, "계정"@] + years_text(periods_desc(facts))
    &&& exists|order: Seq<int>|
        {
            &&& pivot_order(facts, order)
            &&& t.rows@.len() == order.len()
            &&& t.keys@.len() == order.len()
            &&& forall|k: int|
                0 <= k < order.len() ==> {
                    &&& cells_view((#[trigger] t.rows@[k])@) == pivot_row(facts, order[k])
                    &&& t.keys@[k]@ == fact_key(facts[order[k]])
                }
        }
}

/// The label of row `k`: its first cell (the statement name) and its merge key.
pub open spec fn row_label(t: Table, k: int) -> (Seq<char>, Seq<char>) {
    (cells_view(t.rows@[k]@)[0], t.keys@[k]@)
}

/// The pivot holds one row per account: no two rows share a statement and a
/// merge key, and every fact's statement and merge key label a row.
pub proof fn law_pivot_one_row_per_account(facts: Seq<Fact>, t: Table)
    requires
        is_pivot(facts, t),
    ensures
        forall|a: int, b: int|
            0 <= a < b < t.rows@.len() ==> #[trigger] row_label(t, a) != #[trigger] row_label(t, b),
        forall|i: int|
            #![trigger facts[i]]
            0 <= i < facts.len() ==> exists|k: int|
                0 <= k < t.rows@.len() && #[trigger] row_label(t, k) == (
                    facts[i].statement.name_spec(),
                    fact_key(facts[i]),
                ),
{
    let n = facts.len() as int;
    let ids = row_ids(facts);
    let fo = first_occurrences(ids, n);
    let order = choose|order: Seq<int>|
        {
            &&& pivot_order(facts, order)
            &&& t.rows@.len() == order.len()
            &&& t.keys@.len() == order.len()
            &&& forall|k: int|
                0 <= k < order.len() ==> {
                    &&& cells_view((#[trigger] t.rows@[k])@) == pivot_row(facts, order[k])
                    &&& t.keys@[k]@ == fact_key(facts[order[k]])
                }
        };
    lemma_first_occurrences(ids, n);
    assert(distinct(fo)) by {
        assert forall|a: int, b: int| 0 <= a < b < fo.len() implies fo[a] != fo[b] by {
            assert(fo[a] < fo[b]);
        }
    }
    lemma_stable_sort_elements(order, fo, rank_of(facts));
    assert forall|k: int| 0 <= k < order.len() implies row_label(t, k) == (
        facts[order[k]].statement.name_spec(),
        fact_key(facts[order[k]]),
    ) && 0 <= order[k] < n && fo.contains(#[trigger] order[k]) by {
        assert(fo.contains(order[k]));
        let x = choose|x: int| 0 <= x < fo.len() && fo[x] == order[k];
        assert(0 <= fo[x] < n);
        assert(cells_view(t.rows@[k]@) == pivot_row(facts, order[k]));
    }
    assert forall|a: int, b: int| 0 <= a < b < t.rows@.len() implies #[trigger] row_label(t, a)
        != #[trigger] row_label(t, b) by {
        assert(fo.contains(order[a]));
        assert(fo.contains(order[b]));
        let x = choose|x: int| 0 <= x < fo.len() && fo[x] == order[a];
        let y = choose|y: int| 0 <= y < fo.len() && fo[y] == order[b];
        assert(order[a] != order[b]);
        assert(x != y);
        assert(0 <= fo[x] < n && 0 <= fo[y] < n);
        if x < y {
            assert(names_at(ids, fo)[x] != names_at(ids, fo)[y]);
        } else {
            assert(names_at(ids, fo)[y] != names_at(ids, fo)[x]);
        }
        assert(ids[order[a]] != ids[order[b]]);
        names_are_distinct(facts[order[a]].statement, facts[order[b]].statement);
    }
    assert forall|i: int| #![trigger facts[i]] 0 <= i < facts.len() implies exists|k: int|
        0 <= k < t.rows@.len() && #[trigger] row_label(t, k) == (
            facts[i].statement.name_spec(),
            fact_key(facts[i]),
        ) by {
        assert(names_at(ids, fo).contains(ids[i]));
        let x = choose|x: int| 0 <= x < names_at(ids, fo).len() && names_at(ids, fo)[x] == ids[i];
        assert(0 <= fo[x] < n);
        assert(order.contains(fo[x]));
        let k = choose|k: int| 0 <= k < order.len() && order[k] == fo[x];
        assert(ids[fo[x]] == ids[i]);
        assert(row_label(t, k) == (facts[i].statement.name_spec(), fact_key(facts[i])));
    }
}

impl Table {
    /// Facts → account × year table. Columns: "재무제표", "계정", then the
    /// years newest first. One row per (statement, merge key) — so the same
    /// name in two statements makes two rows, and a concept id or an alias
    /// merges renamed accounts into one — shown with the account name of its
    /// first fact, rows grouped by statement order (BS → IS → CIS → CF → SCE)
    /// and otherwise in order of first appearance. A cell is the last fact's
    /// amount for that year, or empty. `keys` holds each row's merge key.
    pub fn pivot(facts: &[Fact]) -> (r: Table)
        ensures
            is_pivot(facts@, r),
    {
        let mut keys: Vec<String> = Vec::new();
        let mut i: usize = 0;
        while i < facts.len()
            invariant
                i <= facts@.len(),
                keys@.len() == i,
                forall|j: int| 0 <= j < i ==> (#[trigger] keys@[j])@ == fact_key(facts@[j]),
            decreases facts@.len() - i,
        {
            keys.push(merge_key(facts[i].concept_id.as_str(), facts[i].account_nm.as_str()));
            i += 1;
        }
        let ghost ids = row_ids(facts@);
        // rows at the first fact of each (statement, merge key)
        let mut firsts: Vec<usize> = Vec::new();
        let mut i: usize = 0;
        while i < facts.len()
            invariant
                i <= facts@.len(),
                keys@.len() == facts@.len(),
                forall|j: int| 0 <= j < facts@.len() ==> (#[trigger] keys@[j])@ == fact_key(facts@[j]),
                ids == row_ids(facts@),
                idx_view(firsts@) == first_occurrences(ids, i as int),
                forall|q: int| 0 <= q < firsts@.len() ==> firsts@[q] < i,
            decreases facts@.len() - i,
        {
            let mut j: usize = 0;
            let mut seen = false;
            while j < i
                invariant
                    j <= i < facts@.len(),
                    keys@.len() == facts@.len(),
                    forall|q: int| 0 <= q < facts@.len() ==> (#[trigger] keys@[q])@ == fact_key(facts@[q]),
                    ids == row_ids(facts@),
                    !seen ==> forall|q: int| 0 <= q < j ==> ids[q] != ids[i as int],
                    seen ==> exists|q: int| 0 <= q < i && ids[q] == ids[i as int],
                decreases i - j,
            {
                if !seen && facts[j].statement == facts[i].statement && str_eq(
                    keys[j].as_str(),
                    keys[i].as_str(),
                ) {
                    seen = true;
                    assert(keys@[j as int]@ == fact_key(facts@[j as int]));
                    assert(keys@[i as int]@ == fact_key(facts@[i as int]));
                    assert(ids[j as int] == ids[i as int]);
                }
                if !seen {
                    assert(keys@[j as int]@ == fact_key(facts@[j as int]));
                    assert(keys@[i as int]@ == fact_key(facts@[i as int]));
                }
                j += 1;
            }
            let ghost before = firsts@;
            if !seen {
                firsts.push(i);
                assert(idx_view(firsts@) =~= idx_view(before).push(i as int));
            }
            i += 1;
        }
        let ghost fo = first_occurrences(ids, facts@.len() as int);
        // stable grouping by statement order
        let mut order: Vec<usize> = Vec::new();
        let mut q: usize = 0;
        while q < firsts.len()
            invariant
                q <= firsts@.len(),
                idx_view(firsts@) == fo,
                forall|t: int| 0 <= t < firsts@.len() ==> firsts@[t] < facts@.len(),
                forall|t: int| 0 <= t < order@.len() ==> order@[t] < facts@.len(),
                stable_sort_of(idx_view(order@), fo.take(q as int), rank_of(facts@)),
            decreases firsts@.len() - q,
        {
            let x = firsts[q];
            proof {
                assert(fo.take(q + 1) =~= fo.take(q as int).push(x as int));
            }
            insert_by_rank(&mut order, x, facts);
            proof {
                assert forall|k: int| #[trigger]
                    keyed(idx_view(order@), rank_of(facts@), k) == keyed(
                        fo.take(q + 1),
                        rank_of(facts@),
                        k,
                    ) by {
                    lemma_keyed_push(fo.take(q as int), x as int, rank_of(facts@), k);
                }
            }
            q += 1;
        }
        assert(fo.take(fo.len() as int) =~= fo);
        let years = periods_newest_first(facts);
        let mut headers: Vec<String> = Vec::new();
        headers.push(to_string("재무제표"));
        headers.push(to_string("계정"));
        assert(cells_view(headers@) =~= seq!["재무제표"@, "계정"@]);
        let headers = year_headers(headers, &years);
        let mut rows: Vec<Vec<String>> = Vec::new();
        let mut row_keys: Vec<String> = Vec::new();
        let mut r: usize = 0;
        while r < order.len()
            invariant
                r <= order@.len(),
                forall|t: int| 0 <= t < order@.len() ==> order@[t] < facts@.len(),
                keys@.len() == facts@.len(),
                forall|j: int| 0 <= j < facts@.len() ==> (#[trigger] keys@[j])@ == fact_key(facts@[j]),
                years@ == periods_desc(facts@),
                rows@.len() == r,
                row_keys@.len() == r,
                forall|k: int|
                    0 <= k < r ==> cells_view((#[trigger] rows@[k])@) == pivot_row(
                        facts@,
                        order@[k] as int,
                    ),
                forall|k: int|
                    0 <= k < r ==> (#[trigger] row_keys@[k])@ == fact_key(facts@[order@[k] as int]),
            decreases order@.len() - r,
        {
            let i = order[r];
            let f = &facts[i];
            let mut row: Vec<String> = Vec::new();
            row.push(to_string(f.statement.name()));
            row.push(f.account_nm.clone());
            let ghost r2 = cells_view(row@);
            assert(r2 =~= seq![facts@[i as int].statement.name_spec(), facts@[i as int].account_nm@]);
            let ghost cellsv = years@.map_values(
                |y: i32| pivot_cell(facts@, facts@[i as int].statement, fact_key(facts@[i as int]), y),
            );
            let mut c: usize = 0;
            while c < years.len()
                invariant
                    c <= years@.len(),
                    i < facts@.len(),
                    keys@.len() == facts@.len(),
                    forall|j: int| 0 <= j < facts@.len() ==> (#[trigger] keys@[j])@ == fact_key(facts@[j]),
                    cellsv == years@.map_values(
                        |y: i32| pivot_cell(facts@, facts@[i as int].statement, fact_key(facts@[i as int]), y),
                    ),
                    row@.len() == 2 + c,
                    r2.len() == 2,
                    cells_view(row@) == r2 + cellsv.take(c as int),
                decreases years@.len() - c,
            {
                assert(keys@[i as int]@ == fact_key(facts@[i as int]));
                let k_str: &str = keys[i].as_str();
                let st = facts[i].statement;
                let yc = years[c];
                assert(st == facts@[i as int].statement);
                let found = last_fact(facts, &keys, st, k_str, yc);
                let cell = match found {
                    Some(j) => facts[j].value.fmt_comma(),
                    None => String::new(),
                };
                assert(cell@ == pivot_cell(facts@, st, k_str@, yc));
                assert(cellsv[c as int] == pivot_cell(
                    facts@,
                    facts@[i as int].statement,
                    fact_key(facts@[i as int]),
                    years@[c as int],
                ));
                assert(cell@ == cellsv[c as int]);
                let ghost before = row@;
                row.push(cell);
                proof {
                    lemma_cells_push(before, cell);
                    lemma_take_push(r2, cellsv, c as int);
                }
                c += 1;
            }
            assert(cellsv.take(cellsv.len() as int) =~= cellsv);
            assert(cells_view(row@) == pivot_row(facts@, i as int));
            let ghost old_rows = rows@;
            let ghost old_keys = row_keys@;
            rows.push(row);
            let kc = keys[i].clone();
            assert(kc@ == fact_key(facts@[i as int]));
            row_keys.push(kc);
            proof {
                assert forall|k: int| 0 <= k < r + 1 implies cells_view((#[trigger] rows@[k])@)
                    == pivot_row(facts@, order@[k] as int) by {
                    if k < r {
                        assert(rows@[k] == old_rows[k]);
                    }
                }
                assert forall|k: int| 0 <= k < r + 1 implies (#[trigger] row_keys@[k])@ == fact_key(
                    facts@[order@[k] as int],
                ) by {
                    if k < r {
                        assert(row_keys@[k] == old_keys[k]);
                    }
                }
            }
            r += 1;
        }
        proof {
            let ov = idx_view(order@);
            assert(pivot_order(facts@, ov));
            assert forall|k: int| 0 <= k < ov.len() implies {
                &&& cells_view((#[trigger] rows@[k])@) == pivot_row(facts@, ov[k])
                &&& row_keys@[k]@ == fact_key(facts@[ov[k]])
            } by {
                assert(ov[k] == order@[k] as int);
            }
        }
        Table { headers, rows, keys: row_keys }
    }

    /// Ratios → indicator × year table: columns "지표", "산식", then the years
    /// newest first; one row per indicator name in order of first appearance
    /// (with that first ratio's formula); each cell the display of the last
    /// ratio for that name and year, or "—".
    pub fn from_ratios(ratios: &[Ratio]) -> (r: Table)
        ensures
            cells_view(r.headers@) == seq!["지표"@, "산식"@] + years_text(
                desc_of(ratio_periods(ratios@)),
            ),
            r.rows@.len() == first_occurrences(ratio_names(ratios@), ratios@.len() as int).len(),
            forall|k: int|
                0 <= k < r.rows@.len() ==> {
                    let f = first_occurrences(ratio_names(ratios@), ratios@.len() as int)[k];
                    cells_view((#[trigger] r.rows@[k])@) == seq![
                        ratios@[f].name@,
                        ratios@[f].formula@,
                    ] + row_cells(
                        ratio_names(ratios@),
                        ratio_periods(ratios@),
                        ratio_texts(ratios@),
                        ratios@[f].name@,
                        desc_of(ratio_periods(ratios@)),
                        "—"@,
                    )
                },
            r.keys@.len() == 0,
    {
        let mut names: Vec<&'static str> = Vec::new();
        let mut periods: Vec<i32> = Vec::new();
        let mut texts: Vec<String> = Vec::new();
        let mut i: usize = 0;
        while i < ratios.len()
            invariant
                i <= ratios@.len(),
                strs_view(names@) == ratio_names(ratios@).take(i as int),
                periods@ == ratio_periods(ratios@).take(i as int),
                strings_view(texts@) == ratio_texts(ratios@).take(i as int),
                names@.len() == i,
                texts@.len() == i,
                forall|j: int| 0 <= j < i ==> names@[j] == ratios@[j].name,
            decreases ratios@.len() - i,
        {
            names.push(ratios[i].name);
            periods.push(ratios[i].period);
            texts.push(ratios[i].display());
            i += 1;
            assert(strs_view(names@) =~= ratio_names(ratios@).take(i as int));
            assert(periods@ =~= ratio_periods(ratios@).take(i as int));
            assert(strings_view(texts@) =~= ratio_texts(ratios@).take(i as int));
        }
        assert(ratio_names(ratios@).take(ratios@.len() as int) =~= ratio_names(ratios@));
        assert(ratio_periods(ratios@).take(ratios@.len() as int) =~= ratio_periods(ratios@));
        assert(ratio_texts(ratios@).take(ratios@.len() as int) =~= ratio_texts(ratios@));
        let years = distinct_newest_first(&periods);
        let firsts = first_rows(&names);
        let mut headers: Vec<String> = Vec::new();
        headers.push(to_string("지표"));
        headers.push(to_string("산식"));
        assert(cells_view(headers@) =~= seq!["지표"@, "산식"@]);
        let headers = year_headers(headers, &years);
        let ghost fo = first_occurrences(ratio_names(ratios@), ratios@.len() as int);
        assert(firsts@.len() == fo.len()) by {
            assert(firsts@.map_values(|i: usize| i as int).len() == firsts@.len());
        }
        let mut rows: Vec<Vec<String>> = Vec::new();
        let mut k: usize = 0;
        while k < firsts.len()
            invariant
                k <= firsts@.len(),
                firsts@.len() == fo.len(),
                firsts@.map_values(|i: usize| i as int) == fo,
                forall|q: int| 0 <= q < firsts@.len() ==> firsts@[q] < names@.len(),
                names@.len() == ratios@.len(),
                periods@.len() == ratios@.len(),
                texts@.len() == ratios@.len(),
                forall|j: int| 0 <= j < ratios@.len() ==> names@[j] == ratios@[j].name,
                strs_view(names@) == ratio_names(ratios@),
                periods@ == ratio_periods(ratios@),
                strings_view(texts@) == ratio_texts(ratios@),
                years@ == desc_of(ratio_periods(ratios@)),
                rows@.len() == k,
                forall|q: int|
                    0 <= q < k ==> {
                        let f = fo[q];
                        cells_view((#[trigger] rows@[q])@) == seq![
                            ratios@[f].name@,
                            ratios@[f].formula@,
                        ] + row_cells(
                            ratio_names(ratios@),
                            ratio_periods(ratios@),
                            ratio_texts(ratios@),
                            ratios@[f].name@,
                            desc_of(ratio_periods(ratios@)),
                            "—"@,
                        )
                    },
            decreases firsts@.len() - k,
        {
            let f = firsts[k];
            assert(fo[k as int] == f as int);
            let cells = cells_for(&names, &periods, &texts, ratios[f].name, &years, "—");
            let mut row: Vec<String> = Vec::new();
            row.push(to_string(ratios[f].name));
            row.push(to_string(ratios[f].formula));
            let ghost r2 = cells_view(row@);
            let mut c: usize = 0;
            while c < cells.len()
                invariant
                    c <= cells@.len(),
                    row@.len() == 2 + c,
                    r2.len() == 2,
                    cells_view(row@) == r2 + strings_view(cells@).take(c as int),
                decreases cells@.len() - c,
            {
                let ghost before = row@;
                let x = cells[c].clone();
                row.push(x);
                proof {
                    lemma_cells_push(before, x);
                    lemma_take_push(r2, strings_view(cells@), c as int);
                }
                c += 1;
            }
            assert(strings_view(cells@).take(cells@.len() as int) =~= strings_view(cells@));
            assert(r2 =~= seq![ratios@[f as int].name@, ratios@[f as int].formula@]);
            let ghost old_rows = rows@;
            rows.push(row);
            proof {
                assert forall|q: int| 0 <= q < k + 1 implies {
                    let f = fo[q];
                    cells_view((#[trigger] rows@[q])@) == seq![
                        ratios@[f].name@,
                        ratios@[f].formula@,
                    ] + row_cells(
                        ratio_names(ratios@),
                        ratio_periods(ratios@),
                        ratio_texts(ratios@),
                        ratios@[f].name@,
                        desc_of(ratio_periods(ratios@)),
                        "—"@,
                    )
                } by {
                    if q < k {
                        assert(rows@[q] == old_rows[q]);
                    }
                }
            }
            k += 1;
        }
        Table { headers, rows, keys: Vec::new() }
    }

    /// [`from_footing`](Self::from_footing) when every failing check's
    /// difference can be computed, else `None`.
    pub fn try_from_footing(checks: &[FootingCheck]) -> (r: Option<Table>)
        ensures
            r is Some <==> checks_displayable(checks@),
            r is Some ==> footing_table(checks@, r->0),
    {
        let mut i: usize = 0;
        while i < checks.len()
            invariant
                i <= checks@.len(),
                forall|j: int|
                    0 <= j < i ==> (!(#[trigger] checks@[j]).ok ==> decimal_difference(
                        checks@[j].computed.0@,
                        checks@[j].expected.0@,
                    ) is Some),
            decreases checks@.len() - i,
        {
            if !checks[i].ok && checks[i].checked_diff().is_none() {
                return None;
            }
            i += 1;
        }
        Some(Table::from_footing(checks))
    }

    /// Footing checks → item × year table: column "검증 항목", then the years
    /// newest first; one row per check name in order of first appearance;
    /// each cell "OK" or the difference of the last check for that name and
    /// year, or "—".
    pub fn from_footing(checks: &[FootingCheck]) -> (r: Table)
        requires
            checks_displayable(checks@),
        ensures
            footing_table(checks@, r),
    {
        let mut names: Vec<&'static str> = Vec::new();
        let mut periods: Vec<i32> = Vec::new();
        let mut texts: Vec<String> = Vec::new();
        let mut i: usize = 0;
        while i < checks.len()
            invariant
                i <= checks@.len(),
                checks_displayable(checks@),
                strs_view(names@) == check_names(checks@).take(i as int),
                periods@ == check_periods(checks@).take(i as int),
                strings_view(texts@) == check_texts(checks@).take(i as int),
                names@.len() == i,
                texts@.len() == i,
                forall|j: int| 0 <= j < i ==> names@[j] == checks@[j].name,
            decreases checks@.len() - i,
        {
            assert(!checks@[i as int].ok ==> decimal_difference(
                checks@[i as int].computed.0@,
                checks@[i as int].expected.0@,
            ) is Some);
            names.push(checks[i].name);
            periods.push(checks[i].period);
            texts.push(checks[i].display());
            i += 1;
            assert(strs_view(names@) =~= check_names(checks@).take(i as int));
            assert(periods@ =~= check_periods(checks@).take(i as int));
            assert(strings_view(texts@) =~= check_texts(checks@).take(i as int));
        }
        assert(check_names(checks@).take(checks@.len() as int) =~= check_names(checks@));
        assert(check_periods(checks@).take(checks@.len() as int) =~= check_periods(checks@));
        assert(check_texts(checks@).take(checks@.len() as int) =~= check_texts(checks@));
        let years = distinct_newest_first(&periods);
        let firsts = first_rows(&names);
        let mut headers: Vec<String> = Vec::new();
        headers.push(to_string("검증 항목"));
        assert(cells_view(headers@) =~= seq!["검증 항목"@]);
        let headers = year_headers(headers, &years);
        let ghost fo = first_occurrences(check_names(checks@), checks@.len() as int);
        assert(firsts@.len() == fo.len()) by {
            assert(firsts@.map_values(|i: usize| i as int).len() == firsts@.len());
        }
        let mut rows: Vec<Vec<String>> = Vec::new();
        let mut k: usize = 0;
        while k < firsts.len()
            invariant
                k <= firsts@.len(),
                firsts@.len() == fo.len(),
                firsts@.map_values(|i: usize| i as int) == fo,
                forall|q: int| 0 <= q < firsts@.len() ==> firsts@[q] < names@.len(),
                names@.len() == checks@.len(),
                periods@.len() == checks@.len(),
                texts@.len() == checks@.len(),
                forall|j: int| 0 <= j < checks@.len() ==> names@[j] == checks@[j].name,
                strs_view(names@) == check_names(checks@),
                periods@ == check_periods(checks@),
                strings_view(texts@) == check_texts(checks@),
                years@ == desc_of(check_periods(checks@)),
                rows@.len() == k,
                forall|q: int|
                    0 <= q < k ==> {
                        let f = fo[q];
                        cells_view((#[trigger] rows@[q])@) == seq![checks@[f].name@] + row_cells(
                            check_names(checks@),
                            check_periods(checks@),
                            check_texts(checks@),
                            checks@[f].name@,
                            desc_of(check_periods(checks@)),
                            "—"@,
                        )
                    },
            decreases firsts@.len() - k,
        {
            let f = firsts[k];
            assert(fo[k as int] == f as int);
            let cells = cells_for(&names, &periods, &texts, checks[f].name, &years, "—");
            let mut row: Vec<String> = Vec::new();
            row.push(to_string(checks[f].name));
            let ghost r1 = cells_view(row@);
            let mut c: usize = 0;
            while c < cells.len()
                invariant
                    c <= cells@.len(),
                    row@.len() == 1 + c,
                    r1.len() == 1,
                    cells_view(row@) == r1 + strings_view(cells@).take(c as int),
                decreases cells@.len() - c,
            {
                let ghost before = row@;
                let x = cells[c].clone();
                row.push(x);
                proof {
                    lemma_cells_push(before, x);
                    lemma_take_push(r1, strings_view(cells@), c as int);
                }
                c += 1;
            }
            assert(strings_view(cells@).take(cells@.len() as int) =~= strings_view(cells@));
            assert(r1 =~= seq![checks@[f as int].name@]);
            let ghost old_rows = rows@;
            rows.push(row);
            proof {
                assert forall|q: int| 0 <= q < k + 1 implies {
                    let f = fo[q];
                    cells_view((#[trigger] rows@[q])@) == seq![checks@[f].name@] + row_cells(
                        check_names(checks@),
                        check_periods(checks@),
                        check_texts(checks@),
                        checks@[f].name@,
                        desc_of(check_periods(checks@)),
                        "—"@,
                    )
                } by {
                    if q < k {
                        assert(rows@[q] == old_rows[q]);
                    }
                }
            }
            k += 1;
        }
        Table { headers, rows, keys: Vec::new() }
    }
}

} // verus!
