//! Scans of an imported ledger: completely duplicated rows, and the numbers
//! missing from a numbered sequence (voucher or invoice numbers). Cells are
//! held as text; a scan that needs numbers reads them as decimal integers.

use vstd::prelude::*;
use std::collections::BTreeSet;
use crate::dart::opendart::{digits_value, int_of, is_digit, lemma_digits_grow};
use crate::domain::table::{cells_view, rows_view};
use crate::ledger::copy_row;
use crate::ledger::frame::Frame;
use crate::seqs::{keep, lemma_keep_push};
use crate::text::{chars_of, str_eq, to_string};

verus! {

broadcast use vstd::laws_cmp::group_laws_cmp, vstd::std_specs::btree::group_btree_axioms;

/// Whether the row `r` occurs at two different places of `rows`.
pub open spec fn repeated(rows: Seq<Seq<Seq<char>>>, r: Seq<Seq<char>>) -> bool {
    exists|a: int, b: int|
        0 <= a < rows.len() && 0 <= b < rows.len() && a != b && #[trigger] rows[a] == r
            && #[trigger] rows[b] == r
}

/// The predicate "occurs more than once in `rows`".
pub open spec fn repeated_in(rows: Seq<Seq<Seq<char>>>) -> spec_fn(Seq<Seq<char>>) -> bool {
    |r: Seq<Seq<char>>| repeated(rows, r)
}

/// The rows of `rows` that occur more than once, every copy, in order.
pub open spec fn keep_repeated(rows: Seq<Seq<Seq<char>>>) -> Seq<Seq<Seq<char>>> {
    keep(rows, repeated_in(rows))
}

/// Whether two rows hold the same cells.
pub fn rows_equal(a: &Vec<String>, b: &Vec<String>) -> (r: bool)
    ensures
        r == (cells_view(a@) == cells_view(b@)),
{
    if a.len() != b.len() {
        assert(cells_view(a@).len() != cells_view(b@).len());
        return false;
    }
    let mut i: usize = 0;
    while i < a.len()
        invariant
            i <= a@.len(),
            a@.len() == b@.len(),
            forall|k: int| 0 <= k < i ==> (#[trigger] a@[k])@ == b@[k]@,
        decreases a@.len() - i,
    {
        if !str_eq(a[i].as_str(), b[i].as_str()) {
            assert(cells_view(a@)[i as int] != cells_view(b@)[i as int]);
            return false;
        }
        i += 1;
    }
    assert(cells_view(a@) =~= cells_view(b@));
    true
}

/// Whether row `i` of `rows` occurs again at another place.
fn occurs_elsewhere(rows: &Vec<Vec<String>>, i: usize) -> (r: bool)
    requires
        i < rows@.len(),
    ensures
        r == repeated(rows_view(rows@), rows_view(rows@)[i as int]),
{
    let ghost all = rows_view(rows@);
    let mut j: usize = 0;
    while j < rows.len()
        invariant
            i < rows@.len(),
            j <= rows@.len(),
            all == rows_view(rows@),
            forall|k: int| 0 <= k < j && k != i ==> all[k] != all[i as int],
        decreases rows@.len() - j,
    {
        if j != i && rows_equal(&rows[j], &rows[i]) {
            assert(all[j as int] == all[i as int]);
            return true;
        }
        j += 1;
    }
    proof {
        if repeated(all, all[i as int]) {
            let (a, b) = choose|a: int, b: int|
                0 <= a < all.len() && 0 <= b < all.len() && a != b && #[trigger] all[a] == all[i as int]
                    && #[trigger] all[b] == all[i as int];
            assert(a != i || b != i);
        }
    }
    false
}

/// The rows that occur more than once (every copy of them), in their
/// order, under the same columns: repeated vouchers or payments.
pub fn find_duplicates(df: &Frame) -> (r: Frame)
    ensures
        cells_view(r.columns@) == cells_view(df.columns@),
        rows_view(r.rows@) == keep_repeated(rows_view(df.rows@)),
{
    let ghost all = rows_view(df.rows@);
    let mut out: Vec<Vec<String>> = Vec::new();
    let mut i: usize = 0;
    while i < df.rows.len()
        invariant
            i <= df.rows@.len(),
            all == rows_view(df.rows@),
            rows_view(out@) == keep(all.take(i as int), repeated_in(all)),
        decreases df.rows@.len() - i,
    {
        let dup = occurs_elsewhere(&df.rows, i);
        proof {
            assert(all.take(i + 1) =~= all.take(i as int).push(all[i as int]));
            lemma_keep_push(all.take(i as int), all[i as int], repeated_in(all));
        }
        if dup {
            let row = copy_row(&df.rows[i]);
            let ghost before = out@;
            out.push(row);
            assert(rows_view(out@) =~= rows_view(before).push(all[i as int]));
        }
        i += 1;
    }
    assert(all.take(df.rows@.len() as int) =~= all);
    Frame { columns: copy_row(&df.columns), rows: out }
}

/// `str::parse::<i64>`: the written integer when it fits an `i64`.
pub open spec fn i64_of(s: Seq<char>) -> Option<i64> {
    match int_of(s) {
        Some(v) => if i64::MIN <= v <= i64::MAX {
            Some(v as i64)
        } else {
            None
        },
        None => None,
    }
}

/// Parses a decimal `i64` (`str::parse::<i64>`): an optional sign, then
/// one or more ASCII digits, within range.
pub fn parse_i64(s: &str) -> (r: Option<i64>)
    ensures
        r == i64_of(s@),
{
    let cs = chars_of(s);
    let n = cs.len();
    if n == 0 {
        return None;
    }
    let signed = cs[0] == '-' || cs[0] == '+';
    let neg = cs[0] == '-';
    let start: usize = if signed {
        1
    } else {
        0
    };
    if start == n {
        return None;
    }
    let ghost d = cs@.skip(start as int);
    assert(!signed ==> d =~= s@);
    let mut v: i128 = 0;
    let mut i: usize = start;
    assert(d.take(0) =~= Seq::<char>::empty());
    while i < n
        invariant
            n == cs@.len(),
            cs@ == s@,
            start <= i <= n,
            start < n,
            d == cs@.skip(start as int),
            d.len() == n - start,
            signed == (s@[0] == '-' || s@[0] == '+'),
            neg == (s@[0] == '-'),
            signed ==> start == 1,
            !signed ==> start == 0 && d == s@,
            forall|q: int| 0 <= q < i - start ==> is_digit(#[trigger] d[q]),
            v == digits_value(d.take(i - start)),
            0 <= v <= 0x8000_0000_0000_0000,
        decreases n - i,
    {
        let c = cs[i];
        assert(d[i - start] == c);
        if !('0' <= c && c <= '9') {
            assert(!is_digit(d[i - start]));
            assert(!(forall|q: int| 0 <= q < d.len() ==> is_digit(#[trigger] d[q])));
            return None;
        }
        let dv = (c as u32 - '0' as u32) as i128;
        proof {
            assert(d.take(i - start + 1).drop_last() =~= d.take(i - start));
        }
        v = v * 10 + dv;
        i += 1;
        if v > 0x8000_0000_0000_0000 {
            proof {
                if forall|q: int| 0 <= q < d.len() ==> is_digit(#[trigger] d[q]) {
                    lemma_digits_grow(d, i - start);
                }
            }
            return None;
        }
    }
    assert(d.take(n - start) =~= d);
    assert(forall|q: int| 0 <= q < d.len() ==> is_digit(#[trigger] d[q]));
    assert(int_of(s@) == Some(if neg { -digits_value(d) } else { digits_value(d) }));
    if neg {
        Some((-v) as i64)
    } else if v > 0x7fff_ffff_ffff_ffff {
        None
    } else {
        Some(v as i64)
    }
}

/// Index of the first column named `name`, or -1.
pub open spec fn first_column(cols: Seq<Seq<char>>, name: Seq<char>) -> int
    decreases cols.len(),
{
    if cols.len() == 0 {
        -1
    } else {
        let r = first_column(cols.drop_last(), name);
        if r >= 0 {
            r
        } else if cols.last() == name {
            cols.len() - 1
        } else {
            -1
        }
    }
}

proof fn lemma_first_column_push(cols: Seq<Seq<char>>, x: Seq<char>, name: Seq<char>)
    ensures
        first_column(cols.push(x), name) == if first_column(cols, name) >= 0 {
            first_column(cols, name)
        } else if x == name {
            cols.len() as int
        } else {
            -1
        },
{
    assert(cols.push(x).drop_last() =~= cols);
}

proof fn lemma_first_column_range(cols: Seq<Seq<char>>, name: Seq<char>)
    ensures
        -1 <= first_column(cols, name) < cols.len(),
        first_column(cols, name) >= 0 ==> cols[first_column(cols, name)] == name,
    decreases cols.len(),
{
    if cols.len() > 0 {
        lemma_first_column_range(cols.drop_last(), name);
    }
}

/// Index of the first column named `name`.
pub fn column_index(df: &Frame, name: &str) -> (r: Option<usize>)
    ensures
        match r {
            Some(i) => first_column(cells_view(df.columns@), name@) == i,
            None => first_column(cells_view(df.columns@), name@) < 0,
        },
{
    let ghost cols = cells_view(df.columns@);
    let mut i: usize = 0;
    while i < df.columns.len()
        invariant
            i <= df.columns@.len(),
            cols == cells_view(df.columns@),
            first_column(cols.take(i as int), name@) < 0,
        decreases df.columns@.len() - i,
    {
        proof {
            assert(cols.take(i + 1) =~= cols.take(i as int).push(cols[i as int]));
            lemma_first_column_push(cols.take(i as int), cols[i as int], name@);
        }
        if str_eq(df.columns[i].as_str(), name) {
            proof {
                lemma_prefix_first(cols, i + 1, name@);
            }
            return Some(i);
        }
        i += 1;
    }
    assert(cols.take(df.columns@.len() as int) =~= cols);
    None
}

/// A first match found in a prefix stays the first match.
proof fn lemma_prefix_first(cols: Seq<Seq<char>>, k: int, name: Seq<char>)
    requires
        0 <= k <= cols.len(),
        first_column(cols.take(k), name) >= 0,
    ensures
        first_column(cols, name) == first_column(cols.take(k), name),
    decreases cols.len() - k,
{
    if k < cols.len() {
        assert(cols.take(k + 1) =~= cols.take(k).push(cols[k]));
        lemma_first_column_push(cols.take(k), cols[k], name);
        lemma_prefix_first(cols, k + 1, name);
    } else {
        assert(cols.take(k) =~= cols);
    }
}

/// The integers written in column `c` of `rows`; cells that do not read
/// as an `i64` (blank, text, decimals) are left out.
pub open spec fn column_numbers(rows: Seq<Seq<Seq<char>>>, c: int) -> Set<i64> {
    Set::new(
        |v: i64|
            exists|k: int|
                0 <= k < rows.len() && 0 <= c < rows[k].len() && #[trigger] i64_of(rows[k][c])
                    == Some(v),
    )
}

/// The numbers of `lo..=hi` that `present` lacks, ascending.
pub open spec fn missing(present: Set<i64>, lo: int, hi: int) -> Seq<i64>
    decreases hi - lo + 1,
{
    if hi < lo {
        Seq::empty()
    } else {
        missing(present, lo, hi - 1) + if present.contains(hi as i64) {
            Seq::empty()
        } else {
            seq![hi as i64]
        }
    }
}

/// The gaps of a number set: the numbers between its least and its
/// greatest element that it lacks (none for an empty set).
pub open spec fn gaps_of(present: Set<i64>, g: Seq<i64>) -> bool {
    if present =~= Set::empty() {
        g == Seq::<i64>::empty()
    } else {
        exists|lo: i64, hi: i64|
            #[trigger] present.contains(lo) && #[trigger] present.contains(hi) && (forall|v: i64|
                present.contains(v) ==> lo <= v <= hi) && g == missing(present, lo as int, hi as int)
    }
}

/// "열 '{col}' 을(를) 찾을 수 없습니다." — the error for an unknown column.
pub open spec fn no_column_text(col: Seq<char>) -> Seq<char> {
    "열 '"@ + col + "' 을(를) 찾을 수 없습니다."@
}

/// The error for an unknown column `col`.
pub fn no_column_message(col: &str) -> (r: String)
    ensures
        r@ == no_column_text(col@),
{
    let mut e = to_string("열 '");
    crate::text::push_str(&mut e, col);
    crate::text::push_str(&mut e, "' 을(를) 찾을 수 없습니다.");
    e
}

/// Gap detection on column `col`: the numbers missing between the least
/// and the greatest number of the column, ascending — missing vouchers or
/// invoices, a sign of omission or concealment. An error when the frame
/// has no such column.
pub fn detect_gaps(df: &Frame, col: &str) -> (r: Result<Vec<i64>, String>)
    ensures
        match r {
            Ok(g) => {
                let c = first_column(cells_view(df.columns@), col@);
                c >= 0 && gaps_of(column_numbers(rows_view(df.rows@), c), g@)
            },
            Err(e) => first_column(cells_view(df.columns@), col@) < 0 && e@ == no_column_text(
                col@,
            ),
        },
{
    let c = match column_index(df, col) {
        Some(c) => c,
        None => {
            return Err(no_column_message(col));
        },
    };
    let ghost rows = rows_view(df.rows@);
    let mut present: BTreeSet<i64> = BTreeSet::new();
    let mut lo: i64 = 0;
    let mut hi: i64 = 0;
    let mut any = false;
    let mut k: usize = 0;
    while k < df.rows.len()
        invariant
            k <= df.rows@.len(),
            rows == rows_view(df.rows@),
            present@ == column_numbers(rows.take(k as int), c as int),
            any ==> present@.contains(lo) && present@.contains(hi),
            any ==> forall|v: i64| present@.contains(v) ==> lo <= v <= hi,
            !any ==> present@ =~= Set::empty(),
        decreases df.rows@.len() - k,
    {
        let row = &df.rows[k];
        let ghost before = present@;
        let mut got: Option<i64> = None;
        if c < row.len() {
            got = parse_i64(row[c].as_str());
        }
        match got {
            Some(v) => {
                present.insert(v);
                if !any {
                    lo = v;
                    hi = v;
                    any = true;
                } else {
                    if v < lo {
                        lo = v;
                    }
                    if v > hi {
                        hi = v;
                    }
                }
            },
            None => {},
        }
        proof {
            let t0 = rows.take(k as int);
            let t1 = rows.take(k + 1);
            assert(t1 =~= t0.push(rows[k as int]));
            assert(rows[k as int] == cells_view(row@));
            assert forall|v: i64| #[trigger] present@.contains(v) == column_numbers(t1, c as int).contains(v) by {
                if column_numbers(t1, c as int).contains(v) {
                    let q = choose|q: int|
                        0 <= q < t1.len() && 0 <= c < t1[q].len() && #[trigger] i64_of(t1[q][c as int])
                            == Some(v);
                    if q < k {
                        assert(t0[q] == t1[q]);
                        assert(column_numbers(t0, c as int).contains(v));
                    }
                }
                if before.contains(v) {
                    let q = choose|q: int|
                        0 <= q < t0.len() && 0 <= c < t0[q].len() && #[trigger] i64_of(t0[q][c as int])
                            == Some(v);
                    assert(t1[q] == t0[q]);
                }
                if got == Some(v) {
                    assert(i64_of(t1[k as int][c as int]) == Some(v));
                }
            }
            assert(present@ =~= column_numbers(t1, c as int));
        }
        k += 1;
    }
    assert(rows.take(df.rows@.len() as int) =~= rows);
    let mut gaps: Vec<i64> = Vec::new();
    if !any {
        return Ok(gaps);
    }
    let mut n: i64 = lo;
    loop
        invariant_except_break
            lo <= n <= hi,
            gaps@ == missing(present@, lo as int, n - 1),
        invariant
            present@.contains(lo) && present@.contains(hi),
            forall|v: i64| present@.contains(v) ==> lo <= v <= hi,
        ensures
            gaps@ == missing(present@, lo as int, hi as int),
        decreases hi - n,
    {
        if !present.contains(&n) {
            gaps.push(n);
        }
        assert(gaps@ =~= missing(present@, lo as int, n as int));
        if n == hi {
            break;
        }
        n = n + 1;
    }
    assert(present@.contains(lo) && present@.contains(hi));
    Ok(gaps)
}

/// A gap scan reports exactly the numbers of `lo..=hi` that are absent,
/// each once, ascending.
pub proof fn law_gaps_are_the_absent_numbers(present: Set<i64>, lo: i64, hi: i64)
    ensures
        forall|i: int, j: int|
            0 <= i < j < missing(present, lo as int, hi as int).len() ==> #[trigger] missing(
                present,
                lo as int,
                hi as int,
            )[i] < #[trigger] missing(present, lo as int, hi as int)[j],
        forall|i: int|
            0 <= i < missing(present, lo as int, hi as int).len() ==> lo <= #[trigger] missing(
                present,
                lo as int,
                hi as int,
            )[i] <= hi && !present.contains(missing(present, lo as int, hi as int)[i]),
        forall|v: i64|
            lo <= v <= hi && !present.contains(v) ==> #[trigger] missing(
                present,
                lo as int,
                hi as int,
            ).contains(v),
    decreases hi - lo + 1,
{
    if hi >= lo {
        if hi > lo {
            law_gaps_are_the_absent_numbers(present, lo, (hi - 1) as i64);
        }
        let m0 = missing(present, lo as int, hi - 1);
        let m = missing(present, lo as int, hi as int);
        assert(hi > lo ==> m0 == missing(present, lo as int, (hi - 1) as i64 as int));
        assert(hi == lo ==> m0 =~= Seq::<i64>::empty());
        assert(forall|i: int| 0 <= i < m0.len() ==> m[i] == m0[i]);
        assert forall|v: i64| lo <= v <= hi && !present.contains(v) implies #[trigger] m.contains(v) by {
            if v == hi {
                assert(m[m.len() - 1] == v);
            } else {
                assert(missing(present, lo as int, (hi - 1) as i64 as int).contains(v));
                assert(m0.contains(v));
                let i = choose|i: int| 0 <= i < m0.len() && m0[i] == v;
                assert(m[i] == v);
            }
        }
    }
}

} // verus!
