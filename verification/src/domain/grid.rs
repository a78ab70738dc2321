//! Row/column bookkeeping shared by the tables that turn (row name, period,
//! text) entries into a name × period grid: rows in order of first
//! appearance, columns newest period first, the last entry for a cell wins.

use vstd::prelude::*;
use crate::domain::fact::desc_of;
use crate::text::{str_eq, to_string};
use crate::seqs::distinct;

verus! {

broadcast use vstd::string::group_string_axioms;

/// Indices `i < n` whose name does not occur before `i`, in order.
pub open spec fn first_occurrences<K>(names: Seq<K>, n: int) -> Seq<int>
    decreases n,
{
    if n <= 0 {
        Seq::empty()
    } else {
        let r = first_occurrences(names, n - 1);
        if forall|j: int| 0 <= j < n - 1 ==> #[trigger] names[j] != names[n - 1] {
            r.push(n - 1)
        } else {
            r
        }
    }
}

/// The names at the given indices.
pub open spec fn names_at<K>(names: Seq<K>, idx: Seq<int>) -> Seq<K> {
    idx.map_values(|a: int| names[a])
}

/// What [`first_occurrences`] picks: increasing indices below `n`, with
/// pairwise different names, such that every name among the first `n`
/// is the name at one of them.
pub proof fn lemma_first_occurrences<K>(names: Seq<K>, n: int)
    requires
        0 <= n <= names.len(),
    ensures
        forall|a: int, b: int|
            0 <= a < b < first_occurrences(names, n).len() ==> first_occurrences(names, n)[a]
                < first_occurrences(names, n)[b],
        forall|a: int|
            0 <= a < first_occurrences(names, n).len() ==> 0 <= #[trigger] first_occurrences(
                names,
                n,
            )[a] < n,
        distinct(names_at(names, first_occurrences(names, n))),
        forall|i: int|
            0 <= i < n ==> names_at(names, first_occurrences(names, n)).contains(#[trigger] names[i]),
    decreases n,
{
    if n > 0 {
        let r = first_occurrences(names, n - 1);
        lemma_first_occurrences(names, n - 1);
        let fo = first_occurrences(names, n);
        if forall|j: int| 0 <= j < n - 1 ==> #[trigger] names[j] != names[n - 1] {
            assert(fo == r.push(n - 1));
            assert(names_at(names, fo) == names_at(names, r).push(names[n - 1]));
            assert forall|a: int, b: int|
                0 <= a < b < names_at(names, fo).len() implies names_at(names, fo)[a] != names_at(
                names,
                fo,
            )[b] by {
                if b == r.len() {
                    assert(0 <= r[a] < n - 1);
                    assert(names[r[a]] != names[n - 1]);
                } else {
                    assert(names_at(names, r)[a] != names_at(names, r)[b]);
                }
            }
            assert forall|i: int| 0 <= i < n implies names_at(names, fo).contains(
                #[trigger] names[i],
            ) by {
                if i == n - 1 {
                    assert(names_at(names, fo)[r.len() as int] == names[i]);
                } else {
                    assert(names_at(names, r).contains(names[i]));
                    let a = choose|a: int|
                        0 <= a < names_at(names, r).len() && names_at(names, r)[a] == names[i];
                    assert(names_at(names, fo)[a] == names[i]);
                }
            }
        } else {
            assert(fo == r);
            let j = choose|j: int| 0 <= j < n - 1 && !(#[trigger] names[j] != names[n - 1]);
            assert(names_at(names, r).contains(names[j]));
        }
    }
}

/// The text of the last entry among the first `n` with this name and period.
pub open spec fn last_text(
    names: Seq<Seq<char>>,
    periods: Seq<i32>,
    texts: Seq<Seq<char>>,
    name: Seq<char>,
    y: i32,
    n: int,
) -> Option<Seq<char>>
    decreases n,
{
    if n <= 0 {
        None
    } else if names[n - 1] == name && periods[n - 1] == y {
        Some(texts[n - 1])
    } else {
        last_text(names, periods, texts, name, y, n - 1)
    }
}

/// The cells of the row named `name`: one per year, the last entry's text,
/// or `missing` when there is none.
pub open spec fn row_cells(
    names: Seq<Seq<char>>,
    periods: Seq<i32>,
    texts: Seq<Seq<char>>,
    name: Seq<char>,
    years: Seq<i32>,
    missing: Seq<char>,
) -> Seq<Seq<char>> {
    years.map_values(
        |y: i32|
            match last_text(names, periods, texts, name, y, names.len() as int) {
                Some(t) => t,
                None => missing,
            },
    )
}

pub open spec fn strs_view(v: Seq<&'static str>) -> Seq<Seq<char>> {
    v.map_values(|s: &'static str| s@)
}

pub open spec fn strings_view(v: Seq<String>) -> Seq<Seq<char>> {
    v.map_values(|s: String| s@)
}

/// Indices of first occurrences of each name.
pub fn first_rows(names: &Vec<&'static str>) -> (r: Vec<usize>)
    ensures
        r@.map_values(|i: usize| i as int) == first_occurrences(
            strs_view(names@),
            names@.len() as int,
        ),
        forall|k: int| 0 <= k < r@.len() ==> r@[k] < names@.len(),
{
    let ghost nv = strs_view(names@);
    let mut r: Vec<usize> = Vec::new();
    let mut i: usize = 0;
    while i < names.len()
        invariant
            i <= names@.len(),
            nv == strs_view(names@),
            r@.map_values(|i: usize| i as int) == first_occurrences(nv, i as int),
            forall|k: int| 0 <= k < r@.len() ==> r@[k] < i,
        decreases names@.len() - i,
    {
        let mut j: usize = 0;
        let mut seen = false;
        while j < i
            invariant
                j <= i < names@.len(),
                nv == strs_view(names@),
                !seen ==> forall|q: int| 0 <= q < j ==> nv[q] != nv[i as int],
                seen ==> exists|q: int| 0 <= q < i && nv[q] == nv[i as int],
            decreases i - j,
        {
            if !seen && str_eq(names[j], names[i]) {
                seen = true;
                assert(nv[j as int] == nv[i as int]);
            }
            j += 1;
        }
        let ghost before = r@;
        if !seen {
            r.push(i);
            assert(r@.map_values(|i: usize| i as int) =~= before.map_values(|i: usize| i as int).push(
                i as int,
            ));
        }
        i += 1;
    }
    r
}

/// Text of the last entry with this name and period, or `missing`.
pub fn last_cell(
    names: &Vec<&'static str>,
    periods: &Vec<i32>,
    texts: &Vec<String>,
    name: &str,
    y: i32,
    missing: &str,
) -> (r: String)
    requires
        periods@.len() == names@.len(),
        texts@.len() == names@.len(),
    ensures
        r@ == match last_text(
            strs_view(names@),
            periods@,
            strings_view(texts@),
            name@,
            y,
            names@.len() as int,
        ) {
            Some(t) => t,
            None => missing@,
        },
{
    let ghost nv = strs_view(names@);
    let ghost tv = strings_view(texts@);
    let mut k = names.len();
    while k > 0
        invariant
            k <= names@.len(),
            periods@.len() == names@.len(),
            texts@.len() == names@.len(),
            nv == strs_view(names@),
            tv == strings_view(texts@),
            last_text(nv, periods@, tv, name@, y, names@.len() as int) == last_text(
                nv,
                periods@,
                tv,
                name@,
                y,
                k as int,
            ),
        decreases k,
    {
        if periods[k - 1] == y && str_eq(names[k - 1], name) {
            return texts[k - 1].clone();
        }
        k -= 1;
    }
    to_string(missing)
}

/// The cells of one row, one per year.
pub fn cells_for(
    names: &Vec<&'static str>,
    periods: &Vec<i32>,
    texts: &Vec<String>,
    name: &str,
    years: &Vec<i32>,
    missing: &str,
) -> (r: Vec<String>)
    requires
        periods@.len() == names@.len(),
        texts@.len() == names@.len(),
    ensures
        strings_view(r@) == row_cells(
            strs_view(names@),
            periods@,
            strings_view(texts@),
            name@,
            years@,
            missing@,
        ),
{
    let mut out: Vec<String> = Vec::new();
    let mut i: usize = 0;
    while i < years.len()
        invariant
            i <= years@.len(),
            out@.len() == i,
            periods@.len() == names@.len(),
            texts@.len() == names@.len(),
            strings_view(out@) == row_cells(
                strs_view(names@),
                periods@,
                strings_view(texts@),
                name@,
                years@.take(i as int),
                missing@,
            ),
        decreases years@.len() - i,
    {
        let c = last_cell(names, periods, texts, name, years[i], missing);
        let ghost old_out = out@;
        let ghost prev = row_cells(
            strs_view(names@),
            periods@,
            strings_view(texts@),
            name@,
            years@.take(i as int),
            missing@,
        );
        out.push(c);
        proof {
            let rc = row_cells(
                strs_view(names@),
                periods@,
                strings_view(texts@),
                name@,
                years@.take(i + 1),
                missing@,
            );
            assert forall|k: int| 0 <= k < i + 1 implies strings_view(out@)[k] == rc[k] by {
                if k < i {
                    assert(out@[k] == old_out[k]);
                    assert(years@.take(i + 1)[k] == years@.take(i as int)[k]);
                    assert(strings_view(old_out)[k] == prev[k]);
                } else {
                    assert(years@.take(i + 1)[k] == years@[i as int]);
                }
            }
            assert(strings_view(out@) =~= rc);
        }
        i += 1;
    }
    assert(years@.take(years@.len() as int) =~= years@);
    out
}

} // verus!
