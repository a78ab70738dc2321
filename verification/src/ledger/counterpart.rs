//! Counterpart extraction: the vouchers that hold a target account, each of
//! their rows labelled by direction. The target's side in a voucher (debit
//! or credit) decides which rows are its true counterparts; rows on the
//! target's own side are side entries of a compound voucher. Each row also
//! carries whether its voucher balances.
//!
//! The amounts themselves are read by the caller, which hands over, per row,
//! whether the debit and the credit are positive, the row's net amount as
//! text, and whether its voucher's net sum is off zero.

use vstd::prelude::*;
use vstd::hash_map::StringHashMap;
use crate::domain::table::{cells_view, rows_view, lemma_cells_push};
use crate::ledger::analysis::{column_index, first_column, no_column_message, no_column_text};
use crate::ledger::frame::Frame;
use crate::text::{str_eq, to_string};

verus! {

broadcast use vstd::string::group_string_axioms;

/// What the caller read from the amounts of one row.
pub struct RowAmounts {
    /// The debit amount is positive (beyond the tolerance).
    pub debit: bool,
    /// The credit amount is positive (beyond the tolerance).
    pub credit: bool,
    /// The row's debit minus credit, as text.
    pub net: String,
    /// The net sum of the row's voucher is off zero (beyond the tolerance).
    pub unbalanced: bool,
}

/// The role of a row in a voucher that holds the target account.
#[derive(Debug, Clone, Copy, PartialEq, Eq)]
pub enum EntryRole {
    /// A row of the target account.
    Target,
    /// A row on the side opposite to the target's: a true counterpart.
    TrueCounterpart,
    /// Any other row of the voucher.
    SideEntry,
}

impl EntryRole {
    pub open spec fn label_spec(self) -> Seq<char> {
        match self {
            EntryRole::Target => "TARGET"@,
            EntryRole::TrueCounterpart => "TRUE_COUNTERPART"@,
            EntryRole::SideEntry => "SIDE_ENTRY"@,
        }
    }

    /// The label written in the `entry_role` column.
    pub fn label(&self) -> (r: &'static str)
        ensures
            r@ == self.label_spec(),
    {
        match self {
            EntryRole::Target => "TARGET",
            EntryRole::TrueCounterpart => "TRUE_COUNTERPART",
            EntryRole::SideEntry => "SIDE_ENTRY",
        }
    }
}

/// The text in the `integrity_check` column.
pub open spec fn check_label(unbalanced: bool) -> Seq<char> {
    if unbalanced {
        "Error: Trial Balance Mismatch"@
    } else {
        "Verified"@
    }
}

/// Cell `c` of a row, empty past its end.
pub open spec fn cell_at(row: Seq<Seq<char>>, c: int) -> Seq<char> {
    if 0 <= c < row.len() {
        row[c]
    } else {
        Seq::empty()
    }
}

/// The side of a target row: 2 for debit, 1 for credit, 0 for neither
/// (so that the larger code wins, debit over credit).
pub open spec fn side_code(a: RowAmounts) -> u8 {
    if a.debit {
        2
    } else if a.credit {
        1
    } else {
        0
    }
}

/// Among the first `n` rows, the largest side code of the target rows of
/// voucher `vo`; `None` when the voucher has no target row there.
pub open spec fn voucher_side(
    rows: Seq<Seq<Seq<char>>>,
    amts: Seq<RowAmounts>,
    acc: int,
    vc: int,
    target: Seq<char>,
    vo: Seq<char>,
    n: int,
) -> Option<u8>
    decreases n,
{
    if n <= 0 {
        None
    } else {
        let prev = voucher_side(rows, amts, acc, vc, target, vo, n - 1);
        if cell_at(rows[n - 1], vc) == vo && cell_at(rows[n - 1], acc) == target {
            let c = side_code(amts[n - 1]);
            match prev {
                Some(p) => Some(if p < c { c } else { p }),
                None => Some(c),
            }
        } else {
            prev
        }
    }
}

/// The role of row `i`, the voucher sides read over all rows.
pub open spec fn role_of(
    rows: Seq<Seq<Seq<char>>>,
    amts: Seq<RowAmounts>,
    acc: int,
    vc: int,
    target: Seq<char>,
    i: int,
) -> EntryRole {
    if cell_at(rows[i], acc) == target {
        EntryRole::Target
    } else {
        match voucher_side(rows, amts, acc, vc, target, cell_at(rows[i], vc), rows.len() as int) {
            Some(s) => if (s == 2 && amts[i].credit) || (s == 1 && amts[i].debit) {
                EntryRole::TrueCounterpart
            } else {
                EntryRole::SideEntry
            },
            None => EntryRole::SideEntry,
        }
    }
}

/// A row cut or padded with empty cells to `w` cells.
pub open spec fn fitted_cells(row: Seq<Seq<char>>, w: int) -> Seq<Seq<char>> {
    Seq::new(w as nat, |k: int| cell_at(row, k))
}

/// The output row of row `i`: its cells, its net amount, its role and its
/// voucher's check.
pub open spec fn counterpart_row(
    rows: Seq<Seq<Seq<char>>>,
    amts: Seq<RowAmounts>,
    acc: int,
    vc: int,
    target: Seq<char>,
    w: int,
    i: int,
) -> Seq<Seq<char>> {
    fitted_cells(rows[i], w) + seq![
        amts[i].net@,
        role_of(rows, amts, acc, vc, target, i).label_spec(),
        check_label(amts[i].unbalanced),
    ]
}

/// The output rows for the first `n` rows: those whose voucher holds a
/// target row (anywhere), in order.
pub open spec fn counterpart_rows(
    rows: Seq<Seq<Seq<char>>>,
    amts: Seq<RowAmounts>,
    acc: int,
    vc: int,
    target: Seq<char>,
    w: int,
    n: int,
) -> Seq<Seq<Seq<char>>>
    decreases n,
{
    if n <= 0 {
        Seq::empty()
    } else {
        let prev = counterpart_rows(rows, amts, acc, vc, target, w, n - 1);
        if voucher_side(rows, amts, acc, vc, target, cell_at(rows[n - 1], vc), rows.len() as int)
            is Some {
            prev.push(counterpart_row(rows, amts, acc, vc, target, w, n - 1))
        } else {
            prev
        }
    }
}

/// The names of the three columns the extraction adds.
pub open spec fn added_columns() -> Seq<Seq<char>> {
    seq!["_net"@, "entry_role"@, "integrity_check"@]
}

/// Cell `c` of a row, or an empty string past its end.
fn cell_text(row: &Vec<String>, c: usize) -> (r: String)
    ensures
        r@ == cell_at(cells_view(row@), c as int),
{
    if c < row.len() {
        to_string(row[c].as_str())
    } else {
        String::new()
    }
}

/// The row cut or padded to `w` cells.
fn fitted_row(row: &Vec<String>, w: usize) -> (r: Vec<String>)
    ensures
        cells_view(r@) == fitted_cells(cells_view(row@), w as int),
{
    let mut r: Vec<String> = Vec::new();
    let mut k: usize = 0;
    while k < w
        invariant
            k <= w,
            cells_view(r@) == fitted_cells(cells_view(row@), w as int).take(k as int),
        decreases w - k,
    {
        let c = cell_text(row, k);
        let ghost before = r@;
        r.push(c);
        proof {
            lemma_cells_push(before, c);
            assert(fitted_cells(cells_view(row@), w as int).take(k + 1) =~= fitted_cells(
                cells_view(row@),
                w as int,
            ).take(k as int).push(c@));
        }
        k += 1;
    }
    assert(fitted_cells(cells_view(row@), w as int).take(w as int) =~= fitted_cells(
        cells_view(row@),
        w as int,
    ));
    r
}

/// The side code of each voucher that holds a target row.
fn voucher_sides(df: &Frame, acc: usize, vc: usize, target: &str, amounts: &[RowAmounts]) -> (r:
    StringHashMap<u8>)
    requires
        amounts@.len() == df.rows@.len(),
    ensures
        forall|vo: Seq<char>|
            #![trigger r@.contains_key(vo)]
            {
                let s = voucher_side(
                    rows_view(df.rows@),
                    amounts@,
                    acc as int,
                    vc as int,
                    target@,
                    vo,
                    df.rows@.len() as int,
                );
                &&& r@.contains_key(vo) == s is Some
                &&& r@.contains_key(vo) ==> s == Some(r@[vo])
            },
{
    let ghost rows = rows_view(df.rows@);
    let mut m: StringHashMap<u8> = StringHashMap::new();
    let mut i: usize = 0;
    while i < df.rows.len()
        invariant
            i <= df.rows@.len(),
            amounts@.len() == df.rows@.len(),
            rows == rows_view(df.rows@),
            forall|vo: Seq<char>|
                #![trigger m@.contains_key(vo)]
                {
                    let s = voucher_side(rows, amounts@, acc as int, vc as int, target@, vo, i as int);
                    &&& m@.contains_key(vo) == s is Some
                    &&& m@.contains_key(vo) ==> s == Some(m@[vo])
                },
        decreases df.rows@.len() - i,
    {
        let row = &df.rows[i];
        assert(cells_view(row@) == rows[i as int]);
        let a = cell_text(row, acc);
        if str_eq(a.as_str(), target) {
            let vo = cell_text(row, vc);
            let c: u8 = if amounts[i].debit {
                2
            } else if amounts[i].credit {
                1
            } else {
                0
            };
            let ghost old_m = m@;
            let next: u8 = match m.get(vo.as_str()) {
                Some(p) => if *p < c {
                    c
                } else {
                    *p
                },
                None => c,
            };
            m.insert(vo, next);
            assert forall|v: Seq<char>| #![trigger m@.contains_key(v)] {
                let s = voucher_side(rows, amounts@, acc as int, vc as int, target@, v, i + 1);
                &&& m@.contains_key(v) == s is Some
                &&& m@.contains_key(v) ==> s == Some(m@[v])
            } by {
                assert(old_m.contains_key(v) ==> old_m.contains_key(v));
                if v != vo@ {
                    assert(m@.contains_key(v) == old_m.contains_key(v));
                }
            }
        }
        i += 1;
    }
    m
}

/// The rows of the vouchers that hold a row of account `target`, with the
/// columns `_net`, `entry_role` and `integrity_check` added; the amounts of
/// row `i` are read in `amounts[i]`. Fails when the account or the voucher
/// column is missing (the account column is looked up first).
pub fn counterpart_frame(
    df: &Frame,
    account: &str,
    voucher: &str,
    target: &str,
    amounts: &[RowAmounts],
) -> (r: Result<Frame, String>)
    requires
        amounts@.len() == df.rows@.len(),
    ensures
        ({
            let cols = cells_view(df.columns@);
            let acc = first_column(cols, account@);
            let vc = first_column(cols, voucher@);
            match r {
                Err(e) => if acc < 0 {
                    e@ == no_column_text(account@)
                } else {
                    vc < 0 && e@ == no_column_text(voucher@)
                },
                Ok(f) => {
                    &&& acc >= 0 && vc >= 0
                    &&& cells_view(f.columns@) == cols + added_columns()
                    &&& rows_view(f.rows@) == counterpart_rows(
                        rows_view(df.rows@),
                        amounts@,
                        acc,
                        vc,
                        target@,
                        cols.len() as int,
                        df.rows@.len() as int,
                    )
                },
            }
        }),
{
    let acc = match column_index(df, account) {
        Some(a) => a,
        None => {
            return Err(no_column_message(account));
        },
    };
    let vc = match column_index(df, voucher) {
        Some(v) => v,
        None => {
            return Err(no_column_message(voucher));
        },
    };
    let ghost rows = rows_view(df.rows@);
    let ghost n = df.rows@.len() as int;
    let w = df.columns.len();
    let sides = voucher_sides(df, acc, vc, target, amounts);
    let mut columns: Vec<String> = Vec::new();
    let mut k: usize = 0;
    while k < df.columns.len()
        invariant
            k <= df.columns@.len(),
            cells_view(columns@) == cells_view(df.columns@).take(k as int),
        decreases df.columns@.len() - k,
    {
        let c = to_string(df.columns[k].as_str());
        let ghost before = columns@;
        columns.push(c);
        proof {
            lemma_cells_push(before, c);
            assert(cells_view(df.columns@).take(k + 1) =~= cells_view(df.columns@).take(
                k as int,
            ).push(c@));
        }
        k += 1;
    }
    assert(cells_view(df.columns@).take(df.columns@.len() as int) =~= cells_view(df.columns@));
    let ghost c0 = columns@;
    let t0 = to_string("_net");
    columns.push(t0);
    let t1 = to_string("entry_role");
    columns.push(t1);
    let t2 = to_string("integrity_check");
    columns.push(t2);
    proof {
        lemma_cells_push(c0, t0);
        lemma_cells_push(c0.push(t0), t1);
        lemma_cells_push(c0.push(t0).push(t1), t2);
        assert(cells_view(columns@) =~= cells_view(df.columns@) + added_columns());
    }
    let mut out: Vec<Vec<String>> = Vec::new();
    let mut i: usize = 0;
    while i < df.rows.len()
        invariant
            i <= df.rows@.len(),
            amounts@.len() == df.rows@.len(),
            rows == rows_view(df.rows@),
            n == df.rows@.len(),
            w == df.columns@.len(),
            forall|vo: Seq<char>|
                #![trigger sides@.contains_key(vo)]
                {
                    let s = voucher_side(rows, amounts@, acc as int, vc as int, target@, vo, n);
                    &&& sides@.contains_key(vo) == s is Some
                    &&& sides@.contains_key(vo) ==> s == Some(sides@[vo])
                },
            rows_view(out@) == counterpart_rows(
                rows,
                amounts@,
                acc as int,
                vc as int,
                target@,
                w as int,
                i as int,
            ),
        decreases df.rows@.len() - i,
    {
        let row = &df.rows[i];
        assert(cells_view(row@) == rows[i as int]);
        let vo = cell_text(row, vc);
        let ghost vs = voucher_side(rows, amounts@, acc as int, vc as int, target@, vo@, n);
        assert(sides@.contains_key(vo@) == vs is Some);
        match sides.get(vo.as_str()) {
            Some(s) => {
                let a = cell_text(row, acc);
                let role = if str_eq(a.as_str(), target) {
                    EntryRole::Target
                } else if (*s == 2 && amounts[i].credit) || (*s == 1 && amounts[i].debit) {
                    EntryRole::TrueCounterpart
                } else {
                    EntryRole::SideEntry
                };
                assert(role == role_of(rows, amounts@, acc as int, vc as int, target@, i as int));
                let mut r = fitted_row(row, w);
                let ghost r0 = r@;
                let net = to_string(amounts[i].net.as_str());
                r.push(net);
                let rl = to_string(role.label());
                r.push(rl);
                let ck = if amounts[i].unbalanced {
                    to_string("Error: Trial Balance Mismatch")
                } else {
                    to_string("Verified")
                };
                r.push(ck);
                proof {
                    lemma_cells_push(r0, net);
                    lemma_cells_push(r0.push(net), rl);
                    lemma_cells_push(r0.push(net).push(rl), ck);
                    assert(cells_view(r@) =~= counterpart_row(
                        rows,
                        amounts@,
                        acc as int,
                        vc as int,
                        target@,
                        w as int,
                        i as int,
                    ));
                }
                let ghost before = out@;
                out.push(r);
                proof {
                    assert(rows_view(out@) =~= rows_view(before).push(cells_view(r@)));
                }
            },
            None => {},
        }
        i += 1;
    }
    Ok(Frame { columns, rows: out })
}

} // verus!
