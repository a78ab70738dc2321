//! Ledger analysis: the import grid, its preview, and the dataset store
//! that holds every import and analysis result.

pub mod analysis;
pub mod counterpart;
pub mod frame;
pub mod import;
pub mod store;

use vstd::prelude::*;
use crate::domain::table::{Table, cells_view, lemma_cells_push, rows_view};
use crate::ledger::analysis::{detect_gaps, find_duplicates, first_column, gaps_of, column_numbers, keep_repeated, no_column_text};
use crate::ledger::frame::Frame;
use crate::ledger::store::{DatasetStore, LedgerDataset, ds_id};
use crate::text::{i64_text, int_text, push_str, str_eq, to_string};

verus! {

/// Rows shown at the head (and at the tail) of an import preview.
pub const PREVIEW_ROWS: usize = 20;

/// The ledger tools' state: the raw grid of the file being imported and
/// the dataset store.
pub struct LedgerState {
    pub grid: Option<Vec<Vec<String>>>,
    pub store: DatasetStore,
}

impl LedgerState {
    /// No grid and an empty store.
    pub fn new() -> (r: LedgerState)
        ensures
            r.grid is None,
            r.store.wf(),
            r.store.ids().len() == 0,
            r.store.active() is None,
    {
        LedgerState { grid: None, store: DatasetStore::new() }
    }
}

/// What the import wizard shows of a raw grid: its first rows, its last
/// rows with the index of the first of them, and the number of rows.
pub struct Preview {
    pub rows: Vec<Vec<String>>,
    pub tail_rows: Vec<Vec<String>>,
    pub tail_start: usize,
    pub total: usize,
}

/// An analysis result: the table to show and the id of the dataset that
/// now holds it.
pub struct ImportResult {
    pub table: Table,
    pub dataset_id: String,
}

pub(crate) fn copy_row(row: &Vec<String>) -> (r: Vec<String>)
    ensures
        cells_view(r@) == cells_view(row@),
{
    let mut r: Vec<String> = Vec::new();
    let mut i: usize = 0;
    while i < row.len()
        invariant
            i <= row@.len(),
            cells_view(r@) == cells_view(row@).take(i as int),
        decreases row@.len() - i,
    {
        let c = row[i].clone();
        let ghost before = r@;
        r.push(c);
        proof {
            crate::domain::table::lemma_cells_push(before, c);
            assert(cells_view(row@).take(i + 1) =~= cells_view(row@).take(i as int).push(row@[i as int]@));
        }
        i += 1;
    }
    assert(cells_view(row@).take(row@.len() as int) =~= cells_view(row@));
    r
}

/// Copies of the rows `from..to` of `grid`.
pub(crate) fn copy_rows(grid: &Vec<Vec<String>>, from: usize, to: usize) -> (r: Vec<Vec<String>>)
    requires
        from <= to <= grid@.len(),
    ensures
        rows_view(r@) == rows_view(grid@).subrange(from as int, to as int),
{
    let mut r: Vec<Vec<String>> = Vec::new();
    let mut i: usize = from;
    while i < to
        invariant
            from <= i <= to <= grid@.len(),
            r@.len() == i - from,
            rows_view(r@) == rows_view(grid@).subrange(from as int, i as int),
        decreases to - i,
    {
        let row = copy_row(&grid[i]);
        let ghost before = r@;
        let ghost rv = row;
        r.push(row);
        assert(rows_view(r@) =~= rows_view(grid@).subrange(from as int, i + 1)) by {
            assert(before.len() == i - from);
            assert forall|k: int| 0 <= k < r@.len() implies #[trigger] rows_view(r@)[k] == rows_view(
                grid@,
            ).subrange(from as int, i + 1)[k] by {
                if k < before.len() {
                    assert(r@[k] == before[k]);
                    assert(rows_view(before)[k] == rows_view(grid@).subrange(from as int, i as int)[k]);
                } else {
                    assert(r@[k] == rv);
                    assert(cells_view(rv@) == cells_view(grid@[i as int]@));
                }
            }
        }
        i += 1;
    }
    r
}

/// The preview of a raw grid: its first [`PREVIEW_ROWS`] rows, and its
/// last [`PREVIEW_ROWS`] rows starting at `len − PREVIEW_ROWS` (0 when the
/// grid is shorter).
pub fn preview_of(grid: &Vec<Vec<String>>) -> (r: Preview)
    ensures
        r.total == grid@.len(),
        r.tail_start == if grid@.len() > PREVIEW_ROWS {
            grid@.len() - PREVIEW_ROWS
        } else {
            0
        },
        rows_view(r.rows@) == rows_view(grid@).take(
            if grid@.len() < PREVIEW_ROWS {
                grid@.len() as int
            } else {
                PREVIEW_ROWS as int
            },
        ),
        rows_view(r.tail_rows@) == rows_view(grid@).skip(r.tail_start as int),
{
    let len = grid.len();
    let ts = len.saturating_sub(PREVIEW_ROWS);
    let head_end = if len < PREVIEW_ROWS {
        len
    } else {
        PREVIEW_ROWS
    };
    let rows = copy_rows(grid, 0, head_end);
    let tail_rows = copy_rows(grid, ts, len);
    assert(rows_view(grid@).subrange(0, head_end as int) =~= rows_view(grid@).take(head_end as int));
    assert(rows_view(grid@).subrange(ts as int, len as int) =~= rows_view(grid@).skip(ts as int));
    Preview { rows, tail_rows, tail_start: ts, total: len }
}

/// "데이터셋 '{id}'을 찾을 수 없습니다." — the error for an unknown dataset id.
pub fn not_found(id: &str) -> (r: String)
    ensures
        r@ == "데이터셋 '"@ + id@ + "'을 찾을 수 없습니다."@,
{
    let mut s = to_string("데이터셋 '");
    push_str(&mut s, id);
    push_str(&mut s, "'을 찾을 수 없습니다.");
    s
}

/// The data an analysis runs on: the dataset `dataset_id` when one is
/// named, else the active dataset.
pub fn resolve_df<'a>(store: &'a DatasetStore, dataset_id: &Option<String>) -> (r: Result<
    &'a Frame,
    String,
>)
    requires
        store.wf(),
    ensures
        match dataset_id {
            Some(id) => match r {
                Ok(f) => store.entries().contains_key(id@) && *f == store.entries()[id@].df,
                Err(e) => !store.entries().contains_key(id@) && e@ == "데이터셋 '"@ + id@
                    + "'을 찾을 수 없습니다."@,
            },
            None => match r {
                Ok(f) => store.active() is Some && store.entries().contains_key(store.active()->0)
                    && *f == store.entries()[store.active()->0].df,
                Err(e) => store.active() is None && e@ == "먼저 파일을 가져오세요."@,
            },
        },
{
    match dataset_id {
        Some(id) => match store.get(id.as_str()) {
            Some(ds) => Ok(&ds.df),
            None => Err(not_found(id.as_str())),
        },
        None => match store.active_df() {
            Some(df) => Ok(df),
            None => Err(to_string("먼저 파일을 가져오세요.")),
        },
    }
}

/// The parent of an analysis result: the dataset named, else the active
/// one; an error when neither exists.
pub fn op_parent(store: &DatasetStore, dataset_id: &Option<String>) -> (r: Result<String, String>)
    ensures
        match dataset_id {
            Some(id) => r is Ok && r->Ok_0@ == id@,
            None => match store.active() {
                Some(a) => r is Ok && r->Ok_0@ == a,
                None => r is Err && r->Err_0@ == "먼저 파일을 가져오세요."@,
            },
        },
{
    match dataset_id {
        Some(id) => Ok(id.clone()),
        None => match store.active_id() {
            Some(a) => Ok(a.to_string()),
            None => Err(to_string("먼저 파일을 가져오세요.")),
        },
    }
}

/// The table of a dataset: its column names, then its rows.
pub fn to_table(df: &Frame) -> (r: Table)
    ensures
        cells_view(r.headers@) == cells_view(df.columns@),
        rows_view(r.rows@) == rows_view(df.rows@),
        r.keys@.len() == 0,
{
    let headers = copy_row(&df.columns);
    let rows = copy_rows(&df.rows, 0, df.rows.len());
    assert(rows_view(df.rows@).subrange(0, df.rows@.len() as int) =~= rows_view(df.rows@));
    Table { headers, rows, keys: Vec::new() }
}

/// An analysis of the ledger view.
pub enum LedgerOp {
    /// Rows that occur more than once.
    Duplicates,
    /// Numbers missing from a numbered column.
    Gaps { column: String },
    /// Leading-digit distribution of an amount column.
    Benford { column: String },
}

/// The analysis named `op` ("duplicates", "gaps", "benford"); the last two
/// need a column. An error for a missing column or an unknown name.
pub fn parse_op(op: &str, column: Option<String>) -> (r: Result<LedgerOp, String>)
    ensures
        op@ == "duplicates"@ ==> r matches Ok(LedgerOp::Duplicates),
        op@ == "gaps"@ ==> match column {
            Some(c) => (r matches Ok(LedgerOp::Gaps { column: k }) && k@ == c@),
            None => r is Err && r->Err_0@ == "열을 선택하세요."@,
        },
        op@ == "benford"@ ==> match column {
            Some(c) => (r matches Ok(LedgerOp::Benford { column: k }) && k@ == c@),
            None => r is Err && r->Err_0@ == "열을 선택하세요."@,
        },
        op@ != "duplicates"@ && op@ != "gaps"@ && op@ != "benford"@ ==> r is Err && r->Err_0@
            == "알 수 없는 분석: "@ + op@,
{
    proof {
        reveal_strlit("duplicates");
        reveal_strlit("gaps");
        reveal_strlit("benford");
        assert("gaps"@.len() != "duplicates"@.len());
        assert("benford"@.len() != "duplicates"@.len());
        assert("benford"@ != "gaps"@);
    }
    if str_eq(op, "duplicates") {
        Ok(LedgerOp::Duplicates)
    } else if str_eq(op, "gaps") {
        match column {
            Some(c) => Ok(LedgerOp::Gaps { column: c }),
            None => Err(to_string("열을 선택하세요.")),
        }
    } else if str_eq(op, "benford") {
        match column {
            Some(c) => Ok(LedgerOp::Benford { column: c }),
            None => Err(to_string("열을 선택하세요.")),
        }
    } else {
        let mut e = to_string("알 수 없는 분석: ");
        push_str(&mut e, op);
        Err(e)
    }
}

/// The decimal text of each number, one per row.
pub open spec fn gap_rows(gaps: Seq<i64>) -> Seq<Seq<Seq<char>>> {
    gaps.map_values(|n: i64| seq![int_text(n as int)])
}

/// The table of a gap scan: one column "누락 전표번호", one row per missing
/// number.
pub fn gaps_table(gaps: &Vec<i64>) -> (r: Table)
    ensures
        cells_view(r.headers@) == seq!["누락 전표번호"@],
        rows_view(r.rows@) == gap_rows(gaps@),
        r.keys@.len() == 0,
{
    let mut headers: Vec<String> = Vec::new();
    let h = to_string("누락 전표번호");
    headers.push(h);
    assert(cells_view(headers@) =~= seq!["누락 전표번호"@]);
    let mut rows: Vec<Vec<String>> = Vec::new();
    let mut i: usize = 0;
    while i < gaps.len()
        invariant
            i <= gaps@.len(),
            rows@.len() == i,
            rows_view(rows@) == gap_rows(gaps@.take(i as int)),
        decreases gaps@.len() - i,
    {
        let mut row: Vec<String> = Vec::new();
        let t = i64_text(gaps[i]);
        row.push(t);
        assert(cells_view(row@) =~= seq![int_text(gaps@[i as int] as int)]);
        let ghost before = rows@;
        rows.push(row);
        assert(rows_view(rows@) =~= gap_rows(gaps@.take(i + 1))) by {
            assert forall|q: int| 0 <= q < rows@.len() implies #[trigger] rows_view(rows@)[q] == gap_rows(
                gaps@.take(i + 1),
            )[q] by {
                if q < i {
                    assert(rows@[q] == before[q]);
                    assert(rows_view(before)[q] == gap_rows(gaps@.take(i as int))[q]);
                }
            }
        }
        i += 1;
    }
    assert(gaps@.take(gaps@.len() as int) =~= gaps@);
    Table { headers, rows, keys: Vec::new() }
}

/// Stores an analysis result as a new dataset derived from `parent` and
/// returns the table to show with the new id.
pub fn store_result(store: &mut DatasetStore, name: String, df: Frame, parent: String) -> (r:
    ImportResult)
    requires
        old(store).wf(),
        old(store).counter() < u32::MAX,
    ensures
        final(store).wf(),
        r.dataset_id@ == ds_id(old(store).counter() + 1),
        final(store).entries() == old(store).entries().insert(
            r.dataset_id@,
            (LedgerDataset { name, parent_id: Some(parent), df }),
        ),
        final(store).ids() == old(store).ids().push(r.dataset_id@),
        final(store).active() == Some(r.dataset_id@),
        final(store).counter() == old(store).counter() + 1,
        cells_view(r.table.headers@) == cells_view(df.columns@),
        rows_view(r.table.rows@) == rows_view(df.rows@),
        r.table.keys@.len() == 0,
{
    let table = to_table(&df);
    let dataset_id = store.insert(name, df, Some(parent));
    ImportResult { table, dataset_id }
}

/// Stores a result shown only as a table (a gap or a leading-digit scan):
/// the new dataset derived from `parent` holds an empty frame.
pub fn store_table(store: &mut DatasetStore, name: String, table: Table, parent: String) -> (r:
    ImportResult)
    requires
        old(store).wf(),
        old(store).counter() < u32::MAX,
    ensures
        final(store).wf(),
        r.table == table,
        r.dataset_id@ == ds_id(old(store).counter() + 1),
        final(store).entries().dom() == old(store).entries().dom().insert(r.dataset_id@),
        final(store).entries()[r.dataset_id@].name == name,
        final(store).entries()[r.dataset_id@].parent_id == Some(parent),
        final(store).entries()[r.dataset_id@].df.columns@.len() == 0,
        final(store).entries()[r.dataset_id@].df.rows@.len() == 0,
        forall|k: Seq<char>| #[trigger] old(store).entries().contains_key(k) ==> final(store).entries()[k]
            == old(store).entries()[k],
        final(store).ids() == old(store).ids().push(r.dataset_id@),
        final(store).active() == Some(r.dataset_id@),
        final(store).counter() == old(store).counter() + 1,
{
    let dataset_id = store.insert(name, Frame::empty(), Some(parent));
    ImportResult { table, dataset_id }
}

/// Duplicate scan of the dataset `dataset_id` (else the active one): the
/// repeated rows become a new dataset "중복검출" derived from it.
pub fn duplicates_op(store: &mut DatasetStore, dataset_id: &Option<String>) -> (r: Result<
    ImportResult,
    String,
>)
    requires
        old(store).wf(),
        old(store).counter() < u32::MAX,
    ensures
        final(store).wf(),
        match r {
            Ok(res) => {
                let src = match dataset_id {
                    Some(id) => id@,
                    None => old(store).active()->0,
                };
                let d = final(store).entries()[res.dataset_id@];
                &&& old(store).entries().contains_key(src)
                &&& res.dataset_id@ == ds_id(old(store).counter() + 1)
                &&& final(store).ids() == old(store).ids().push(res.dataset_id@)
                &&& final(store).active() == Some(res.dataset_id@)
                &&& d.name@ == "중복검출"@
                &&& opt_text(d.parent_id) == Some(src)
                &&& cells_view(d.df.columns@) == cells_view(old(store).entries()[src].df.columns@)
                &&& rows_view(d.df.rows@) == keep_repeated(rows_view(old(store).entries()[src].df.rows@))
                &&& cells_view(res.table.headers@) == cells_view(d.df.columns@)
                &&& rows_view(res.table.rows@) == rows_view(d.df.rows@)
            },
            Err(e) => *final(store) == *old(store) && match dataset_id {
                Some(id) => !old(store).entries().contains_key(id@) && e@ == "데이터셋 '"@ + id@
                    + "'을 찾을 수 없습니다."@,
                None => old(store).active() is None && e@ == "먼저 파일을 가져오세요."@,
            },
        },
{
    let parent = match op_parent(store, dataset_id) {
        Ok(p) => p,
        Err(e) => return Err(e),
    };
    let found = match resolve_df(store, dataset_id) {
        Ok(df) => find_duplicates(df),
        Err(e) => return Err(e),
    };
    let ghost p = parent@;
    let res = store_result(store, to_string("중복검출"), found, parent);
    assert(opt_text(final(store).entries()[res.dataset_id@].parent_id) == Some(p));
    Ok(res)
}

pub open spec fn opt_text(o: Option<String>) -> Option<Seq<char>> {
    match o {
        Some(s) => Some(s@),
        None => None,
    }
}

/// "갭검출({col})" — the name of a gap scan's dataset.
pub open spec fn gaps_name(col: Seq<char>) -> Seq<char> {
    "갭검출("@ + col + ")"@
}

/// Gap scan of column `col` of the dataset `dataset_id` (else the active
/// one): the missing numbers are shown as a table, and a new dataset
/// "갭검출({col})" derived from it is recorded.
pub fn gaps_op(store: &mut DatasetStore, dataset_id: &Option<String>, col: &str) -> (r: Result<
    ImportResult,
    String,
>)
    requires
        old(store).wf(),
        old(store).counter() < u32::MAX,
    ensures
        final(store).wf(),
        match r {
            Ok(res) => {
                let src = match dataset_id {
                    Some(id) => id@,
                    None => old(store).active()->0,
                };
                let df = old(store).entries()[src].df;
                let c = first_column(cells_view(df.columns@), col@);
                let d = final(store).entries()[res.dataset_id@];
                &&& old(store).entries().contains_key(src)
                &&& c >= 0
                &&& res.dataset_id@ == ds_id(old(store).counter() + 1)
                &&& final(store).ids() == old(store).ids().push(res.dataset_id@)
                &&& final(store).active() == Some(res.dataset_id@)
                &&& d.name@ == gaps_name(col@)
                &&& opt_text(d.parent_id) == Some(src)
                &&& d.df.rows@.len() == 0
                &&& cells_view(res.table.headers@) == seq!["누락 전표번호"@]
                &&& exists|g: Seq<i64>|
                    gaps_of(column_numbers(rows_view(df.rows@), c), g) && rows_view(res.table.rows@)
                        == #[trigger] gap_rows(g)
            },
            Err(e) => *final(store) == *old(store) && match dataset_id {
                Some(id) => if !old(store).entries().contains_key(id@) {
                    e@ == "데이터셋 '"@ + id@ + "'을 찾을 수 없습니다."@
                } else {
                    first_column(cells_view(old(store).entries()[id@].df.columns@), col@) < 0
                        && e@ == no_column_text(col@)
                },
                None => match old(store).active() {
                    None => e@ == "먼저 파일을 가져오세요."@,
                    Some(a) => first_column(cells_view(old(store).entries()[a].df.columns@), col@)
                        < 0 && e@ == no_column_text(col@),
                },
            },
        },
{
    let parent = match op_parent(store, dataset_id) {
        Ok(p) => p,
        Err(e) => return Err(e),
    };
    let gaps = match resolve_df(store, dataset_id) {
        Ok(df) => match detect_gaps(df, col) {
            Ok(g) => g,
            Err(e) => return Err(e),
        },
        Err(e) => return Err(e),
    };
    let table = gaps_table(&gaps);
    let mut name = to_string("갭검출(");
    push_str(&mut name, col);
    push_str(&mut name, ")");
    let ghost p = parent@;
    let res = store_table(store, name, table, parent);
    assert(opt_text(final(store).entries()[res.dataset_id@].parent_id) == Some(p));
    assert(gap_rows(gaps@) == rows_view(res.table.rows@));
    Ok(res)
}

} // verus!
