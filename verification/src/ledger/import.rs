//! Import of a ledger file: the raw grid of a CSV text, and the frame made
//! of a chosen header row and chosen columns. Ledgers often carry title and
//! meta rows above the real header, so the header row is picked by the user.

use vstd::prelude::*;
use crate::domain::table::{cells_view, lemma_cells_push, rows_view};
use crate::ledger::frame::Frame;
use crate::text::to_string;

verus! {

/// What the `csv` crate reads from a CSV text with no header row and
/// records of any length: each record's fields, or the reader's error
/// message.
pub uninterp spec fn csv_records(bytes: Seq<u8>) -> Result<Seq<Seq<Seq<char>>>, Seq<char>>;

/// Reads every record of a CSV text with `csv::ReaderBuilder` (no header
/// row, flexible record length). Its contract only names the result: the
/// fields as the `csv` crate splits and unquotes them, or its first error.
#[verifier::external_body]
fn csv_rows(bytes: &[u8]) -> (r: Result<Vec<Vec<String>>, String>)
    ensures
        match r {
            Ok(g) => csv_records(bytes@) == Ok::<Seq<Seq<Seq<char>>>, Seq<char>>(rows_view(g@)),
            Err(e) => csv_records(bytes@) == Err::<Seq<Seq<Seq<char>>>, Seq<char>>(e@),
        },
{
    csv::ReaderBuilder::new().has_headers(false).flexible(true).from_reader(bytes).records().map(
        |rec| rec.map(|rec| rec.iter().map(|f| f.to_string()).collect()).map_err(|e| e.to_string()),
    ).collect()
}

/// The raw grid of a CSV text (before a header row is chosen): every
/// record, as text.
pub fn read_csv_grid(bytes: &[u8]) -> (r: Result<Vec<Vec<String>>, String>)
    ensures
        match r {
            Ok(g) => csv_records(bytes@) == Ok::<Seq<Seq<Seq<char>>>, Seq<char>>(rows_view(g@)),
            Err(e) => csv_records(bytes@) == Err::<Seq<Seq<Seq<char>>>, Seq<char>>(e@),
        },
{
    csv_rows(bytes)
}

/// The column indices an import keeps: those given, or every column of the
/// header row.
pub open spec fn picked(columns: Option<Seq<usize>>, width: nat) -> Seq<usize> {
    match columns {
        Some(c) => c,
        None => Seq::new(width, |i: int| i as usize),
    }
}

/// The cells of `row` at the indices `sel`; an index past the row's end
/// reads as an empty cell.
pub open spec fn pick_cells(row: Seq<Seq<char>>, sel: Seq<usize>) -> Seq<Seq<char>> {
    Seq::new(
        sel.len(),
        |k: int|
            if sel[k] < row.len() {
                row[sel[k] as int]
            } else {
                Seq::empty()
            },
    )
}

/// Every row cut down to the cells at `sel`.
pub open spec fn pick_rows(rows: Seq<Seq<Seq<char>>>, sel: Seq<usize>) -> Seq<Seq<Seq<char>>> {
    rows.map_values(|r: Seq<Seq<char>>| pick_cells(r, sel))
}

pub open spec fn slice_seq(columns: Option<&[usize]>) -> Option<Seq<usize>> {
    match columns {
        Some(c) => Some(c@),
        None => None,
    }
}

fn pick_row(row: &Vec<String>, sel: &Vec<usize>) -> (r: Vec<String>)
    ensures
        cells_view(r@) == pick_cells(cells_view(row@), sel@),
{
    let mut r: Vec<String> = Vec::new();
    let mut k: usize = 0;
    while k < sel.len()
        invariant
            k <= sel@.len(),
            cells_view(r@) == pick_cells(cells_view(row@), sel@).take(k as int),
        decreases sel@.len() - k,
    {
        let i = sel[k];
        let c = if i < row.len() {
            row[i].clone()
        } else {
            String::new()
        };
        let ghost before = r@;
        r.push(c);
        proof {
            lemma_cells_push(before, c);
            assert(pick_cells(cells_view(row@), sel@).take(k + 1) =~= pick_cells(
                cells_view(row@),
                sel@,
            ).take(k as int).push(c@));
        }
        k += 1;
    }
    assert(pick_cells(cells_view(row@), sel@).take(sel@.len() as int) =~= pick_cells(
        cells_view(row@),
        sel@,
    ));
    r
}

/// The frame of a raw grid: row `header_row` names the columns, the rows
/// below it are the data, and `columns` picks the cells to keep by index
/// (all the header row's when `None`). An error when the header row is
/// past the grid's end.
pub fn import_grid(grid: &[Vec<String>], header_row: usize, columns: Option<&[usize]>) -> (r:
    Result<Frame, String>)
    ensures
        header_row >= grid@.len() ==> r is Err && r->Err_0@ == "헤더 행 번호가 범위를 벗어났습니다."@,
        header_row < grid@.len() ==> r is Ok && {
            let g = rows_view(grid@);
            let sel = picked(slice_seq(columns), g[header_row as int].len());
            &&& cells_view(r->Ok_0.columns@) == pick_cells(g[header_row as int], sel)
            &&& rows_view(r->Ok_0.rows@) == pick_rows(g.skip(header_row + 1), sel)
        },
{
    if header_row >= grid.len() {
        return Err(to_string("헤더 행 번호가 범위를 벗어났습니다."));
    }
    let ghost g = rows_view(grid@);
    let header = &grid[header_row];
    let mut sel: Vec<usize> = Vec::new();
    match columns {
        Some(c) => {
            let mut k: usize = 0;
            while k < c.len()
                invariant
                    k <= c@.len(),
                    sel@ == c@.take(k as int),
                decreases c@.len() - k,
            {
                sel.push(c[k]);
                assert(c@.take(k + 1) =~= c@.take(k as int).push(c@[k as int]));
                k += 1;
            }
            assert(c@.take(c@.len() as int) =~= c@);
        },
        None => {
            let mut k: usize = 0;
            while k < header.len()
                invariant
                    k <= header@.len(),
                    sel@ == Seq::new(k as nat, |i: int| i as usize),
                decreases header@.len() - k,
            {
                sel.push(k);
                assert(sel@ =~= Seq::new((k + 1) as nat, |i: int| i as usize));
                k += 1;
            }
        },
    }
    let ghost sel_view = picked(slice_seq(columns), g[header_row as int].len());
    assert(g[header_row as int] == cells_view(header@));
    assert(sel@ =~= sel_view);
    let cols = pick_row(header, &sel);
    let mut rows: Vec<Vec<String>> = Vec::new();
    let mut i: usize = header_row + 1;
    let ghost data = g.skip(header_row + 1);
    while i < grid.len()
        invariant
            header_row < i <= grid@.len(),
            g == rows_view(grid@),
            data == g.skip(header_row + 1),
            sel@ == sel_view,
            rows@.len() == i - header_row - 1,
            rows_view(rows@) == pick_rows(data.take(i - header_row - 1), sel_view),
        decreases grid@.len() - i,
    {
        let row = pick_row(&grid[i], &sel);
        let ghost before = rows@;
        let ghost rv = row;
        rows.push(row);
        proof {
            assert(data.take(i - header_row) =~= data.take(i - header_row - 1).push(g[i as int]));
            assert(rows_view(rows@) =~= pick_rows(data.take(i - header_row), sel_view)) by {
                assert(rows@ == before.push(rv));
                assert forall|q: int| 0 <= q < rows@.len() implies #[trigger] rows_view(rows@)[q]
                    == pick_rows(data.take(i - header_row), sel_view)[q] by {
                    if q < before.len() {
                        assert(rows@[q] == before[q]);
                        assert(rows_view(before)[q] == pick_rows(
                            data.take(i - header_row - 1),
                            sel_view,
                        )[q]);
                    } else {
                        assert(rows@[q] == rv);
                        assert(data.take(i - header_row)[q] == g[i as int]);
                        assert(g[i as int] == cells_view(grid@[i as int]@));
                    }
                }
            }
        }
        i += 1;
    }
    assert(data.take(grid@.len() - header_row - 1) =~= data);
    Ok(Frame { columns: cols, rows })
}

/// The frame of a CSV text whose first record is the header (the grid of
/// [`read_csv_grid`], imported at header row 0 with every column).
pub fn import_csv(bytes: Vec<u8>) -> (r: Result<Frame, String>)
    ensures
        match csv_records(bytes@) {
            Err(e) => r is Err && r->Err_0@ == e,
            Ok(g) => if g.len() == 0 {
                r is Err && r->Err_0@ == "헤더 행 번호가 범위를 벗어났습니다."@
            } else {
                let sel = picked(None, g[0].len());
                &&& r is Ok
                &&& cells_view(r->Ok_0.columns@) == pick_cells(g[0], sel)
                &&& rows_view(r->Ok_0.rows@) == pick_rows(g.skip(1), sel)
            },
        },
{
    match read_csv_grid(bytes.as_slice()) {
        Ok(grid) => import_grid(grid.as_slice(), 0, None),
        Err(e) => Err(e),
    }
}

/// An imported frame is rectangular: the header and every row have one
/// cell per picked column.
pub proof fn law_import_rectangular(header: Seq<Seq<char>>, rows: Seq<Seq<Seq<char>>>, sel: Seq<usize>)
    ensures
        pick_cells(header, sel).len() == sel.len(),
        pick_rows(rows, sel).len() == rows.len(),
        forall|i: int| 0 <= i < rows.len() ==> (#[trigger] pick_rows(rows, sel)[i]).len() == sel.len(),
{
}

} // verus!
