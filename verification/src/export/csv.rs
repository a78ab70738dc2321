//! CsvExporter — Table → CSV: a UTF-8 byte-order mark (so that spreadsheet
//! programs read Korean correctly), RFC 4180 quoting, CRLF line ends.

use vstd::prelude::*;
use vstd::string::StrSliceExecFns;
use vstd::utf8::encode_utf8;
use crate::domain::table::{Table, cells_view};
use crate::port::exporter::Exporter;
use crate::text::{chars_of, contains_char, push_char, push_str};

verus! {

broadcast use vstd::string::group_string_axioms;

pub struct CsvExporter;

/// A cell must be quoted when it holds a comma, a quote or a line break.
pub open spec fn needs_quotes(s: Seq<char>) -> bool {
    s.contains(',') || s.contains('"') || s.contains('\n') || s.contains('\r')
}

/// `s` with every `"` doubled.
pub open spec fn double_quotes(s: Seq<char>) -> Seq<char>
    decreases s.len(),
{
    if s.len() == 0 {
        Seq::empty()
    } else {
        double_quotes(s.drop_last()) + if s.last() == '"' {
            seq!['"', '"']
        } else {
            seq![s.last()]
        }
    }
}

/// RFC 4180 escaping of one cell.
pub open spec fn escaped(s: Seq<char>) -> Seq<char> {
    if needs_quotes(s) {
        seq!['"'] + double_quotes(s) + seq!['"']
    } else {
        s
    }
}

/// Escaped cells joined by commas.
pub open spec fn joined(cells: Seq<Seq<char>>) -> Seq<char>
    decreases cells.len(),
{
    if cells.len() == 0 {
        Seq::empty()
    } else if cells.len() == 1 {
        escaped(cells[0])
    } else {
        joined(cells.drop_last()) + seq![','] + escaped(cells.last())
    }
}

/// One CSV record: the escaped cells, comma-separated, ended by CRLF.
pub open spec fn csv_line(cells: Seq<Seq<char>>) -> Seq<char> {
    joined(cells) + seq!['\r', '\n']
}

/// The records of all rows, in order.
pub open spec fn csv_body(rows: Seq<Vec<String>>) -> Seq<char>
    decreases rows.len(),
{
    if rows.len() == 0 {
        Seq::empty()
    } else {
        csv_body(rows.drop_last()) + csv_line(cells_view(rows.last()@))
    }
}

/// The whole CSV document: byte-order mark, header record, row records.
pub open spec fn csv_text(t: Table) -> Seq<char> {
    seq!['\u{feff}'] + csv_line(cells_view(t.headers@)) + csv_body(t.rows@)
}

/// RFC 4180: a cell with a comma, quote or line break is quoted and its
/// quotes are doubled; any other cell stands as it is.
fn escape(s: &str) -> (r: String)
    ensures
        r@ == escaped(s@),
{
    let cs = chars_of(s);
    if contains_char(&cs, ',') || contains_char(&cs, '"') || contains_char(&cs, '\n')
        || contains_char(&cs, '\r') {
        let mut out = String::new();
        push_char(&mut out, '"');
        let mut i: usize = 0;
        while i < cs.len()
            invariant
                cs@ == s@,
                i <= cs.len(),
                out@ == seq!['"'] + double_quotes(cs@.take(i as int)),
            decreases cs.len() - i,
        {
            let ghost prev = out@;
            proof {
                assert(cs@.take(i + 1).drop_last() =~= cs@.take(i as int));
                assert(cs@.take(i + 1).last() == cs@[i as int]);
            }
            if cs[i] == '"' {
                push_char(&mut out, '"');
                push_char(&mut out, '"');
            } else {
                push_char(&mut out, cs[i]);
            }
            i += 1;
            assert(out@ =~= seq!['"'] + double_quotes(cs@.take(i as int)));
        }
        push_char(&mut out, '"');
        assert(cs@.take(cs@.len() as int) =~= cs@);
        out
    } else {
        let mut out = String::new();
        push_str(&mut out, s);
        assert(out@ =~= s@);
        out
    }
}

/// One record: escaped cells joined by commas, then CRLF.
fn to_line(cells: &Vec<String>) -> (r: String)
    ensures
        r@ == csv_line(cells_view(cells@)),
{
    let mut out = String::new();
    let mut i: usize = 0;
    while i < cells.len()
        invariant
            i <= cells.len(),
            out@ == joined(cells_view(cells@).take(i as int)),
        decreases cells.len() - i,
    {
        let e = escape(cells[i].as_str());
        proof {
            let c = cells_view(cells@);
            assert(c.take(i + 1).drop_last() =~= c.take(i as int));
            assert(c.take(i + 1).last() == cells@[i as int]@);
            if i == 0 {
                assert(c.take(1)[0] == cells@[0]@);
            }
        }
        if i > 0 {
            push_char(&mut out, ',');
        }
        push_str(&mut out, e.as_str());
        i += 1;
        proof {
            let c = cells_view(cells@);
            if i == 1 {
                assert(out@ =~= joined(c.take(1)));
            } else {
                assert(out@ =~= joined(c.take(i as int)));
            }
        }
    }
    push_char(&mut out, '\r');
    push_char(&mut out, '\n');
    assert(cells_view(cells@).take(cells@.len() as int) =~= cells_view(cells@));
    assert(out@ =~= csv_line(cells_view(cells@)));
    out
}

impl CsvExporter {
    /// The CSV text of `table`, before UTF-8 encoding.
    pub fn render(&self, table: &Table) -> (r: String)
        ensures
            r@ == csv_text(*table),
    {
        let mut out = String::new();
        push_char(&mut out, '\u{feff}');
        let h = to_line(&table.headers);
        push_str(&mut out, h.as_str());
        let ghost head = out@;
        let mut i: usize = 0;
        while i < table.rows.len()
            invariant
                i <= table.rows.len(),
                head == seq!['\u{feff}'] + csv_line(cells_view(table.headers@)),
                out@ == head + csv_body(table.rows@.take(i as int)),
            decreases table.rows.len() - i,
        {
            let line = to_line(&table.rows[i]);
            proof {
                assert(table.rows@.take(i + 1).drop_last() =~= table.rows@.take(i as int));
            }
            push_str(&mut out, line.as_str());
            i += 1;
            assert(out@ =~= head + csv_body(table.rows@.take(i as int)));
        }
        assert(table.rows@.take(table.rows@.len() as int) =~= table.rows@);
        out
    }
}

impl Exporter for CsvExporter {
    fn format(&self) -> (r: &str)
        ensures
            r@ == "csv"@,
    {
        "csv"
    }

    /// UTF-8 bytes of the CSV document [`csv_text`].
    fn export(&self, table: &Table) -> (r: Vec<u8>)
        ensures
            r@ == encode_utf8(csv_text(*table)),
    {
        let s = self.render(table);
        s.as_str().as_bytes_vec()
    }
}

} // verus!
