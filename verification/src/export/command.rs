//! Export of a table to a file: the format asked for, and the file name
//! offered in the save dialog ("{label}_{yyyymmdd}.{format}", the label being
//! the "분석" entry of the metadata, else "결과").

use vstd::prelude::*;
use vstd::utf8::encode_utf8;
use crate::domain::table::Table;
use crate::export::csv::{CsvExporter, csv_text};
use crate::export::json::{JsonExporter, json_text};
use crate::port::exporter::Exporter;
use crate::text::{push_str, str_eq, to_string};

verus! {

broadcast use vstd::string::group_string_axioms;

/// The file formats a table exports to.
pub enum ExportFormat {
    Pdf,
    Json,
    Csv,
    Xlsx,
}

/// The format named `format`; an error "지원하지 않는 형식: {format}" for
/// any other name.
pub fn export_format(format: &str) -> (r: Result<ExportFormat, String>)
    ensures
        format@ == "pdf"@ ==> r matches Ok(ExportFormat::Pdf),
        format@ == "json"@ ==> r matches Ok(ExportFormat::Json),
        format@ == "csv"@ ==> r matches Ok(ExportFormat::Csv),
        format@ == "xlsx"@ ==> r matches Ok(ExportFormat::Xlsx),
        format@ != "pdf"@ && format@ != "json"@ && format@ != "csv"@ && format@ != "xlsx"@ ==> r is Err
            && r->Err_0@ == "지원하지 않는 형식: "@ + format@,
{
    proof {
        reveal_strlit("pdf");
        reveal_strlit("json");
        reveal_strlit("csv");
        reveal_strlit("xlsx");
        assert("json"@.len() != "pdf"@.len());
        assert("xlsx"@.len() != "pdf"@.len());
        assert("csv"@[0] != "pdf"@[0]);
        assert("xlsx"@[0] != "json"@[0]);
        assert("xlsx"@.len() != "csv"@.len());
    }
    if str_eq(format, "pdf") {
        Ok(ExportFormat::Pdf)
    } else if str_eq(format, "json") {
        Ok(ExportFormat::Json)
    } else if str_eq(format, "csv") {
        Ok(ExportFormat::Csv)
    } else if str_eq(format, "xlsx") {
        Ok(ExportFormat::Xlsx)
    } else {
        let mut e = to_string("지원하지 않는 형식: ");
        push_str(&mut e, format);
        Err(e)
    }
}

/// The bytes of the text formats: the JSON or the CSV document of the
/// table; `None` for the drawn formats (PDF and spreadsheet).
pub fn export_text(format: &ExportFormat, table: &Table) -> (r: Option<Vec<u8>>)
    ensures
        match format {
            ExportFormat::Json => r is Some && r->0@ == encode_utf8(json_text(*table)),
            ExportFormat::Csv => r is Some && r->0@ == encode_utf8(csv_text(*table)),
            _ => r is None,
        },
{
    match format {
        ExportFormat::Json => Some(JsonExporter.export(table)),
        ExportFormat::Csv => Some(CsvExporter.export(table)),
        _ => None,
    }
}

/// The value of the first metadata entry named "분석", else "결과".
pub open spec fn label_of(meta: Seq<(String, String)>) -> Seq<char>
    decreases meta.len(),
{
    if meta.len() == 0 {
        "결과"@
    } else if meta[0].0@ == "분석"@ {
        meta[0].1@
    } else {
        label_of(meta.drop_first())
    }
}

/// The label of an export (see [`label_of`]).
pub fn export_label(meta: &Vec<(String, String)>) -> (r: String)
    ensures
        r@ == label_of(meta@),
{
    let mut i: usize = 0;
    assert(meta@.skip(0) =~= meta@);
    while i < meta.len()
        invariant
            i <= meta@.len(),
            label_of(meta@) == label_of(meta@.skip(i as int)),
        decreases meta@.len() - i,
    {
        assert(meta@.skip(i as int)[0] == meta@[i as int]);
        assert(meta@.skip(i as int).drop_first() =~= meta@.skip(i + 1));
        if str_eq(meta[i].0.as_str(), "분석") {
            return meta[i].1.clone();
        }
        i += 1;
    }
    assert(meta@.skip(i as int).len() == 0);
    to_string("결과")
}

/// The file name offered: "{label}_{today}.{format}".
pub fn export_filename(label: &str, today: &str, format: &str) -> (r: String)
    ensures
        r@ == label@ + "_"@ + today@ + "."@ + format@,
{
    let mut s = to_string(label);
    push_str(&mut s, "_");
    push_str(&mut s, today);
    push_str(&mut s, ".");
    push_str(&mut s, format);
    s
}

} // verus!
