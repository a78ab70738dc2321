use axon::domain::table::Table;
use axon::export::csv::CsvExporter;
use axon::port::exporter::Exporter;

#[test]
fn bom_and_crlf() {
    let t = Table {
        headers: vec!["a".into(), "b".into()],
        rows: vec![],
        keys: vec![],
    };
    let bytes = CsvExporter.export(&t);
    assert_eq!(&bytes[0..3], &[0xEF, 0xBB, 0xBF]);
    let s = String::from_utf8(bytes).unwrap();
    assert!(s.contains("a,b\r\n"));
}

#[test]
fn escapes_comma_and_quote() {
    let t = Table {
        headers: vec!["x".into()],
        rows: vec![vec!["a,b".into()], vec!["he\"llo".into()]],
        keys: vec![],
    };
    let s = String::from_utf8(CsvExporter.export(&t)).unwrap();
    assert!(s.contains("\"a,b\""));
    assert!(s.contains("\"he\"\"llo\""));
}

#[test]
fn csv_whole_document() {
    let t = Table {
        headers: vec!["계정".into(), "2023".into()],
        rows: vec![vec!["자산총계".into(), "1,000".into()], vec!["줄\n바꿈".into(), "".into()]],
        keys: vec![],
    };
    assert_eq!(CsvExporter.format(), "csv");
    let s = String::from_utf8(CsvExporter.export(&t)).unwrap();
    assert_eq!(s, "\u{feff}계정,2023\r\n자산총계,\"1,000\"\r\n\"줄\n바꿈\",\r\n");
}
