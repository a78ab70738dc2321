use std::io::Write;

use axon::dart::filings::{cal_cache_name, corp_list_xml, extract_cal_xml, pick_rcept, report_window};
use axon::domain::table::Table;
use axon::export::command::{export_filename, export_format, export_label, export_text, ExportFormat};

fn table() -> Table {
    Table {
        headers: vec!["a".into(), "b".into()],
        rows: vec![vec!["1".into(), "x,y".into()]],
        keys: Vec::new(),
    }
}

#[test]
fn export_formats_and_names() {
    assert!(matches!(export_format("pdf"), Ok(ExportFormat::Pdf)));
    assert!(matches!(export_format("xlsx"), Ok(ExportFormat::Xlsx)));
    assert_eq!(export_format("doc").err().unwrap(), "지원하지 않는 형식: doc");
    let csv = export_text(&ExportFormat::Csv, &table()).unwrap();
    assert_eq!(String::from_utf8(csv).unwrap(), "\u{feff}a,b\r\n1,\"x,y\"\r\n");
    assert!(export_text(&ExportFormat::Json, &table()).is_some());
    assert!(export_text(&ExportFormat::Pdf, &table()).is_none());
    let meta = vec![("회사".to_string(), "삼성".to_string()), ("분석".to_string(), "합계검증".to_string())];
    assert_eq!(export_label(&meta), "합계검증");
    assert_eq!(export_label(&vec![]), "결과");
    assert_eq!(export_filename("합계검증", "20240131", "csv"), "합계검증_20240131.csv");
}

#[test]
fn business_report_is_picked_from_filings() {
    assert_eq!(report_window(2023), ("20240101".to_string(), "20240630".to_string()));
    let list = vec![String::new(), "20240312000736".to_string(), "x".to_string()];
    assert_eq!(pick_rcept("000", "정상", &list, 2023), Ok("20240312000736".to_string()));
    assert_eq!(
        pick_rcept("013", "조회된 데이타가 없습니다.", &list, 2023),
        Err("공시 조회 실패 [013] 조회된 데이타가 없습니다.".to_string())
    );
    assert_eq!(
        pick_rcept("000", "정상", &vec![String::new()], 2023),
        Err("2023 사업보고서를 찾지 못했습니다.".to_string())
    );
    assert_eq!(cal_cache_name("2024"), "2024_cal.xml");
}

fn zip_of(entries: &[(&str, &str)]) -> Vec<u8> {
    let mut w = zip::ZipWriter::new(std::io::Cursor::new(Vec::new()));
    let opts = zip::write::SimpleFileOptions::default().compression_method(zip::CompressionMethod::Stored);
    for (name, body) in entries {
        w.start_file(*name, opts).unwrap();
        w.write_all(body.as_bytes()).unwrap();
    }
    w.finish().unwrap().into_inner()
}

#[test]
fn linkbase_is_taken_from_the_zip() {
    let z = zip_of(&[("a_pre.xml", "<pre/>"), ("a_cal.xml", "<cal/>"), ("b_cal.xml", "<other/>")]);
    assert_eq!(extract_cal_xml(&z), Ok("<cal/>".to_string()));
    let none = zip_of(&[("a_pre.xml", "<pre/>")]);
    assert_eq!(
        extract_cal_xml(&none),
        Err("XBRL 에 calculation linkbase(_cal.xml)가 없습니다.".to_string())
    );
    assert!(extract_cal_xml(b"not a zip").err().unwrap().starts_with("XBRL ZIP 해제 실패: "));
    assert_eq!(corp_list_xml(&zip_of(&[("CORPCODE.xml", "<result/>")])), Ok("<result/>".to_string()));
}
