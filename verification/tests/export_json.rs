use axon::domain::table::Table;
use axon::export::json::JsonExporter;
use axon::port::exporter::Exporter;
use axon::service::sampling::{mix_seed, MusPick, MusType};

#[test]
fn exports_valid_json() {
    let t = Table {
        headers: vec!["계정".into(), "2023".into()],
        rows: vec![vec!["자산총계".into(), "1,000".into()]],
        keys: vec![],
    };
    let bytes = JsonExporter.export(&t);
    let v: serde_json::Value = serde_json::from_slice(&bytes).unwrap();
    assert_eq!(v["headers"][0], "계정");
    assert_eq!(v["rows"][0][1], "1,000");
}

#[test]
fn json_layout_matches_pretty_printer() {
    let t = Table {
        headers: vec!["a\"b".into()],
        rows: vec![vec!["x".into()], vec![]],
        keys: vec![],
    };
    let text = String::from_utf8(JsonExporter.export(&t)).unwrap();
    assert_eq!(
        text,
        "{\n  \"headers\": [\n    \"a\\\"b\"\n  ],\n  \"rows\": [\n    [\n      \"x\"\n    ],\n    []\n  ],\n  \"keys\": []\n}"
    );
    assert_eq!(JsonExporter.format(), "json");
}

#[test]
fn splitmix_first_output() {
    assert_eq!(mix_seed(0), 0xE220_A839_7B1D_CDAF);
    assert_ne!(mix_seed(1), mix_seed(2));
}

#[test]
fn mus_pick_compares_by_fields() {
    let a = MusPick { index: 2, kind: MusType::KeyItem };
    assert_eq!(a, MusPick { index: 2, kind: MusType::KeyItem });
    assert_ne!(a, MusPick { index: 2, kind: MusType::PpsSample });
}

#[test]
fn strings_are_escaped_as_serde_json_writes_them() {
    let tricky = "q\"b\\s/\u{8}\u{9}\n\u{c}\r\u{1}\u{1f}\u{7f}é한";
    let t = Table { headers: vec![tricky.into()], rows: vec![], keys: vec![] };
    let text = String::from_utf8(JsonExporter.export(&t)).unwrap();
    let quoted = serde_json::to_string(tricky).unwrap();
    assert!(text.contains(&format!("\n    {quoted}\n")));
    assert_eq!(quoted, "\"q\\\"b\\\\s/\\b\\t\\n\\f\\r\\u0001\\u001f\u{7f}é한\"");
}
