use axon::ledger::analysis::{detect_gaps, find_duplicates, parse_i64};
use axon::ledger::frame::Frame;
use axon::ledger::import::{import_csv, import_grid, read_csv_grid};
use axon::ledger::store::DatasetStore;
use axon::ledger::{duplicates_op, gaps_op, gaps_table, parse_op, store_table, to_table, LedgerOp};

#[test]
fn imports_csv_with_header() {
    let df = import_csv(b"a,b\n1,2\n3,4\n".to_vec()).unwrap();
    assert_eq!(df.height(), 2);
    assert_eq!(df.width(), 2);
}

#[test]
fn finds_duplicate_rows() {
    let df = import_csv(b"a,b\n1,2\n1,2\n3,4\n".to_vec()).unwrap();
    assert_eq!(find_duplicates(&df).height(), 2);
}

#[test]
fn to_table_roundtrips() {
    let t = to_table(&import_csv(b"a,b\n1,2\n".to_vec()).unwrap());
    assert_eq!(t.headers, vec!["a", "b"]);
    assert_eq!(t.rows[0], vec!["1", "2"]);
}

#[test]
fn read_grid_csv_raw_rows() {
    let g = read_csv_grid(&b"a,b\n1,2\n3,4\n".to_vec()).unwrap();
    assert_eq!(g.len(), 3);
    assert_eq!(g[0], vec!["a", "b"]);
    assert_eq!(g[2], vec!["3", "4"]);
}

#[test]
fn import_grid_picks_header_row_and_columns() {
    let grid = vec![
        vec!["회사 원장".into(), String::new(), String::new()],
        vec!["2024년".into(), String::new(), String::new()],
        vec!["전표".into(), "계정".into(), "금액".into()],
        vec!["1".into(), "현금".into(), "100".into()],
        vec!["2".into(), "매출".into(), "200".into()],
    ];
    let df = import_grid(&grid, 2, Some(&[0, 2])).unwrap();
    let t = to_table(&df);
    assert_eq!(t.headers, vec!["전표", "금액"]);
    assert_eq!(df.height(), 2);
    assert_eq!(t.rows[0], vec!["1", "100"]);
}

#[test]
fn import_grid_pads_short_rows_and_rejects_bad_header() {
    let grid: Vec<Vec<String>> = vec![vec!["a".into(), "b".into()], vec!["1".into()]];
    let df = import_grid(&grid, 0, None).unwrap();
    assert_eq!(df.rows, vec![vec!["1".to_string(), String::new()]]);
    assert_eq!(
        import_grid(&grid, 5, None).err().unwrap(),
        "헤더 행 번호가 범위를 벗어났습니다."
    );
    assert!(import_csv(Vec::new()).is_err());
}

#[test]
fn detects_sequence_gaps() {
    let df = import_csv(b"no\n1\n2\n4\n5\n".to_vec()).unwrap();
    assert_eq!(detect_gaps(&df, "no").unwrap(), vec![3]);
}

#[test]
fn gaps_skip_text_and_need_the_column() {
    let df = import_csv(b"no,x\n10\n-\n7\n13\n".to_vec()).unwrap();
    assert_eq!(detect_gaps(&df, "no").unwrap(), vec![8, 9, 11, 12]);
    assert_eq!(detect_gaps(&df, "x").unwrap(), Vec::<i64>::new());
    assert_eq!(
        detect_gaps(&df, "zz").err().unwrap(),
        "열 'zz' 을(를) 찾을 수 없습니다."
    );
}

#[test]
fn parse_i64_like_std() {
    for s in ["0", "-5", "+7", "9223372036854775807", "-9223372036854775808", "", "-", "1.5", " 1", "9223372036854775808"] {
        assert_eq!(parse_i64(s), s.parse::<i64>().ok(), "{s}");
    }
}

fn frame(cols: &[&str], rows: &[&[&str]]) -> Frame {
    Frame {
        columns: cols.iter().map(|c| c.to_string()).collect(),
        rows: rows.iter().map(|r| r.iter().map(|c| c.to_string()).collect()).collect(),
    }
}

#[test]
fn duplicate_rows_keep_order_and_every_copy() {
    let df = frame(&["a"], &[&["x"], &["y"], &["x"], &["z"], &["y"]]);
    let d = find_duplicates(&df);
    assert_eq!(d.rows, vec![vec!["x"], vec!["y"], vec!["x"], vec!["y"]]);
    assert_eq!(d.columns, vec!["a"]);
}

#[test]
fn ops_parse_and_run() {
    assert!(matches!(parse_op("duplicates", None), Ok(LedgerOp::Duplicates)));
    assert!(matches!(parse_op("gaps", Some("no".into())), Ok(LedgerOp::Gaps { column }) if column == "no"));
    assert_eq!(parse_op("benford", None).err().unwrap(), "열을 선택하세요.");
    assert_eq!(parse_op("pivot", None).err().unwrap(), "알 수 없는 분석: pivot");

    let mut store = DatasetStore::new();
    assert_eq!(duplicates_op(&mut store, &None).err().unwrap(), "먼저 파일을 가져오세요.");
    let id = store.insert("임포트".into(), frame(&["no"], &[&["1"], &["1"], &["4"]]), None);
    let r = duplicates_op(&mut store, &None).ok().unwrap();
    assert_eq!(r.dataset_id, "ds-2");
    assert_eq!(r.table.rows.len(), 2);
    assert_eq!(store.get("ds-2").unwrap().name, "중복검출");
    assert_eq!(store.get("ds-2").unwrap().parent_id.as_deref(), Some(id.as_str()));

    let g = gaps_op(&mut store, &Some(id.clone()), "no").ok().unwrap();
    assert_eq!(g.dataset_id, "ds-3");
    assert_eq!(g.table.headers, vec!["누락 전표번호"]);
    assert_eq!(g.table.rows, vec![vec!["2"], vec!["3"]]);
    assert_eq!(store.get("ds-3").unwrap().name, "갭검출(no)");
    assert_eq!(
        gaps_op(&mut store, &Some("ds-9".into()), "no").err().unwrap(),
        "데이터셋 'ds-9'을 찾을 수 없습니다."
    );
    let t = gaps_table(&vec![-1, 5]);
    assert_eq!(t.rows, vec![vec!["-1"], vec!["5"]]);
    let s = store_table(&mut store, "벤포드(amt)".into(), t, id.clone());
    assert_eq!(s.dataset_id, "ds-4");
    assert_eq!(store.get("ds-4").unwrap().df.height(), 0);
}
