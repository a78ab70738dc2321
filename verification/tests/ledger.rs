use axon::ledger::frame::Frame;
use axon::ledger::store::DatasetStore;
use axon::ledger::{not_found, op_parent, preview_of, resolve_df, to_table, LedgerState, PREVIEW_ROWS};

fn frame(rows: usize, cols: usize) -> Frame {
    Frame {
        columns: (0..cols).map(|c| format!("c{c}")).collect(),
        rows: (0..rows).map(|r| (0..cols).map(|c| format!("{r}-{c}")).collect()).collect(),
    }
}

#[test]
fn insert_numbers_ids_and_activates() {
    let mut s = DatasetStore::new();
    let a = s.insert("임포트".into(), frame(2, 3), None);
    let b = s.insert("중복검출".into(), frame(1, 3), Some(a.clone()));
    assert_eq!(a, "ds-1");
    assert_eq!(b, "ds-2");
    assert_eq!(s.active_id(), Some("ds-2"));
    assert_eq!(s.get("ds-1").unwrap().name, "임포트");
    assert!(s.get("ds-9").is_none());
    assert_eq!(s.active_df().unwrap().height(), 1);
}

#[test]
fn list_in_creation_order() {
    let mut s = DatasetStore::new();
    let a = s.insert("a".into(), frame(2, 3), None);
    s.insert("b".into(), frame(4, 1), Some(a));
    let l = s.list();
    assert_eq!(l.len(), 2);
    assert_eq!(l[0].id, "ds-1");
    assert_eq!(l[0].row_count, 2);
    assert_eq!(l[0].col_count, 3);
    assert_eq!(l[1].parent_id, Some("ds-1".to_string()));
    assert_eq!(l[1].row_count, 4);
}

#[test]
fn remove_cascades_to_derived_and_moves_active() {
    let mut s = DatasetStore::new();
    let root = s.insert("root".into(), frame(1, 1), None);
    let child = s.insert("child".into(), frame(1, 1), Some(root.clone()));
    let _grand = s.insert("grand".into(), frame(1, 1), Some(child.clone()));
    let other = s.insert("other".into(), frame(1, 1), None);
    assert!(s.set_active(&child));
    assert!(s.remove(&root));
    let ids: Vec<String> = s.list().into_iter().map(|n| n.id).collect();
    assert_eq!(ids, vec![other.clone()]);
    assert_eq!(s.active_id(), Some(other.as_str()));
    assert!(!s.remove(&root));
    assert!(s.remove(&other));
    assert_eq!(s.active_id(), None);
    assert!(s.list().is_empty());
}

#[test]
fn remove_keeps_unrelated_active() {
    let mut s = DatasetStore::new();
    let a = s.insert("a".into(), frame(1, 1), None);
    let b = s.insert("b".into(), frame(1, 1), None);
    assert!(s.remove(&a));
    assert_eq!(s.active_id(), Some(b.as_str()));
}

#[test]
fn rename_and_set_active_report_missing() {
    let mut s = DatasetStore::new();
    let a = s.insert("a".into(), frame(1, 1), None);
    assert!(s.rename(&a, "새이름".into()));
    assert_eq!(s.get(&a).unwrap().name, "새이름");
    assert!(!s.rename("ds-7", "x".into()));
    assert!(!s.set_active("ds-7"));
    assert_eq!(s.active_id(), Some("ds-1"));
}

#[test]
fn preview_shows_head_and_tail() {
    let grid: Vec<Vec<String>> = (0..25).map(|i| vec![i.to_string()]).collect();
    let p = preview_of(&grid);
    assert_eq!(p.total, 25);
    assert_eq!(p.rows.len(), PREVIEW_ROWS);
    assert_eq!(p.tail_start, 5);
    assert_eq!(p.tail_rows.len(), 20);
    assert_eq!(p.tail_rows[0], vec!["5".to_string()]);
    let small: Vec<Vec<String>> = vec![vec!["a".into()]];
    let q = preview_of(&small);
    assert_eq!(q.tail_start, 0);
    assert_eq!(q.rows.len(), 1);
}

#[test]
fn resolve_uses_named_or_active() {
    let mut st = LedgerState::new();
    assert_eq!(resolve_df(&st.store, &None).err(), Some("먼저 파일을 가져오세요.".to_string()));
    assert_eq!(op_parent(&st.store, &None), Err("먼저 파일을 가져오세요.".to_string()));
    st.store.insert("a".into(), frame(3, 2), None);
    assert_eq!(resolve_df(&st.store, &None).unwrap().height(), 3);
    assert_eq!(
        resolve_df(&st.store, &Some("ds-4".into())).err(),
        Some(not_found("ds-4"))
    );
    assert_eq!(not_found("ds-4"), "데이터셋 'ds-4'을 찾을 수 없습니다.");
    assert_eq!(op_parent(&st.store, &None), Ok("ds-1".to_string()));
    assert_eq!(op_parent(&st.store, &Some("ds-9".into())), Ok("ds-9".to_string()));
}

#[test]
fn to_table_copies_frame() {
    let t = to_table(&frame(1, 2));
    assert_eq!(t.headers, vec!["c0", "c1"]);
    assert_eq!(t.rows, vec![vec!["0-0".to_string(), "0-1".to_string()]]);
    assert!(t.keys.is_empty());
}
