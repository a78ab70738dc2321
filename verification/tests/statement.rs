use axon::domain::statement::Statement;

#[test]
fn from_sj_div_maps_known_and_rejects_unknown() {
    assert_eq!(Statement::from_sj_div("BS"), Some(Statement::Bs));
    assert_eq!(Statement::from_sj_div("CIS"), Some(Statement::Cis));
    assert_eq!(Statement::from_sj_div("SCE"), Some(Statement::Sce));
    assert_eq!(Statement::from_sj_div("ZZ"), None);
    assert_eq!(Statement::from_sj_div(""), None);
}

#[test]
fn names_are_korean_standard() {
    assert_eq!(Statement::Bs.name(), "재무상태표");
    assert_eq!(Statement::Cf.name(), "현금흐름표");
    assert_eq!(Statement::ALL.len(), 5);
}

#[test]
fn order_and_flow_flags() {
    let orders: Vec<u8> = Statement::ALL.iter().map(|s| s.order()).collect();
    assert_eq!(orders, vec![0, 1, 2, 3, 4]);
    assert!(!Statement::Bs.is_flow());
    assert!(Statement::Is.is_flow());
    assert!(Statement::Cis.is_flow());
    assert!(Statement::Cf.is_flow());
    assert!(!Statement::Sce.is_flow());
}
