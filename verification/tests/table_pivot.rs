use axon::domain::fact::Fact;
use axon::domain::money::Money;
use axon::domain::statement::Statement;
use axon::domain::table::Table;

fn fact(stmt: Statement, acc: &str, period: i32, v: &str) -> Fact {
    Fact {
        statement: stmt,
        concept_id: String::new(),
        account_nm: acc.to_string(),
        period,
        value: Money::parse(v),
    }
}

#[test]
fn pivots_multi_year_into_columns() {
    let facts = vec![
        fact(Statement::Bs, "자산총계", 2022, "300"),
        fact(Statement::Bs, "자산총계", 2021, "200"),
        fact(Statement::Bs, "자산총계", 2020, "100"),
        fact(Statement::Bs, "자산총계", 2019, "90"),
        fact(Statement::Bs, "자산총계", 2018, "80"),
        fact(Statement::Bs, "자산총계", 2017, "70"),
    ];
    let t = Table::pivot(&facts);
    assert_eq!(
        t.headers,
        vec!["재무제표", "계정", "2022", "2021", "2020", "2019", "2018", "2017"]
    );
    assert_eq!(
        t.rows[0],
        vec!["재무상태표", "자산총계", "300", "200", "100", "90", "80", "70"]
    );
}

#[test]
fn same_account_name_in_different_statements_not_merged() {
    let facts = vec![
        fact(Statement::Bs, "기타", 2022, "10"),
        fact(Statement::Is, "기타", 2022, "20"),
    ];
    let t = Table::pivot(&facts);
    assert_eq!(t.rows.len(), 2);
    let bs = t.rows.iter().find(|r| r[0] == "재무상태표").unwrap();
    let is = t.rows.iter().find(|r| r[0] == "손익계산서").unwrap();
    assert_eq!(bs[2], "10");
    assert_eq!(is[2], "20");
}

#[test]
fn pivot_groups_by_statement_order() {
    let facts = vec![
        fact(Statement::Sce, "자본금", 2023, "5"),
        fact(Statement::Cf, "영업현금", 2023, "3"),
        fact(Statement::Is, "매출", 2023, "2"),
        fact(Statement::Bs, "자산총계", 2023, "1"),
    ];
    let t = Table::pivot(&facts);
    let stmts: Vec<&str> = t.rows.iter().map(|r| r[0].as_str()).collect();
    assert_eq!(stmts, vec!["재무상태표", "손익계산서", "현금흐름표", "자본변동표"]);
}

#[test]
fn pivot_merges_synonyms_via_alias() {
    let facts = vec![
        fact(Statement::Is, "매출액", 2023, "100"),
        fact(Statement::Is, "영업수익", 2022, "90"),
    ];
    let t = Table::pivot(&facts);
    assert_eq!(t.rows.len(), 1);
    assert_eq!(t.rows[0], vec!["손익계산서", "매출액", "100", "90"]);
}

#[test]
fn pivot_merges_by_concept_id_across_rename() {
    let facts = vec![
        Fact {
            statement: Statement::Bs,
            concept_id: "ifrs-full_Assets".into(),
            account_nm: "자산총계".into(),
            period: 2023,
            value: Money::parse("100"),
        },
        Fact {
            statement: Statement::Bs,
            concept_id: "ifrs-full_Assets".into(),
            account_nm: "총자산".into(),
            period: 2022,
            value: Money::parse("90"),
        },
    ];
    let t = Table::pivot(&facts);
    assert_eq!(t.rows.len(), 1);
    assert_eq!(t.rows[0], vec!["재무상태표", "자산총계", "100", "90"]);
}

#[test]
fn pivot_last_fact_wins_and_gaps_are_empty() {
    let facts = vec![
        fact(Statement::Bs, "현금", 2023, "1"),
        fact(Statement::Bs, "현금", 2023, "2"),
        fact(Statement::Bs, "예금", 2022, "1,234"),
    ];
    let t = Table::pivot(&facts);
    assert_eq!(t.headers, vec!["재무제표", "계정", "2023", "2022"]);
    assert_eq!(t.rows[0], vec!["재무상태표", "현금", "2", ""]);
    assert_eq!(t.rows[1], vec!["재무상태표", "예금", "", "1,234"]);
    assert_eq!(t.keys, vec!["현금", "예금"]);
}

#[test]
fn pivot_of_nothing_has_only_fixed_headers() {
    let t = Table::pivot(&[]);
    assert_eq!(t.headers, vec!["재무제표", "계정"]);
    assert!(t.rows.is_empty());
}
