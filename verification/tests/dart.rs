use axon::dart::corp::{corps_of_events, parse_corps, search_corps, Corp, XmlEvent};
use axon::dart::opendart::{check_status, facts_of, norm_basis, norm_reprt, parse_i32, range_bases, DartItem};
use axon::dart::taxonomy::{canon_id, repr_sj_div, status_error, stmt_from_key, strip_abstract, to_taxonomy, TaxonomyItem};
use axon::domain::money::Money;
use axon::domain::statement::Statement;

#[test]
fn maps_statement_keys_and_sj_div() {
    assert_eq!(stmt_from_key("cf"), Some(Statement::Cf));
    assert_eq!(stmt_from_key("zz"), None);
    assert_eq!(repr_sj_div(Statement::Bs), "BS1");
    assert_eq!(repr_sj_div(Statement::Sce), "SCE1");
}

fn item(id: &str, nm: &str, kor: &str, eng: &str, r: &str) -> TaxonomyItem {
    TaxonomyItem {
        account_id: id.into(),
        account_nm: nm.into(),
        label_kor: kor.into(),
        label_eng: eng.into(),
        ifrs_ref: r.into(),
    }
}

#[test]
fn parses_real_schema_to_taxonomy() {
    let list = vec![
        item("ifrs_AssetsAbstract", "AssetsAbstract", "자산 [abstract]", "Assets [abstract]", " "),
        item("ifrs_CurrentAssets", "", "유동자산", "Current assets", "K-IFRS 1001 문단 60"),
        item("dart_ShortTermOtherReceivables", "", "미수금", "", ""),
        item("", "빈ID는버려짐", "", "", ""),
    ];
    let tax = to_taxonomy(Statement::Bs, &list);
    assert_eq!(tax.concepts.len(), 3);
    assert_eq!(tax.concepts[0].concept_id, "ifrs-full_AssetsAbstract");
    assert_eq!(tax.concepts[2].concept_id, "dart_ShortTermOtherReceivables");
    assert!(tax.concepts[0].is_abstract);
    assert_eq!(tax.concepts[0].label_ko, "자산");
    assert!(!tax.concepts[1].is_abstract);
    assert_eq!(tax.concepts[0].ifrs_ref, "");
    assert_eq!(tax.concepts[1].ifrs_ref, "K-IFRS 1001 문단 60");
    assert_eq!(tax.label_ko("ifrs-full_CurrentAssets"), Some("유동자산"));
    assert_eq!(tax.concepts[2].ord, 2);
}

#[test]
fn label_helpers() {
    assert_eq!(canon_id("ifrs_Assets"), "ifrs-full_Assets");
    assert_eq!(canon_id("dart_X"), "dart_X");
    assert_eq!(canon_id("ifrs"), "ifrs");
    assert_eq!(strip_abstract("  자본 [abstract] "), "자본");
    assert_eq!(strip_abstract("a[abstract]b[abstract]"), "ab");
    assert_eq!(status_error("000", "정상"), None);
    assert_eq!(status_error("013", "없음"), Some("[013] 없음".to_string()));
}

#[test]
fn parses_list_entries() {
    let xml = r#"<result>
            <list><corp_code>00126380</corp_code><corp_name>삼성전자</corp_name><stock_code>005930</stock_code></list>
            <list><corp_code>00164779</corp_code><corp_name>SK하이닉스</corp_name><stock_code>000660</stock_code></list>
        </result>"#;
    let corps = parse_corps(xml);
    assert_eq!(corps.len(), 2);
    assert_eq!(corps[0].name, "삼성전자");
    assert_eq!(corps[0].code, "00126380");
    assert_eq!(corps[1].stock, "000660");
}

#[test]
fn list_events_make_records() {
    let ev = |s: &str| XmlEvent::Start(s.to_string());
    let tx = |s: &str| XmlEvent::Text(s.to_string());
    let en = |s: &str| XmlEvent::End(s.to_string());
    let events = vec![
        ev("result"),
        ev("list"), ev("corp_code"), tx("00126380"), en("corp_code"),
        ev("corp_name"), tx("삼성전자"), en("corp_name"),
        ev("stock_code"), tx("005930"), en("stock_code"), en("list"),
        en("result"),
        XmlEvent::Eof,
    ];
    let corps = corps_of_events(&events);
    assert_eq!(corps.len(), 1);
    assert_eq!(corps[0].stock, "005930");
}

#[test]
fn parse_skips_codeless_records_and_stops_at_eof() {
    let events = vec![
        XmlEvent::Start("list".into()),
        XmlEvent::Start("corp_name".into()),
        XmlEvent::Text("이름만".into()),
        XmlEvent::End("corp_name".into()),
        XmlEvent::End("list".into()),
        XmlEvent::Eof,
        XmlEvent::Start("list".into()),
        XmlEvent::Start("corp_code".into()),
        XmlEvent::Text("1".into()),
        XmlEvent::End("list".into()),
    ];
    assert!(corps_of_events(&events).is_empty());
}

fn corp(code: &str, name: &str) -> Corp {
    Corp { code: code.into(), name: name.into(), stock: String::new() }
}

#[test]
fn search_by_name_part() {
    let corps = vec![corp("1", "삼성전자"), corp("2", "삼성물산"), corp("3", "LG전자")];
    let hits = search_corps(&corps, " 전자 ");
    assert_eq!(hits.len(), 2);
    assert_eq!(hits[0].code, "1");
    assert_eq!(hits[1].code, "3");
    assert!(search_corps(&corps, "   ").is_empty());
    let many: Vec<Corp> = (0..60).map(|i| corp(&i.to_string(), "같은회사")).collect();
    assert_eq!(search_corps(&many, "회사").len(), 50);
}

#[test]
fn request_parameters_normalise() {
    assert_eq!(norm_basis(Some("OFS".into())), "OFS");
    assert_eq!(norm_basis(Some("xx".into())), "CFS");
    assert_eq!(norm_basis(None), "CFS");
    assert_eq!(norm_reprt(Some("11013".into())), "11013");
    assert_eq!(norm_reprt(Some("9".into())), "11011");
    assert_eq!(norm_reprt(None), "11011");
}

#[test]
fn status_codes_map_to_messages() {
    assert_eq!(check_status("000", "정상"), Ok(true));
    assert_eq!(check_status("013", "없음"), Ok(false));
    assert_eq!(check_status("020", "x"), Err("[020] 요청 제한을 초과했습니다.".to_string()));
    assert_eq!(check_status("101", "x"), Err("[101] 요청 값이 부적절합니다.".to_string()));
    assert_eq!(check_status("999", "이상"), Err("OpenDART 오류 [999]: 이상".to_string()));
}

#[test]
fn parse_i32_like_std() {
    assert_eq!(parse_i32("2023"), Some(2023));
    assert_eq!(parse_i32("+7"), Some(7));
    assert_eq!(parse_i32("-2147483648"), Some(i32::MIN));
    assert_eq!(parse_i32("2147483648"), None);
    assert_eq!(parse_i32(""), None);
    assert_eq!(parse_i32("-"), None);
    assert_eq!(parse_i32("20a3"), None);
    assert_eq!(parse_i32(" 1"), None);
}

fn row(sj: &str, id: &str, nm: &str, cur: &str, add: &str, prev: &str, prev2: &str) -> DartItem {
    DartItem {
        sj_div: sj.into(),
        account_id: id.into(),
        account_nm: nm.into(),
        thstrm_amount: cur.into(),
        thstrm_add_amount: add.into(),
        frmtrm_amount: prev.into(),
        bfefrmtrm_amount: prev2.into(),
    }
}

#[test]
fn rows_melt_into_facts() {
    let items = vec![
        row("BS", "ifrs-full_Assets", "자산총계", "1,000", "", "900", "800"),
        row("XX", "", "무시", "1", "", "1", "1"),
        row("IS", "", "매출액", "10", "30", "20", "15"),
    ];
    let annual = facts_of(&items, "2023", "11011");
    assert_eq!(annual.len(), 6);
    assert_eq!(annual[0].period, 2023);
    assert_eq!(annual[2].period, 2021);
    assert_eq!(annual[0].value, Money::parse("1000"));
    assert_eq!(annual[3].value, Money::parse("10"));
    let quarter = facts_of(&items, "2023", "11013");
    assert_eq!(quarter[3].value, Money::parse("30"));
    assert_eq!(quarter[0].value, Money::parse("1000"));
    let bad_year = facts_of(&items, "abc", "11011");
    assert_eq!(bad_year[0].period, 0);
}

#[test]
fn year_range_bases_step_by_three() {
    assert_eq!(range_bases(2015, 2023), Ok(vec![2023, 2020, 2017]));
    assert_eq!(range_bases(2023, 2023), Ok(vec![2023]));
    assert_eq!(range_bases(2024, 2023), Err("연도 범위가 잘못되었습니다.".to_string()));
}

#[test]
fn names_keep_entity_references_as_written() {
    let xml = "<result><list><corp_code>00111111</corp_code><corp_name>S&amp;T홀딩스</corp_name><stock_code> </stock_code></list></result>";
    let corps = parse_corps(xml);
    assert_eq!(corps.len(), 1);
    assert_eq!(corps[0].name, "S&amp;T홀딩스");
    let events = vec![
        XmlEvent::Start("list".into()),
        XmlEvent::Start("corp_code".into()),
        XmlEvent::Text("7".into()),
        XmlEvent::End("corp_code".into()),
        XmlEvent::Start("corp_name".into()),
        XmlEvent::Text("A".into()),
        XmlEvent::Ref("lt".into()),
        XmlEvent::Text("B".into()),
        XmlEvent::End("corp_name".into()),
        XmlEvent::Start("corp_name".into()),
        XmlEvent::End("corp_name".into()),
        XmlEvent::End("list".into()),
        XmlEvent::Eof,
    ];
    let corps = corps_of_events(&events);
    assert_eq!(corps[0].name, "A&lt;B");
}
