use axon::dart::xbrl::{linkbase_arcs, resolve_arcs, values_for_year, violations_table, LinkEvent};
use axon::domain::calc_tree::CalcTree;
use axon::domain::decimal::Dec;
use axon::domain::fact::Fact;
use axon::domain::money::Money;
use axon::domain::statement::Statement;
use axon::strmap::StrMap;

/// The order key of a linkbase `order` value: sorts as the numbers do.
fn key(x: f64) -> u64 {
    let x = if x == 0.0 { 0.0 } else { x };
    let b = x.to_bits();
    if b >> 63 == 0 {
        b | (1 << 63)
    } else {
        !b
    }
}

fn arc(p: &str, c: &str, order: f64, w: i32) -> (String, String, u64, i32) {
    (p.to_string(), c.to_string(), key(order), w)
}

#[test]
fn builds_tree_sorted_by_order() {
    let arcs = vec![
        arc("ifrs-full_Assets", "ifrs-full_NoncurrentAssets", 2.0, 1),
        arc("ifrs-full_Assets", "ifrs-full_CurrentAssets", 1.0, 1),
        arc("ifrs-full_CurrentAssets", "ifrs-full_CashAndCashEquivalents", 1.0, 1),
    ];
    let t = CalcTree::from_arcs(arcs);
    let kids = t.children_of("ifrs-full_Assets");
    assert_eq!(kids.len(), 2);
    assert_eq!(kids[0].concept_id, "ifrs-full_CurrentAssets");
    assert_eq!(kids[1].concept_id, "ifrs-full_NoncurrentAssets");
    assert_eq!(
        t.children_of("ifrs-full_CurrentAssets")[0].concept_id,
        "ifrs-full_CashAndCashEquivalents"
    );
}

#[test]
fn roots_are_top_level_only() {
    let arcs = vec![
        arc("ifrs-full_Assets", "ifrs-full_CurrentAssets", 1.0, 1),
        arc("ifrs-full_CurrentAssets", "ifrs-full_Cash", 1.0, 1),
    ];
    let t = CalcTree::from_arcs(arcs);
    assert_eq!(t.roots(), vec!["ifrs-full_Assets"]);
}

#[test]
fn consensus_majority_parent_and_median_order() {
    let t1 = CalcTree::from_arcs(vec![arc("CurrentAssets", "Cash", 1.0, 1)]);
    let t2 = CalcTree::from_arcs(vec![arc("CurrentAssets", "Cash", 2.0, 1)]);
    let t3 = CalcTree::from_arcs(vec![arc("OtherAssets", "Cash", 9.0, 1)]);
    let c = CalcTree::consensus(&[t1, t2, t3]);
    let kids = c.children_of("CurrentAssets");
    assert_eq!(kids.len(), 1);
    assert_eq!(kids[0].concept_id, "Cash");
    assert!(c.children_of("OtherAssets").is_empty());
    assert_eq!(kids[0].order, key(2.0));
}

#[test]
fn negative_weight_preserved() {
    let t = CalcTree::from_arcs(vec![arc("p", "allowance", 1.0, -1)]);
    assert_eq!(t.children_of("p")[0].weight, -1);
}

fn values(pairs: &[(&str, i64)]) -> StrMap<Dec> {
    let mut v = StrMap::new();
    for (k, n) in pairs {
        v.insert(k.to_string(), Dec::from_i64(*n));
    }
    v
}

#[test]
fn footing_flags_mismatch() {
    let t = CalcTree::from_arcs(vec![
        arc("Assets", "CurrentAssets", 1.0, 1),
        arc("Assets", "NoncurrentAssets", 1.0, 1),
    ]);
    let v = values(&[("Assets", 100), ("CurrentAssets", 60), ("NoncurrentAssets", 30)]);
    let viol = t.footing_violations(&v);
    assert_eq!(viol.len(), 1);
    assert_eq!(viol[0].concept_id, "Assets");
    assert_eq!(viol[0].diff, Dec::from_i64(10));
}

#[test]
fn footing_ok_when_balanced() {
    let t = CalcTree::from_arcs(vec![
        arc("Assets", "CurrentAssets", 1.0, 1),
        arc("Assets", "NoncurrentAssets", 1.0, 1),
    ]);
    let v = values(&[("Assets", 100), ("CurrentAssets", 60), ("NoncurrentAssets", 40)]);
    assert!(t.footing_violations(&v).is_empty());
}

#[test]
fn footing_respects_negative_weight() {
    let t = CalcTree::from_arcs(vec![
        arc("GrossProfit", "Revenue", 1.0, 1),
        arc("GrossProfit", "CostOfSales", 1.0, -1),
    ]);
    let v = values(&[("GrossProfit", 30), ("Revenue", 100), ("CostOfSales", 70)]);
    assert!(t.footing_violations(&v).is_empty());
}

#[test]
fn footing_skips_unreported_parents_and_children() {
    let t = CalcTree::from_arcs(vec![
        arc("A", "B", 1.0, 1),
        arc("C", "D", 1.0, 1),
    ]);
    let v = values(&[("B", 5), ("C", 7)]);
    assert_eq!(t.try_footing_violations(&v).unwrap().len(), 0);
    assert!(!t.is_empty());
    assert!(CalcTree::new().is_empty());
}

fn el(name: &str, attrs: &[(&str, &str)]) -> LinkEvent {
    LinkEvent::Element {
        name: name.to_string(),
        attrs: attrs.iter().map(|(k, v)| (k.to_string(), v.to_string())).collect(),
    }
}

/// The tree of a linkbase text: its arcs, ordered by their `order` number.
fn parse_calc_linkbase(xml: &str) -> CalcTree {
    let arcs = linkbase_arcs(xml)
        .into_iter()
        .map(|(p, c, o, w)| (p, c, key(o.parse::<f64>().unwrap_or(0.0)), w))
        .collect();
    CalcTree::from_arcs(arcs)
}

#[test]
fn parses_cal_linkbase_to_tree() {
    let xml = r#"<link:calculationLink xlink:role="role-D210000">
            <link:loc xlink:label="L_Assets" xlink:href="x.xsd#ifrs-full_Assets" />
            <link:loc xlink:label="L_CA" xlink:href="x.xsd#ifrs-full_CurrentAssets" />
            <link:loc xlink:label="L_Cash" xlink:href="x.xsd#ifrs-full_CashAndCashEquivalents" />
            <link:loc xlink:label="L_NCA" xlink:href="x.xsd#ifrs-full_NoncurrentAssets" />
            <link:calculationArc xlink:from="L_Assets" xlink:to="L_NCA" order="2" weight="1" />
            <link:calculationArc xlink:from="L_Assets" xlink:to="L_CA" order="1" weight="1" />
            <link:calculationArc xlink:from="L_CA" xlink:to="L_Cash" order="1" weight="1" />
        </link:calculationLink>"#;
    let t = parse_calc_linkbase(xml);
    let kids = t.children_of("ifrs-full_Assets");
    assert_eq!(kids.len(), 2);
    assert_eq!(kids[0].concept_id, "ifrs-full_CurrentAssets");
    assert_eq!(kids[1].concept_id, "ifrs-full_NoncurrentAssets");
    assert_eq!(
        t.children_of("ifrs-full_CurrentAssets")[0].concept_id,
        "ifrs-full_CashAndCashEquivalents"
    );
    assert_eq!(t.roots(), vec!["ifrs-full_Assets"]);
}

#[test]
fn drops_arcs_with_unknown_locator() {
    let xml = r#"<root>
            <link:loc xlink:label="L_A" xlink:href="x#ifrs-full_Assets" />
            <link:calculationArc xlink:from="L_A" xlink:to="L_MISSING" order="1" weight="1" />
        </root>"#;
    assert!(parse_calc_linkbase(xml).is_empty());
}

#[test]
fn link_events_resolve_to_arcs() {
    let events = vec![
        el("root", &[]),
        el("link:loc", &[("xlink:label", "L_A"), ("xlink:href", "x#ifrs-full_Assets")]),
        el("link:loc", &[("xlink:label", "L_B"), ("xlink:href", "x#ifrs-full_Cash")]),
        el("link:calculationArc", &[("xlink:from", "L_A"), ("xlink:to", "L_B"), ("order", "1"), ("weight", "1")]),
        LinkEvent::Eof,
    ];
    assert_eq!(
        resolve_arcs(&events),
        vec![("ifrs-full_Assets".to_string(), "ifrs-full_Cash".to_string(), "1".to_string(), 1)]
    );
}

#[test]
fn arc_attributes_default_and_last_wins() {
    let events = vec![
        el("link:loc", &[("xlink:label", "A"), ("xlink:href", "noHash")]),
        el("link:loc", &[("xlink:label", "B"), ("xlink:href", "a#b#Child")]),
        el("link:calculationArc", &[("xlink:from", "A"), ("xlink:to", "B"), ("weight", "x"), ("weight", "-1")]),
        el("link:calculationArc", &[("xlink:from", "A"), ("xlink:to", "B"), ("weight", "bad")]),
    ];
    let arcs = resolve_arcs(&events);
    assert_eq!(arcs.len(), 2);
    assert_eq!(arcs[0], ("noHash".to_string(), "Child".to_string(), String::new(), -1));
    assert_eq!(arcs[1].3, 1);
}

#[test]
fn violations_render_as_table() {
    let t = CalcTree::from_arcs(vec![arc("A", "B", 1.0, 1)]);
    let facts = vec![
        Fact { statement: Statement::Bs, concept_id: "A".into(), account_nm: String::new(), period: 2023, value: Money::parse("10") },
        Fact { statement: Statement::Bs, concept_id: "B".into(), account_nm: String::new(), period: 2023, value: Money::parse("7") },
        Fact { statement: Statement::Bs, concept_id: "B".into(), account_nm: String::new(), period: 2022, value: Money::parse("10") },
    ];
    let v = values_for_year(&facts, 2023);
    let table = violations_table(&t.footing_violations(&v));
    assert_eq!(table.headers, vec!["계정ID", "신고값", "자식 합계", "차이"]);
    assert_eq!(table.rows[0], vec!["A", "10", "7", "3"]);
    let ok = violations_table(&Vec::new());
    assert_eq!(ok.headers, vec!["합계검증"]);
    assert_eq!(ok.rows[0][0], "✅ 모든 계층 합계가 일치합니다 (footing 통과)");
}
