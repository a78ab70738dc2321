use axon::domain::statement::Statement;
use axon::domain::taxonomy::{Taxonomy, TaxonomyConcept};

fn concept(id: &str, ko: &str, parent: Option<&str>, ord: i32) -> TaxonomyConcept {
    TaxonomyConcept {
        concept_id: id.to_string(),
        label_ko: ko.to_string(),
        label_en: String::new(),
        ifrs_ref: String::new(),
        is_abstract: false,
        parent: parent.map(str::to_string),
        ord,
    }
}

fn concept_ab(id: &str, ko: &str, ord: i32) -> TaxonomyConcept {
    TaxonomyConcept {
        concept_id: id.to_string(),
        label_ko: ko.to_string(),
        label_en: String::new(),
        ifrs_ref: String::new(),
        is_abstract: true,
        parent: None,
        ord,
    }
}

fn sample() -> Taxonomy {
    Taxonomy {
        statement: Statement::Bs,
        concepts: vec![
            concept("ifrs-full_Assets", "자산총계", None, 0),
            concept("ifrs-full_CurrentAssets", "유동자산", Some("ifrs-full_Assets"), 1),
            concept("ifrs-full_NoncurrentAssets", "비유동자산", Some("ifrs-full_Assets"), 2),
        ],
    }
}

#[test]
fn label_and_standard_lookup() {
    let t = sample();
    assert_eq!(t.label_ko("ifrs-full_CurrentAssets"), Some("유동자산"));
    assert!(t.is_standard("ifrs-full_Assets"));
    assert!(!t.is_standard("dart_madeup"));
}

#[test]
fn tree_roots_and_children() {
    let t = sample();
    let roots = t.roots();
    assert_eq!(roots.len(), 1);
    assert_eq!(roots[0].concept_id, "ifrs-full_Assets");
    let kids = t.children_of("ifrs-full_Assets");
    assert_eq!(kids.len(), 2);
    assert_eq!(kids[0].concept_id, "ifrs-full_CurrentAssets");
}

#[test]
fn alias_index_maps_normalized_label_to_concept() {
    let t = sample();
    let idx = t.alias_index();
    assert_eq!(idx.get("유동자산").map(String::as_str), Some("ifrs-full_CurrentAssets"));
}

#[test]
fn flat_taxonomy_all_roots() {
    let t = Taxonomy {
        statement: Statement::Is,
        concepts: vec![
            concept("ifrs-full_Revenue", "수익(매출액)", None, 0),
            concept("ifrs-full_ProfitLoss", "당기순이익", None, 1),
        ],
    };
    assert_eq!(t.roots().len(), 2);
}

#[test]
fn section_map_skips_root_groups_by_section() {
    let t = Taxonomy {
        statement: Statement::Bs,
        concepts: vec![
            concept_ab("ifrs-full_StatementOfFinancialPositionAbstract", "재무상태표", 0),
            concept_ab("ifrs-full_AssetsAbstract", "자산", 1),
            concept("ifrs-full_CurrentAssets", "유동자산", None, 2),
            concept("ifrs-full_Cash", "현금", None, 3),
            concept_ab("ifrs-full_LiabilitiesAbstract", "부채", 4),
            concept("ifrs-full_CurrentLiabilities", "유동부채", None, 5),
        ],
    };
    let m = t.section_map();
    assert_eq!(m.get("ifrs-full_CurrentAssets").map(String::as_str), Some("자산"));
    assert_eq!(m.get("ifrs-full_Cash").map(String::as_str), Some("자산"));
    assert_eq!(m.get("ifrs-full_CurrentLiabilities").map(String::as_str), Some("부채"));
    assert!(!m.contains_key("ifrs-full_AssetsAbstract"));
    assert!(!m.contains_key("ifrs-full_StatementOfFinancialPositionAbstract"));
}

#[test]
fn section_map_empty_when_only_root() {
    let t = Taxonomy {
        statement: Statement::Cf,
        concepts: vec![
            concept_ab("ifrs-full_StatementOfCashFlowsAbstract", "현금흐름표", 0),
            concept("ifrs-full_CashFlowsFromOperatingActivities", "영업활동현금흐름", None, 1),
        ],
    };
    assert!(t.section_map().is_empty());
}

#[test]
fn roots_sort_stably_by_order() {
    // Equal orders keep their input order; smaller orders come first.
    let t = Taxonomy {
        statement: Statement::Bs,
        concepts: vec![
            concept("c", "다", None, 2),
            concept("a", "가", None, 1),
            concept("b", "나", None, 2),
            concept("x", "라", Some("a"), 0),
        ],
    };
    let ids: Vec<&str> = t.roots().iter().map(|c| c.concept_id.as_str()).collect();
    assert_eq!(ids, vec!["a", "c", "b"]);
    assert_eq!(t.label_ko("zz"), None);
}

#[test]
fn alias_index_first_label_wins() {
    let t = Taxonomy {
        statement: Statement::Bs,
        concepts: vec![
            concept("first", "1. 현금 (주)", None, 0),
            concept("second", "현금", None, 1),
        ],
    };
    assert_eq!(t.alias_index().get("현금").map(String::as_str), Some("first"));
}
