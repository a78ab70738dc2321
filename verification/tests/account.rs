use axon::domain::account::{merge_key, normalize};
use axon::domain::alias::resolve;
use axon::domain::concept;

#[test]
fn normalize_strips_brackets_numbering_whitespace() {
    assert_eq!(normalize("Ⅰ. 유동자산"), "유동자산");
    assert_eq!(normalize("1. 현금및현금성자산 (주2)"), "현금및현금성자산");
    assert_eq!(normalize("가. 자본금"), "자본금");
    assert_eq!(normalize("기타 (상세)"), "기타");
    assert_eq!(normalize("가지급금"), "가지급금"); // no separator: nothing stripped
}

#[test]
fn merge_key_chain_concept_alias_normalize() {
    assert_eq!(merge_key("ifrs-full_Assets", "자산총계"), "ifrs-full_Assets");
    assert_eq!(merge_key("", "Ⅰ. 유동자산"), concept::CURRENT_ASSETS);
    assert_eq!(merge_key("", "Ⅰ. 비표준계정"), "비표준계정");
}

#[test]
fn resolves_known_aliases_to_concept() {
    assert_eq!(resolve("자산총계"), Some(concept::ASSETS));
    assert_eq!(resolve("영업수익"), Some(concept::REVENUE));
    assert_eq!(resolve("매출액"), Some(concept::REVENUE));
}

#[test]
fn resolves_through_normalization() {
    assert_eq!(resolve("Ⅰ. 유동자산"), Some(concept::CURRENT_ASSETS));
    assert_eq!(resolve("수익(매출액)"), Some(concept::REVENUE));
    assert_eq!(resolve("당기순이익(손실)"), Some(concept::PROFIT_LOSS));
    assert_eq!(resolve("영업이익(손실)"), Some(concept::OPERATING_INCOME));
}

#[test]
fn unknown_or_ambiguous_returns_none() {
    assert_eq!(resolve("매출원가"), None);
    assert_eq!(resolve("매출총이익"), None);
    assert_eq!(resolve("기타포괄손익"), None);
    assert_eq!(resolve("이름없는계정"), None);
}

#[test]
fn normalize_nested_and_stray_brackets() {
    // Nested notes are removed whole; a stray closer does not push the depth below zero.
    assert_eq!(normalize("현금(주(1)2)예금"), "현금예금");
    assert_eq!(normalize(")현금"), "현금");
    // ")" closes a note, so "12)" leaves "12" with no separator after it.
    assert_eq!(normalize("【주석】 12) 매출채권"), "12매출채권");
    assert_eq!(normalize("【주석】 12. 매출채권"), "매출채권");
    assert_eq!(normalize("  "), "");
    assert_eq!(normalize("a)"), "a");
}
