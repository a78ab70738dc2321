use axon::domain::concept;
use axon::domain::decimal::Dec;
use axon::domain::fact::Fact;
use axon::domain::money::Money;
use axon::domain::statement::Statement;

#[test]
fn melt_explodes_three_periods_descending() {
    let facts = Fact::melt(
        Statement::Bs,
        "ifrs-full_Assets",
        "자산총계",
        2023,
        [Money::parse("300"), Money::parse("200"), Money::parse("100")],
    );
    assert_eq!(facts.len(), 3);
    assert_eq!(facts[0].period, 2023);
    assert_eq!(facts[1].period, 2022);
    assert_eq!(facts[2].period, 2021);
    assert_eq!(facts[0].concept_id, "ifrs-full_Assets");
    assert_eq!(facts[0].value, Money::parse("300"));
}

#[test]
fn melt_fills_concept_from_alias_when_empty() {
    let facts = Fact::melt(
        Statement::Bs,
        "",
        "유동자산",
        2023,
        [Money::parse("1"), Money::parse("2"), Money::parse("3")],
    );
    assert_eq!(facts[0].concept_id, concept::CURRENT_ASSETS);
}

#[test]
fn melt_keeps_explicit_concept_id() {
    let facts = Fact::melt(
        Statement::Bs,
        "ifrs-full_Assets",
        "아무이름",
        2023,
        [Money::parse("1"), Money::parse("2"), Money::parse("3")],
    );
    assert_eq!(facts[0].concept_id, "ifrs-full_Assets");
}

#[test]
fn melt_unknown_name_stays_empty() {
    let facts = Fact::melt(
        Statement::Bs,
        "",
        "비표준계정xyz",
        2023,
        [Money::parse("1"), Money::parse("2"), Money::parse("3")],
    );
    assert_eq!(facts[0].concept_id, "");
}

#[test]
fn parse_strips_commas_and_handles_blanks() {
    assert_eq!(Money::parse("1,234,567"), Money(Dec::from_i64(1_234_567)));
    assert_eq!(Money::parse("-1,000"), Money(Dec::from_i64(-1_000)));
    assert_eq!(Money::parse(""), Money::zero());
    assert_eq!(Money::parse("-"), Money::zero());
    assert_eq!(Money::parse(" 500 "), Money(Dec::from_i64(500)));
}

#[test]
fn fmt_comma_groups_by_three() {
    assert_eq!(
        Money(Dec::from_i64(455_905_980_000_000_i64)).fmt_comma(),
        "455,905,980,000,000"
    );
    assert_eq!(Money(Dec::from_i64(1_234)).fmt_comma(), "1,234");
    assert_eq!(Money(Dec::from_i64(100)).fmt_comma(), "100");
    assert_eq!(Money(Dec::from_i64(-1_000)).fmt_comma(), "-1,000");
    assert_eq!(Money::zero().fmt_comma(), "0");
}

#[test]
fn parse_garbage_is_zero_and_keeps_fraction() {
    assert_eq!(Money::parse("abc"), Money::zero());
    assert_eq!(Money::parse("1,234.50").fmt_comma(), "1,234.50");
    assert_eq!(Money::parse("-0.5").fmt_comma(), "-0.5");
}

#[test]
fn money_arithmetic_is_checked() {
    let a = Money::parse("1000");
    let b = Money::parse("400");
    assert_eq!(a.checked_add(b), Some(Money::parse("1400")));
    assert_eq!(a.checked_sub(b), Some(Money::parse("600")));
}

#[test]
fn grouped_amounts_parse_back() {
    for raw in ["1234567", "-455905980000000", "0.50", "-12.345", "999"] {
        let m = Money::parse(raw);
        assert_eq!(Money::parse(&m.fmt_comma()).fmt_comma(), m.fmt_comma());
        assert!(Money::parse(&m.fmt_comma()) == m);
    }
}
