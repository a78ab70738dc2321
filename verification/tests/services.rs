use axon::domain::concept;
use axon::domain::decimal::Dec;
use axon::domain::fact::Fact;
use axon::domain::footing::FootingCheck;
use axon::domain::money::Money;
use axon::domain::statement::Statement;
use axon::domain::table::Table;
use axon::service::footing::{try_verify_footing, verify_footing};
use axon::service::ratio::{compute_ratios, try_compute_ratios};

fn f(concept_id: &str, period: i32, v: &str) -> Fact {
    Fact {
        statement: Statement::Bs,
        concept_id: concept_id.to_string(),
        account_nm: String::new(),
        period,
        value: Money::parse(v),
    }
}

#[test]
fn accounting_equation_holds_and_breaks() {
    let ok = vec![
        f(concept::ASSETS, 2023, "1000"),
        f(concept::LIABILITIES, 2023, "600"),
        f(concept::EQUITY, 2023, "400"),
    ];
    let c = verify_footing(&ok)
        .into_iter()
        .find(|c| c.name.starts_with("회계등식"))
        .unwrap();
    assert!(c.ok);
    assert_eq!(c.diff(), Money::zero());

    let bad = vec![
        f(concept::ASSETS, 2023, "1000"),
        f(concept::LIABILITIES, 2023, "600"),
        f(concept::EQUITY, 2023, "300"),
    ];
    let c = verify_footing(&bad)
        .into_iter()
        .find(|c| c.name.starts_with("회계등식"))
        .unwrap();
    assert!(!c.ok);
    assert_eq!(c.diff(), Money::parse("100"));
    assert_eq!(c.display(), "100");
}

#[test]
fn missing_account_skips_check() {
    let facts = vec![f(concept::ASSETS, 2023, "1000")];
    assert!(verify_footing(&facts)
        .iter()
        .all(|c| !c.name.starts_with("회계등식")));
}

#[test]
fn try_verify_footing_agrees() {
    let facts = vec![
        f(concept::ASSETS, 2023, "1000"),
        f(concept::LIABILITIES, 2023, "600"),
        f(concept::EQUITY, 2023, "400"),
    ];
    let a = try_verify_footing(&facts).unwrap();
    let b = verify_footing(&facts);
    assert_eq!(a.len(), b.len());
}

#[test]
fn computes_liquidity_and_debt_ratios() {
    let facts = vec![
        f(concept::CURRENT_ASSETS, 2023, "300"),
        f(concept::CURRENT_LIABILITIES, 2023, "150"),
        f(concept::LIABILITIES, 2023, "400"),
        f(concept::EQUITY, 2023, "200"),
    ];
    let r = compute_ratios(&facts);
    let get = |name: &str| r.iter().find(|x| x.name == name).unwrap().value;
    assert_eq!(get("유동비율"), Some(Dec::from_i64(200)));
    assert_eq!(get("부채비율"), Some(Dec::from_i64(200)));
}

#[test]
fn missing_account_or_zero_denominator_is_none() {
    let facts = vec![f(concept::CURRENT_ASSETS, 2023, "300")];
    let cur = compute_ratios(&facts)
        .into_iter()
        .find(|x| x.name == "유동비율")
        .unwrap();
    assert_eq!(cur.value, None);
    assert_eq!(cur.display(), "—");
}

#[test]
fn alias_lets_named_facts_feed_ratios() {
    let facts: Vec<Fact> = [("유동자산", "300"), ("유동부채", "150")]
        .iter()
        .flat_map(|(nm, v)| {
            Fact::melt(
                Statement::Bs,
                "",
                nm,
                2023,
                [Money::parse(v), Money::parse("0"), Money::parse("0")],
            )
        })
        .collect();
    let cur = compute_ratios(&facts)
        .into_iter()
        .find(|x| x.name == "유동비율")
        .unwrap();
    assert_eq!(cur.value, Some(Dec::from_i64(200)));
}

#[test]
fn display_strips_trailing_zeros() {
    let facts = vec![
        f(concept::CURRENT_ASSETS, 2023, "300"),
        f(concept::CURRENT_LIABILITIES, 2023, "150"),
    ];
    let cur = compute_ratios(&facts)
        .into_iter()
        .find(|x| x.name == "유동비율")
        .unwrap();
    assert_eq!(cur.display(), "200%");
}

#[test]
fn zero_denominator_is_none() {
    let facts = vec![
        f(concept::CURRENT_ASSETS, 2023, "300"),
        f(concept::CURRENT_LIABILITIES, 2023, "0"),
    ];
    let cur = try_compute_ratios(&facts)
        .unwrap()
        .into_iter()
        .find(|x| x.name == "유동비율")
        .unwrap();
    assert_eq!(cur.value, None);
}

#[test]
fn ratio_rounds_to_two_places() {
    let facts = vec![
        f(concept::CURRENT_ASSETS, 2023, "100"),
        f(concept::CURRENT_LIABILITIES, 2023, "300"),
    ];
    let cur = compute_ratios(&facts)
        .into_iter()
        .find(|x| x.name == "유동비율")
        .unwrap();
    assert_eq!(cur.display(), "33.33%");
}

#[test]
fn footing_table_shows_ok_and_difference() {
    let checks = vec![
        FootingCheck {
            name: "회계등식",
            period: 2023,
            computed: Money::parse("1000"),
            expected: Money::parse("900"),
            ok: false,
        },
        FootingCheck {
            name: "회계등식",
            period: 2022,
            computed: Money::parse("5"),
            expected: Money::parse("5"),
            ok: true,
        },
    ];
    let t = Table::from_footing(&checks);
    assert_eq!(t.headers, vec!["검증 항목", "2023", "2022"]);
    assert_eq!(t.rows[0], vec!["회계등식", "100", "OK"]);
    assert!(Table::try_from_footing(&checks).is_some());
}

#[test]
fn ratio_table_uses_dash_for_missing() {
    let facts = vec![
        f(concept::CURRENT_ASSETS, 2023, "300"),
        f(concept::CURRENT_LIABILITIES, 2023, "150"),
    ];
    let t = Table::from_ratios(&compute_ratios(&facts));
    assert_eq!(t.headers, vec!["지표", "산식", "2023"]);
    assert_eq!(t.rows[0], vec!["유동비율", "유동자산 / 유동부채", "200%"]);
    assert_eq!(t.rows[1][2], "—");
}
