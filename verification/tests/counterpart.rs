use axon::ledger::counterpart::{counterpart_frame, EntryRole, RowAmounts};
use axon::ledger::frame::Frame;
use axon::ledger::import::import_csv;

struct Cols {
    account: &'static str,
    voucher: &'static str,
    debit: &'static str,
    credit: &'static str,
}

fn cols() -> Cols {
    Cols { account: "account", voucher: "voucher", debit: "debit", credit: "credit" }
}

fn col(df: &Frame, name: &str) -> usize {
    df.columns.iter().position(|c| c == name).unwrap()
}

/// Reads the amounts as the application does and lets the library classify.
fn analyze_counterpart(df: &Frame, cols: &Cols, target: &str, eps: f64) -> Result<Frame, String> {
    let (v, d, c) = (col(df, cols.voucher), col(df, cols.debit), col(df, cols.credit));
    let amount = |row: &Vec<String>, i: usize| row[i].trim().parse::<f64>().unwrap_or(0.0);
    let mut net = std::collections::HashMap::new();
    for row in &df.rows {
        *net.entry(row[v].clone()).or_insert(0.0) += amount(row, d) - amount(row, c);
    }
    let amounts: Vec<RowAmounts> = df
        .rows
        .iter()
        .map(|row| {
            let balance: f64 = net[&row[v]];
            RowAmounts {
                debit: amount(row, d) > eps,
                credit: amount(row, c) > eps,
                net: format!("{:?}", amount(row, d) - amount(row, c)),
                unbalanced: balance > eps || balance < -eps,
            }
        })
        .collect();
    counterpart_frame(df, cols.account, cols.voucher, target, &amounts)
}

// V1: Cash(debit 100)/Sales(credit 100), V2: Equip(debit 50)/Cash(credit 50),
// V3: Other/Misc (no Cash)
fn sample() -> Frame {
    import_csv(
        b"voucher,account,debit,credit\n\
          V1,Cash,100,0\nV1,Sales,0,100\n\
          V2,Equip,50,0\nV2,Cash,0,50\n\
          V3,Other,10,0\nV3,Misc,0,10\n"
            .to_vec(),
    )
    .unwrap()
}

fn role_count(df: &Frame, role: &str) -> usize {
    let c = col(df, "entry_role");
    df.rows.iter().filter(|r| r[c] == role).count()
}

#[test]
fn extracts_only_vouchers_containing_target() {
    let out = analyze_counterpart(&sample(), &cols(), "Cash", 1e-6).unwrap();
    assert_eq!(out.height(), 4); // the 4 rows of V1 and V2, V3 left out
}

#[test]
fn classifies_true_counterpart_by_direction() {
    let out = analyze_counterpart(&sample(), &cols(), "Cash", 1e-6).unwrap();
    assert_eq!(role_count(&out, "TARGET"), 2); // the two Cash rows
    assert_eq!(role_count(&out, "TRUE_COUNTERPART"), 2); // Sales (target DR), Equip (target CR)
}

#[test]
fn flags_trial_balance_mismatch() {
    // V4: debit 100 / credit 90 → sum 10 ≠ 0
    let df = import_csv(b"voucher,account,debit,credit\nV4,Cash,100,0\nV4,Sales,0,90\n".to_vec()).unwrap();
    let out = analyze_counterpart(&df, &cols(), "Cash", 1e-6).unwrap();
    let ic = col(&out, "integrity_check");
    assert!(out.rows.iter().all(|r| r[ic].contains("Mismatch")));
}

#[test]
fn adds_net_role_and_check_columns_in_row_order() {
    let out = analyze_counterpart(&sample(), &cols(), "Cash", 1e-6).unwrap();
    assert_eq!(
        out.columns,
        vec!["voucher", "account", "debit", "credit", "_net", "entry_role", "integrity_check"]
    );
    assert_eq!(out.rows[0], vec!["V1", "Cash", "100", "0", "100.0", "TARGET", "Verified"]);
    assert_eq!(out.rows[1], vec!["V1", "Sales", "0", "100", "-100.0", "TRUE_COUNTERPART", "Verified"]);
    assert_eq!(out.rows[2], vec!["V2", "Equip", "50", "0", "50.0", "TRUE_COUNTERPART", "Verified"]);
    assert_eq!(out.rows[3], vec!["V2", "Cash", "0", "50", "-50.0", "TARGET", "Verified"]);
}

#[test]
fn same_side_rows_of_a_compound_voucher_are_side_entries() {
    // Cash and Fee both on the debit side, Sales on the credit side.
    let df = import_csv(
        b"voucher,account,debit,credit\nV1,Cash,90,0\nV1,Fee,10,0\nV1,Sales,0,100\n".to_vec(),
    )
    .unwrap();
    let out = analyze_counterpart(&df, &cols(), "Cash", 1e-6).unwrap();
    let r = col(&out, "entry_role");
    let roles: Vec<&str> = out.rows.iter().map(|row| row[r].as_str()).collect();
    assert_eq!(roles, vec!["TARGET", "SIDE_ENTRY", "TRUE_COUNTERPART"]);
}

#[test]
fn debit_side_wins_when_the_target_is_on_both_sides() {
    // The target appears once on each side: the voucher's side is debit,
    // so only credit rows are counterparts.
    let df = Frame {
        columns: vec!["voucher".into(), "account".into()],
        rows: vec![
            vec!["V".into(), "Cash".into()],
            vec!["V".into(), "Cash".into()],
            vec!["V".into(), "Loan".into()],
            vec!["V".into(), "Sales".into()],
        ],
    };
    let amounts = vec![
        RowAmounts { debit: false, credit: true, net: "-5".into(), unbalanced: false },
        RowAmounts { debit: true, credit: false, net: "5".into(), unbalanced: false },
        RowAmounts { debit: true, credit: false, net: "5".into(), unbalanced: false },
        RowAmounts { debit: false, credit: true, net: "-5".into(), unbalanced: false },
    ];
    let out = counterpart_frame(&df, "account", "voucher", "Cash", &amounts).unwrap();
    let roles: Vec<&str> = out.rows.iter().map(|row| row[3].as_str()).collect();
    assert_eq!(roles, vec!["TARGET", "TARGET", "SIDE_ENTRY", "TRUE_COUNTERPART"]);
}

#[test]
fn missing_account_or_voucher_column_is_an_error() {
    let df = sample();
    let amounts: Vec<RowAmounts> = df
        .rows
        .iter()
        .map(|_| RowAmounts { debit: false, credit: false, net: String::new(), unbalanced: false })
        .collect();
    assert_eq!(
        counterpart_frame(&df, "계정", "voucher", "Cash", &amounts).err().unwrap(),
        "열 '계정' 을(를) 찾을 수 없습니다."
    );
    assert_eq!(
        counterpart_frame(&df, "account", "전표", "Cash", &amounts).err().unwrap(),
        "열 '전표' 을(를) 찾을 수 없습니다."
    );
}

#[test]
fn role_labels() {
    assert_eq!(EntryRole::Target.label(), "TARGET");
    assert_eq!(EntryRole::TrueCounterpart.label(), "TRUE_COUNTERPART");
    assert_eq!(EntryRole::SideEntry.label(), "SIDE_ENTRY");
}
