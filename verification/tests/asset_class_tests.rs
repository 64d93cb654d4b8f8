use monarch_mcp::asset_allocation::{classify_asset_class, investable_accounts, AssetClass};
use monarch_mcp::client::{Account, AccountSubtype, AccountType};
use monarch_mcp::retirement_readiness::invested_financial_accounts;

/// An account as the classification reads it; the balance only shapes the id
/// (`type-balance`), from which [`balance_of`] reads it back.
fn make_account(kind: &str, subkind: Option<&str>, balance: f64) -> Account {
    Account {
        id: format!("{kind}-{balance}"),
        display_name: format!("{kind} account"),
        account_type: AccountType { name: kind.to_string() },
        subtype: subkind.map(|n| AccountSubtype { name: n.to_string(), display: n.to_string() }),
        is_hidden: false,
    }
}

fn balance_of(a: &Account) -> f64 {
    let (_, balance) = a.id.split_once('-').unwrap();
    balance.parse().unwrap()
}

// --- classify_asset_class ---

#[test]
fn brokerage_st_401k_classifies_as_equities() {
    let acct = make_account("brokerage", Some("st_401k"), 50_000.0);
    let (class, recognized) = classify_asset_class(&acct);
    assert_eq!(class, AssetClass::Equities);
    assert!(recognized, "st_401k is a known brokerage subtype");
}

#[test]
fn brokerage_roth_classifies_as_equities() {
    let acct = make_account("brokerage", Some("roth"), 100_000.0);
    let (class, recognized) = classify_asset_class(&acct);
    assert_eq!(class, AssetClass::Equities);
    assert!(recognized);
}

#[test]
fn brokerage_taxable_classifies_as_equities() {
    let acct = make_account("brokerage", Some("brokerage"), 25_000.0);
    let (class, recognized) = classify_asset_class(&acct);
    assert_eq!(class, AssetClass::Equities);
    assert!(recognized);
}

#[test]
fn brokerage_hsa_classifies_as_equities() {
    let acct = make_account("brokerage", Some("health_savings_account"), 5_000.0);
    let (class, recognized) = classify_asset_class(&acct);
    assert_eq!(class, AssetClass::Equities);
    assert!(recognized);
}

#[test]
fn brokerage_stock_plan_classifies_as_equities() {
    let acct = make_account("brokerage", Some("stock_plan"), 0.0);
    let (class, recognized) = classify_asset_class(&acct);
    assert_eq!(class, AssetClass::Equities);
    assert!(recognized);
}

#[test]
fn brokerage_unknown_subtype_classifies_as_equities_unrecognized() {
    let acct = make_account("brokerage", Some("future_etf"), 8_000.0);
    let (class, recognized) = classify_asset_class(&acct);
    assert_eq!(class, AssetClass::Equities);
    assert!(!recognized, "unknown subtype must be flagged unrecognized");
}

#[test]
fn brokerage_null_subtype_classifies_as_equities() {
    let acct = make_account("brokerage", None, 15_000.0);
    let (class, recognized) = classify_asset_class(&acct);
    assert_eq!(class, AssetClass::Equities);
    assert!(recognized, "null subtype on brokerage is not flagged");
}

#[test]
fn depository_classifies_as_cash() {
    let acct = make_account("depository", Some("checking"), 5_000.0);
    let (class, recognized) = classify_asset_class(&acct);
    assert_eq!(class, AssetClass::Cash);
    assert!(recognized);
}

#[test]
fn credit_classifies_as_liabilities() {
    let acct = make_account("credit", Some("credit_card"), -3_000.0);
    let (class, recognized) = classify_asset_class(&acct);
    assert_eq!(class, AssetClass::Liabilities);
    assert!(recognized);
}

#[test]
fn loan_classifies_as_liabilities() {
    let acct = make_account("loan", Some("other"), -200_000.0);
    let (class, recognized) = classify_asset_class(&acct);
    assert_eq!(class, AssetClass::Liabilities);
    assert!(recognized);
}

#[test]
fn vehicle_classifies_as_other_assets() {
    let acct = make_account("vehicle", Some("car"), 15_000.0);
    let (class, recognized) = classify_asset_class(&acct);
    assert_eq!(class, AssetClass::OtherAssets);
    assert!(recognized);
}

#[test]
fn real_estate_type_classifies_as_real_estate() {
    let acct = make_account("real_estate", Some("house"), 350_000.0);
    let (class, recognized) = classify_asset_class(&acct);
    assert_eq!(class, AssetClass::RealEstate);
    assert!(recognized);
}

#[test]
fn crypto_type_classifies_as_crypto() {
    let acct = make_account("crypto", Some("bitcoin"), 10_000.0);
    let (class, recognized) = classify_asset_class(&acct);
    assert_eq!(class, AssetClass::Crypto);
    assert!(recognized);
}

#[test]
fn unknown_type_classifies_as_other_unrecognized() {
    let acct = make_account("collectible", Some("art"), 5_000.0);
    let (class, recognized) = classify_asset_class(&acct);
    assert_eq!(class, AssetClass::Other);
    assert!(!recognized, "unknown type must be flagged unrecognized");
}

// --- investable_accounts ---

#[test]
fn investable_accounts_returns_only_equities_and_real_estate() {
    let accounts = vec![
        make_account("brokerage", Some("roth"), 100_000.0),
        make_account("depository", Some("checking"), 5_000.0),
        make_account("real_estate", Some("house"), 350_000.0),
        make_account("credit", Some("credit_card"), -3_000.0),
        make_account("vehicle", Some("car"), 15_000.0),
    ];
    let investable = investable_accounts(&accounts);
    assert_eq!(investable.len(), 2, "only equities and real_estate are investable");
    let names: Vec<&str> = investable.iter().map(|a| a.account_type.name.as_str()).collect();
    assert!(names.contains(&"brokerage"));
    assert!(names.contains(&"real_estate"));
}

#[test]
fn investable_accounts_empty_when_no_investable_accounts() {
    let accounts = vec![
        make_account("depository", Some("checking"), 5_000.0),
        make_account("credit", Some("credit_card"), -3_000.0),
    ];
    assert!(investable_accounts(&accounts).is_empty());
}

#[test]
fn investable_accounts_excludes_unrecognized_account() {
    let unknown = make_account("collectible", Some("art"), 5_000.0);
    let (class, recognized) = classify_asset_class(&unknown);
    assert_eq!(class, AssetClass::Other, "unknown type must classify as other");
    assert!(!recognized, "unknown type must be flagged unrecognized");
    let accounts = vec![make_account("brokerage", Some("roth"), 100_000.0), unknown];
    let investable = investable_accounts(&accounts);
    assert_eq!(investable.len(), 1);
    assert_eq!(investable[0].account_type.name, "brokerage");
}

// --- invested_financial_accounts ---

#[test]
fn invested_financial_accounts_returns_only_equities() {
    let accounts = vec![
        make_account("brokerage", Some("roth"), 800_000.0),
        make_account("real_estate", Some("house"), 400_000.0),
        make_account("depository", Some("checking"), 50_000.0),
        make_account("credit", Some("credit_card"), -10_000.0),
        make_account("vehicle", Some("car"), 15_000.0),
    ];
    let invested = invested_financial_accounts(&accounts);
    assert_eq!(invested.len(), 1);
    assert_eq!(invested[0].account_type.name, "brokerage");
}

#[test]
fn primary_residence_excluded_from_invested() {
    let accounts = vec![
        make_account("brokerage", Some("brokerage"), 800_000.0),
        make_account("real_estate", Some("house"), 400_000.0),
    ];
    let invested = invested_financial_accounts(&accounts);
    assert_eq!(invested.len(), 1);
    let total: f64 = invested.iter().map(|a| balance_of(a)).sum();
    assert!((total - 800_000.0).abs() < 0.01, "invested total must be 800,000, got {total}");
}

#[test]
fn multiple_brokerage_accounts_all_included() {
    let accounts = vec![
        make_account("brokerage", Some("st_401k"), 300_000.0),
        make_account("brokerage", Some("roth"), 200_000.0),
        make_account("brokerage", Some("brokerage"), 300_000.0),
        make_account("depository", Some("checking"), 50_000.0),
    ];
    let invested = invested_financial_accounts(&accounts);
    assert_eq!(invested.len(), 3, "all three brokerage accounts are invested");
    let total: f64 = invested.iter().map(|a| balance_of(a)).sum();
    assert!((total - 800_000.0).abs() < 0.01);
}

#[test]
fn invested_financial_accounts_empty_when_no_equities() {
    let accounts = vec![
        make_account("depository", Some("checking"), 50_000.0),
        make_account("real_estate", Some("house"), 400_000.0),
    ];
    assert!(invested_financial_accounts(&accounts).is_empty());
}
