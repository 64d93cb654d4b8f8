use monarch_mcp::account_inventory::{assign_brokerage_bucket, assign_bucket};
use monarch_mcp::asset_allocation::{classify_asset_class, investable_accounts, AssetClass};
use monarch_mcp::client::{Account, AccountSubtype, AccountType};
use monarch_mcp::retirement_readiness::invested_financial_accounts;

fn account(id: &str, kind: &str, subtype: Option<&str>) -> Account {
    Account {
        id: id.to_string(),
        display_name: format!("{id} account"),
        account_type: AccountType { name: kind.to_string() },
        subtype: subtype.map(|s| AccountSubtype { name: s.to_string(), display: s.to_uppercase() }),
        is_hidden: false,
    }
}

fn ids(accounts: &[&Account]) -> Vec<String> {
    accounts.iter().map(|a| a.id.clone()).collect()
}

// --- AssetClass ---

#[test]
fn equities_and_real_estate_are_investable() {
    assert!(AssetClass::Equities.is_investable());
    assert!(AssetClass::RealEstate.is_investable());
}

#[test]
fn cash_crypto_other_liabilities_are_not_investable() {
    assert!(!AssetClass::Cash.is_investable());
    assert!(!AssetClass::Crypto.is_investable());
    assert!(!AssetClass::OtherAssets.is_investable());
    assert!(!AssetClass::Liabilities.is_investable());
    assert!(!AssetClass::Other.is_investable());
}

#[test]
fn asset_class_keys_are_stable() {
    assert_eq!(AssetClass::Equities.as_str(), "equities");
    assert_eq!(AssetClass::Cash.as_str(), "cash");
    assert_eq!(AssetClass::RealEstate.as_str(), "real_estate");
    assert_eq!(AssetClass::Crypto.as_str(), "crypto");
    assert_eq!(AssetClass::OtherAssets.as_str(), "other_assets");
    assert_eq!(AssetClass::Liabilities.as_str(), "liabilities");
    assert_eq!(AssetClass::Other.as_str(), "other");
}

// --- classify_asset_class ---

#[test]
fn classify_by_account_type() {
    assert_eq!(classify_asset_class(&account("a", "depository", Some("checking"))), (AssetClass::Cash, true));
    assert_eq!(classify_asset_class(&account("a", "credit", None)), (AssetClass::Liabilities, true));
    assert_eq!(classify_asset_class(&account("a", "loan", Some("mortgage"))), (AssetClass::Liabilities, true));
    assert_eq!(classify_asset_class(&account("a", "vehicle", None)), (AssetClass::OtherAssets, true));
    assert_eq!(classify_asset_class(&account("a", "real_estate", None)), (AssetClass::RealEstate, true));
    assert_eq!(classify_asset_class(&account("a", "crypto", None)), (AssetClass::Crypto, true));
    assert_eq!(classify_asset_class(&account("a", "boat", None)), (AssetClass::Other, false));
}

#[test]
fn classify_brokerage_flags_unknown_subtypes() {
    for st in ["brokerage", "stock_plan", "health_savings_account", "st_401k", "roth"] {
        assert_eq!(classify_asset_class(&account("b", "brokerage", Some(st))), (AssetClass::Equities, true));
    }
    assert_eq!(classify_asset_class(&account("b", "brokerage", Some("529"))), (AssetClass::Equities, false));
    assert_eq!(classify_asset_class(&account("b", "brokerage", None)), (AssetClass::Equities, true));
}

// --- investable vs invested ---

fn household() -> Vec<Account> {
    vec![
        account("roth", "brokerage", Some("roth")),
        account("checking", "depository", Some("checking")),
        account("house", "real_estate", None),
        account("btc", "crypto", None),
        account("card", "credit", None),
        account("taxable", "brokerage", Some("brokerage")),
        account("car", "vehicle", None),
    ]
}

#[test]
fn investable_accounts_keeps_equities_and_real_estate_in_order() {
    let accounts = household();
    assert_eq!(ids(&investable_accounts(&accounts)), vec!["roth", "house", "taxable"]);
}

#[test]
fn invested_financial_accounts_keeps_only_equities() {
    let accounts = household();
    assert_eq!(ids(&invested_financial_accounts(&accounts)), vec!["roth", "taxable"]);
}

#[test]
fn invested_accounts_are_a_subset_of_investable_accounts() {
    let accounts = household();
    let investable = ids(&investable_accounts(&accounts));
    for id in ids(&invested_financial_accounts(&accounts)) {
        assert!(investable.contains(&id));
    }
    assert!(investable_accounts(&[]).is_empty());
    assert!(invested_financial_accounts(&[]).is_empty());
}

// --- account inventory buckets ---

#[test]
fn assign_bucket_by_type() {
    assert_eq!(assign_bucket(&account("a", "depository", None), false), ("cash".to_string(), false));
    assert_eq!(assign_bucket(&account("a", "credit", None), false), ("liabilities".to_string(), false));
    assert_eq!(assign_bucket(&account("a", "loan", None), false), ("liabilities".to_string(), false));
    assert_eq!(assign_bucket(&account("a", "vehicle", None), true), ("other_assets".to_string(), false));
}

#[test]
fn assign_bucket_unknown_type_goes_by_balance_sign_and_is_flagged() {
    assert_eq!(assign_bucket(&account("a", "boat", None), true), ("liabilities".to_string(), true));
    assert_eq!(assign_bucket(&account("a", "boat", None), false), ("other_assets".to_string(), true));
}

#[test]
fn assign_bucket_refines_brokerage_by_subtype() {
    for st in ["st_401k", "roth", "health_savings_account"] {
        assert_eq!(
            assign_bucket(&account("b", "brokerage", Some(st)), false),
            ("tax_advantaged".to_string(), false)
        );
    }
    for st in ["brokerage", "stock_plan"] {
        assert_eq!(
            assign_bucket(&account("b", "brokerage", Some(st)), false),
            ("taxable_brokerage".to_string(), false)
        );
    }
    assert_eq!(
        assign_bucket(&account("b", "brokerage", Some("ira")), false),
        ("taxable_brokerage".to_string(), true)
    );
    assert_eq!(assign_brokerage_bucket(None), ("taxable_brokerage".to_string(), false));
}
