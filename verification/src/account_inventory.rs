//! Retirement-planning buckets for household accounts.
//!
//! Primary key: the account's type name. For `brokerage` accounts the subtype
//! refines into taxable vs tax-advantaged. Unknown subtypes fall back to the
//! type-level bucket and are flagged.
//!
//! | Bucket              | type       | subtype (when type = brokerage)              |
//! |---------------------|------------|----------------------------------------------|
//! | `tax_advantaged`    | brokerage  | `st_401k`, `roth`, `health_savings_account`  |
//! | `taxable_brokerage` | brokerage  | `brokerage`, `stock_plan`, or unrecognized   |
//! | `cash`              | depository | any                                          |
//! | `other_assets`      | vehicle    | any                                          |
//! | `liabilities`       | credit     | any                                          |
//! | `liabilities`       | loan       | any                                          |
//!
//! An account of any other type is bucketed by the sign of its balance
//! (negative: liabilities, otherwise other assets) and flagged.

use vstd::prelude::*;

use crate::client::{Account, AccountSubtype};
use crate::text::str_equals;

verus! {

pub open spec fn is_tax_advantaged_subtype(name: Seq<char>) -> bool {
    name == "st_401k"@ || name == "roth"@ || name == "health_savings_account"@
}

pub open spec fn is_taxable_brokerage_subtype(name: Seq<char>) -> bool {
    name == "brokerage"@ || name == "stock_plan"@
}

/// The bucket of a brokerage account by subtype, with whether an existing
/// subtype was unrecognized.
pub open spec fn spec_brokerage_bucket(subtype: Option<Seq<char>>) -> (Seq<char>, bool) {
    match subtype {
        Some(n) => if is_tax_advantaged_subtype(n) {
            ("tax_advantaged"@, false)
        } else if is_taxable_brokerage_subtype(n) {
            ("taxable_brokerage"@, false)
        } else {
            ("taxable_brokerage"@, true)
        },
        None => ("taxable_brokerage"@, false),
    }
}

/// The bucket of an account, with whether its type or subtype was
/// unrecognized; `balance_is_negative` decides for unknown types.
pub open spec fn spec_bucket(kind: Seq<char>, subtype: Option<Seq<char>>, balance_is_negative: bool) -> (
    Seq<char>,
    bool,
) {
    if kind == "depository"@ {
        ("cash"@, false)
    } else if kind == "credit"@ || kind == "loan"@ {
        ("liabilities"@, false)
    } else if kind == "vehicle"@ {
        ("other_assets"@, false)
    } else if kind == "brokerage"@ {
        spec_brokerage_bucket(subtype)
    } else if balance_is_negative {
        ("liabilities"@, true)
    } else {
        ("other_assets"@, true)
    }
}

/// Assign an account to a bucket name and flag whether the subtype was
/// unrecognized. `balance_is_negative` is whether the account's current
/// balance is below zero; it decides the bucket of an unknown account type.
pub fn assign_bucket(account: &Account, balance_is_negative: bool) -> (r: (String, bool))
    ensures
        (r.0@, r.1) == spec_bucket(
            account.account_type.name@,
            crate::asset_allocation::subtype_key(account.subtype),
            balance_is_negative,
        ),
{
    let t = account.account_type.name.as_str();
    if str_equals(t, "depository") {
        ("cash".to_owned(), false)
    } else if str_equals(t, "credit") || str_equals(t, "loan") {
        ("liabilities".to_owned(), false)
    } else if str_equals(t, "vehicle") {
        ("other_assets".to_owned(), false)
    } else if str_equals(t, "brokerage") {
        assign_brokerage_bucket(account.subtype.as_ref())
    } else {
        let bucket = if balance_is_negative {
            "liabilities"
        } else {
            "other_assets"
        };
        (bucket.to_owned(), true)
    }
}

/// Refine a `brokerage`-type account into taxable vs tax-advantaged by subtype.
///
/// An unrecognized subtype, and a missing one, fall back to taxable (the
/// conservative assumption); only the unrecognized one is flagged.
pub fn assign_brokerage_bucket(subtype: Option<&AccountSubtype>) -> (r: (String, bool))
    ensures
        (r.0@, r.1) == spec_brokerage_bucket(
            match subtype {
                Some(st) => Some(st.name@),
                None => None,
            },
        ),
{
    match subtype {
        Some(st) => {
            let n = st.name.as_str();
            if str_equals(n, "st_401k") || str_equals(n, "roth") || str_equals(
                n,
                "health_savings_account",
            ) {
                ("tax_advantaged".to_owned(), false)
            } else if str_equals(n, "brokerage") || str_equals(n, "stock_plan") {
                ("taxable_brokerage".to_owned(), false)
            } else {
                ("taxable_brokerage".to_owned(), true)
            }
        },
        None => ("taxable_brokerage".to_owned(), false),
    }
}

} // verus!
