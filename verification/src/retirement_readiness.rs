//! The invested-assets rule of the retirement-readiness check.
//!
//! Only equities-class accounts (brokerage, 401k, Roth, HSA, stock plan) count
//! toward the invested portfolio. Real estate, vehicles, cash, crypto and
//! liabilities are excluded from the safe-withdrawal-rate base. This is
//! narrower than [`crate::asset_allocation::investable_accounts`], which also
//! counts real estate.

use vstd::prelude::*;

use crate::asset_allocation::{accounts_with_class, classify_asset_class, AssetClass};
use crate::client::Account;

verus! {

/// The invested accounts are investable: every account that counts toward the
/// invested portfolio is also among the investable accounts.
pub proof fn law_invested_within_investable(accounts: Seq<Account>, a: Account)
    requires
        accounts_with_class(accounts, |c: AssetClass| c is Equities).contains(a),
    ensures
        accounts_with_class(
            accounts,
            |c: AssetClass| crate::asset_allocation::spec_is_investable(c),
        ).contains(a),
    decreases accounts.len(),
{
    let invested = |c: AssetClass| c is Equities;
    let investable = |c: AssetClass| crate::asset_allocation::spec_is_investable(c);
    if accounts.len() > 0 {
        let prev_i = accounts_with_class(accounts.drop_last(), invested);
        let prev_v = accounts_with_class(accounts.drop_last(), investable);
        let last = accounts.last();
        if prev_i.contains(a) {
            law_invested_within_investable(accounts.drop_last(), a);
            if investable(crate::asset_allocation::account_class(last).0) {
                let k = choose|k: int| 0 <= k < prev_v.len() && prev_v[k] == a;
                assert(prev_v.push(last)[k] == a);
            }
        } else {
            assert(invested(crate::asset_allocation::account_class(last).0));
            assert(accounts_with_class(accounts, invested) == prev_i.push(last));
            let k = choose|k: int| 0 <= k < prev_i.push(last).len() && prev_i.push(last)[k] == a;
            assert(k == prev_i.len());
            assert(a == last);
            assert(prev_v.push(last)[prev_v.len() as int] == a);
        }
    }
}

/// Return accounts whose asset class is [`AssetClass::Equities`], in order.
pub fn invested_financial_accounts(accounts: &[Account]) -> (r: Vec<&Account>)
    ensures
        r@.map_values(|a: &Account| *a) == accounts_with_class(accounts@, |c: AssetClass| c is Equities),
{
    let mut out: Vec<&Account> = Vec::new();
    let mut i: usize = 0;
    while i < accounts.len()
        invariant
            0 <= i <= accounts.len(),
            out@.map_values(|a: &Account| *a) == accounts_with_class(accounts@.take(i as int), |c: AssetClass| c is Equities),
        decreases accounts.len() - i,
    {
        let a = &accounts[i];
        proof {
            assert(accounts@.take(i + 1).drop_last() =~= accounts@.take(i as int));
            assert(accounts@.take(i + 1).last() == accounts@[i as int]);
        }
        let (class, _) = classify_asset_class(a);
        if class == AssetClass::Equities {
            out.push(a);
        }
        proof {
            assert(out@.map_values(|a: &Account| *a) =~= accounts_with_class(accounts@.take(i + 1), |c: AssetClass| c is Equities));
        }
        i = i + 1;
    }
    assert(accounts@.take(accounts.len() as int) =~= accounts@);
    out
}

/// Every brokerage-type account counts toward the invested portfolio whatever
/// its subtype: invested membership depends on the equities class alone, never
/// on whether the subtype was recognized.
pub proof fn law_brokerage_accounts_are_invested(accounts: Seq<Account>, j: int)
    requires
        0 <= j < accounts.len(),
        accounts[j].account_type.name@ == "brokerage"@,
    ensures
        accounts_with_class(accounts, |c: AssetClass| c is Equities).contains(accounts[j]),
{
    crate::asset_allocation::law_brokerage_accounts_are_investable(accounts, j);
    crate::asset_allocation::lemma_kept_account_is_listed(accounts, |c: AssetClass| c is Equities, j);
}

} // verus!
