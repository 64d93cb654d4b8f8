//! Asset-class taxonomy for household accounts.
//!
//! Primary key: the account's type name. Brokerage accounts are equities
//! whatever their subtype (Monarch does not break out equity vs. bond within
//! an account); the subtype is still checked against the known vocabulary so
//! unknown ones are flagged. Unrecognized types fall through to `other`.
//!
//! | Asset class    | type        |
//! |----------------|-------------|
//! | `equities`     | brokerage   |
//! | `cash`         | depository  |
//! | `real_estate`  | real_estate |
//! | `crypto`       | crypto      |
//! | `other_assets` | vehicle     |
//! | `liabilities`  | credit, loan|
//! | `other`        | anything else (flagged unrecognized) |

use vstd::prelude::*;

use crate::client::{Account, AccountSubtype};
use crate::text::str_equals;

verus! {

/// Asset class assigned to an account.
#[derive(Debug, Clone, Copy, PartialEq, Eq, Hash, Structural)]
pub enum AssetClass {
    /// Brokerage holdings (all tax treatments).
    Equities,
    /// Depository accounts (checking, savings, etc.).
    Cash,
    /// Real-estate accounts.
    RealEstate,
    /// Cryptocurrency accounts.
    Crypto,
    /// Vehicles and other tangible personal property.
    OtherAssets,
    /// Credit cards, loans, and mortgages.
    Liabilities,
    /// Catch-all for unrecognized account types.
    Other,
}

pub open spec fn spec_class_name(c: AssetClass) -> Seq<char> {
    match c {
        AssetClass::Equities => "equities"@,
        AssetClass::Cash => "cash"@,
        AssetClass::RealEstate => "real_estate"@,
        AssetClass::Crypto => "crypto"@,
        AssetClass::OtherAssets => "other_assets"@,
        AssetClass::Liabilities => "liabilities"@,
        AssetClass::Other => "other"@,
    }
}

pub open spec fn spec_is_investable(c: AssetClass) -> bool {
    c is Equities || c is RealEstate
}

impl AssetClass {
    /// Returns the stable string key of the class.
    pub fn as_str(self) -> (r: &'static str)
        ensures
            r@ == spec_class_name(self),
    {
        match self {
            AssetClass::Equities => "equities",
            AssetClass::Cash => "cash",
            AssetClass::RealEstate => "real_estate",
            AssetClass::Crypto => "crypto",
            AssetClass::OtherAssets => "other_assets",
            AssetClass::Liabilities => "liabilities",
            AssetClass::Other => "other",
        }
    }

    /// Returns `true` when this class counts as "investable": equities and
    /// real estate. Cash, crypto, other assets, liabilities and unknown
    /// classes are not.
    pub fn is_investable(self) -> (r: bool)
        ensures
            r == spec_is_investable(self),
    {
        match self {
            AssetClass::Equities | AssetClass::RealEstate => true,
            _ => false,
        }
    }
}

/// The brokerage subtypes in the known vocabulary.
pub open spec fn is_known_brokerage_subtype(name: Seq<char>) -> bool {
    name == "brokerage"@ || name == "stock_plan"@ || name == "health_savings_account"@ || name
        == "st_401k"@ || name == "roth"@
}

pub open spec fn subtype_key(s: Option<AccountSubtype>) -> Option<Seq<char>> {
    match s {
        Some(st) => Some(st.name@),
        None => None,
    }
}

/// Brokerage accounts are equities; an unknown subtype is flagged.
pub open spec fn spec_classify_brokerage(subtype: Option<Seq<char>>) -> (AssetClass, bool) {
    match subtype {
        Some(name) => (AssetClass::Equities, is_known_brokerage_subtype(name)),
        None => (AssetClass::Equities, true),
    }
}

/// The class of an account from its type name and subtype, with whether both
/// were in the known vocabulary.
pub open spec fn spec_classify(kind: Seq<char>, subtype: Option<Seq<char>>) -> (AssetClass, bool) {
    if kind == "depository"@ {
        (AssetClass::Cash, true)
    } else if kind == "brokerage"@ {
        spec_classify_brokerage(subtype)
    } else if kind == "credit"@ || kind == "loan"@ {
        (AssetClass::Liabilities, true)
    } else if kind == "vehicle"@ {
        (AssetClass::OtherAssets, true)
    } else if kind == "real_estate"@ {
        (AssetClass::RealEstate, true)
    } else if kind == "crypto"@ {
        (AssetClass::Crypto, true)
    } else {
        (AssetClass::Other, false)
    }
}

pub open spec fn account_class(a: Account) -> (AssetClass, bool) {
    spec_classify(a.account_type.name@, subtype_key(a.subtype))
}

/// Classify an account into an [`AssetClass`].
///
/// Returns `(class, recognized)` where `recognized` is `false` when the
/// account's type or subtype was not in the known vocabulary.
pub fn classify_asset_class(account: &Account) -> (r: (AssetClass, bool))
    ensures
        r == account_class(*account),
{
    let t = account.account_type.name.as_str();
    if str_equals(t, "depository") {
        (AssetClass::Cash, true)
    } else if str_equals(t, "brokerage") {
        classify_brokerage_asset_class(account.subtype.as_ref())
    } else if str_equals(t, "credit") || str_equals(t, "loan") {
        (AssetClass::Liabilities, true)
    } else if str_equals(t, "vehicle") {
        (AssetClass::OtherAssets, true)
    } else if str_equals(t, "real_estate") {
        (AssetClass::RealEstate, true)
    } else if str_equals(t, "crypto") {
        (AssetClass::Crypto, true)
    } else {
        (AssetClass::Other, false)
    }
}

/// Classify a `brokerage`-type account by subtype: always equities, flagged
/// unrecognized when the subtype is not in the known vocabulary.
fn classify_brokerage_asset_class(subtype: Option<&AccountSubtype>) -> (r: (AssetClass, bool))
    ensures
        r == spec_classify_brokerage(
            match subtype {
                Some(st) => Some(st.name@),
                None => None,
            },
        ),
{
    match subtype {
        Some(st) => {
            let n = st.name.as_str();
            let known = str_equals(n, "brokerage") || str_equals(n, "stock_plan") || str_equals(
                n,
                "health_savings_account",
            ) || str_equals(n, "st_401k") || str_equals(n, "roth");
            (AssetClass::Equities, known)
        },
        None => (AssetClass::Equities, true),
    }
}

/// The accounts of `accounts`, in order, whose class satisfies `keep`.
pub open spec fn accounts_with_class(accounts: Seq<Account>, keep: spec_fn(AssetClass) -> bool) -> Seq<
    Account,
>
    decreases accounts.len(),
{
    if accounts.len() == 0 {
        seq![]
    } else {
        let prev = accounts_with_class(accounts.drop_last(), keep);
        if keep(account_class(accounts.last()).0) {
            prev.push(accounts.last())
        } else {
            prev
        }
    }
}

/// Return only the accounts whose asset class is investable (equities and
/// real estate), in the order given.
pub fn investable_accounts(accounts: &[Account]) -> (r: Vec<&Account>)
    ensures
        r@.map_values(|a: &Account| *a) == accounts_with_class(accounts@, |c: AssetClass| spec_is_investable(c)),
{
    let mut out: Vec<&Account> = Vec::new();
    let mut i: usize = 0;
    while i < accounts.len()
        invariant
            0 <= i <= accounts.len(),
            out@.map_values(|a: &Account| *a) == accounts_with_class(accounts@.take(i as int), |c: AssetClass| spec_is_investable(c)),
        decreases accounts.len() - i,
    {
        let a = &accounts[i];
        proof {
            assert(accounts@.take(i + 1).drop_last() =~= accounts@.take(i as int));
            assert(accounts@.take(i + 1).last() == accounts@[i as int]);
        }
        let (class, _) = classify_asset_class(a);
        if class.is_investable() {
            out.push(a);
        }
        proof {
            assert(out@.map_values(|a: &Account| *a) =~= accounts_with_class(accounts@.take(i + 1), |c: AssetClass| spec_is_investable(c)));
        }
        i = i + 1;
    }
    assert(accounts@.take(accounts.len() as int) =~= accounts@);
    out
}

/// An account whose class satisfies `keep` is among the accounts listed for
/// `keep`: membership depends on the class alone.
pub proof fn lemma_kept_account_is_listed(accounts: Seq<Account>, keep: spec_fn(AssetClass) -> bool, j: int)
    requires
        0 <= j < accounts.len(),
        keep(account_class(accounts[j]).0),
    ensures
        accounts_with_class(accounts, keep).contains(accounts[j]),
    decreases accounts.len(),
{
    let prev = accounts_with_class(accounts.drop_last(), keep);
    if j == accounts.len() - 1 {
        assert(accounts_with_class(accounts, keep) == prev.push(accounts.last()));
        assert(prev.push(accounts.last())[prev.len() as int] == accounts[j]);
    } else {
        lemma_kept_account_is_listed(accounts.drop_last(), keep, j);
        assert(accounts.drop_last()[j] == accounts[j]);
        let k = choose|k: int| 0 <= k < prev.len() && prev[k] == accounts[j];
        if keep(account_class(accounts.last()).0) {
            assert(prev.push(accounts.last())[k] == accounts[j]);
        }
    }
}

/// Every brokerage-type account is investable whatever its subtype, known,
/// unknown or absent: it is equities, and the subtype only decides whether it
/// is flagged unrecognized.
pub proof fn law_brokerage_accounts_are_investable(accounts: Seq<Account>, j: int)
    requires
        0 <= j < accounts.len(),
        accounts[j].account_type.name@ == "brokerage"@,
    ensures
        account_class(accounts[j]).0 == AssetClass::Equities,
        accounts_with_class(accounts, |c: AssetClass| spec_is_investable(c)).contains(accounts[j]),
{
    reveal_strlit("brokerage");
    reveal_strlit("depository");
    assert("brokerage"@ != "depository"@) by {
        assert("brokerage"@[0] != "depository"@[0]);
    }
    lemma_kept_account_is_listed(accounts, |c: AssetClass| spec_is_investable(c), j);
}

} // verus!
