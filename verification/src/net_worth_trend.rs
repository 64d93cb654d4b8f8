//! The shape of the month-by-month net-worth trend.
//!
//! Snapshots arrive as a flat list of (account type, month) rows, each with a
//! balance. The trend lists every month and every account type once, in
//! ascending order, and measures each type from its own first-seen month: the
//! earliest month in which that type has a row. A type that only appears
//! mid-window is thus measured from where it appeared, not from a fabricated
//! zero at the window's start. Balances are summed along this layout outside
//! the library.

use vstd::prelude::*;

use crate::text::str_equals;
use crate::text_order::{insert_sorted_distinct, sorted_distinct_of, strictly_ascending, texts};

verus! {

/// One row of the per-type monthly snapshots, as far as the layout reads it.
#[derive(Debug, Clone, PartialEq)]
pub struct AccountTypeSnapshot {
    /// Lowercase account type, e.g. `depository`, `credit`.
    pub account_type: String,
    /// `YYYY-MM` of the end-of-month snapshot.
    pub month: String,
}

/// The months and account types of a trend, and where each type is measured from.
#[derive(Debug, Clone, PartialEq)]
pub struct TrendLayout {
    /// Every month that has a row, once each, ascending.
    pub months: Vec<String>,
    /// Every account type that has a row, once each, ascending.
    pub account_types: Vec<String>,
    /// For each account type (same position), the index in `months` of its
    /// first-seen month.
    pub baseline_months: Vec<usize>,
}

pub open spec fn snapshot_months(s: Seq<AccountTypeSnapshot>) -> Seq<Seq<char>> {
    s.map_values(|x: AccountTypeSnapshot| x.month@)
}

pub open spec fn snapshot_types(s: Seq<AccountTypeSnapshot>) -> Seq<Seq<char>> {
    s.map_values(|x: AccountTypeSnapshot| x.account_type@)
}

/// Some row is for account type `kind` in month `month`.
pub open spec fn has_row(s: Seq<AccountTypeSnapshot>, month: Seq<char>, kind: Seq<char>) -> bool {
    exists|i: int| 0 <= i < s.len() && #[trigger] s[i].month@ == month && s[i].account_type@ == kind
}

/// `b` is the position in `months` of the first month with a row for `kind`.
pub open spec fn is_first_seen(s: Seq<AccountTypeSnapshot>, months: Seq<Seq<char>>, kind: Seq<char>, b: int) -> bool {
    &&& 0 <= b < months.len()
    &&& has_row(s, months[b], kind)
    &&& forall|m: int| 0 <= m < b ==> !has_row(s, #[trigger] months[m], kind)
}

/// The layout of the trend over `s`.
pub open spec fn is_trend_layout(s: Seq<AccountTypeSnapshot>, r: TrendLayout) -> bool {
    &&& sorted_distinct_of(texts(r.months@), snapshot_months(s))
    &&& sorted_distinct_of(texts(r.account_types@), snapshot_types(s))
    &&& r.baseline_months@.len() == r.account_types@.len()
    &&& forall|k: int|
        0 <= k < r.account_types@.len() ==> is_first_seen(
            s,
            texts(r.months@),
            #[trigger] r.account_types@[k]@,
            r.baseline_months@[k] as int,
        )
}

/// The layout is determined by the snapshots alone: any two layouts of the
/// same rows list the same months, the same types, and the same first-seen
/// month for each type, whatever order the rows came in.
pub proof fn law_trend_layout_is_determined(s: Seq<AccountTypeSnapshot>, r1: TrendLayout, r2: TrendLayout)
    requires
        is_trend_layout(s, r1),
        is_trend_layout(s, r2),
    ensures
        texts(r1.months@) == texts(r2.months@),
        texts(r1.account_types@) == texts(r2.account_types@),
        r1.baseline_months@ == r2.baseline_months@,
{
    crate::text_order::lemma_sorted_distinct_unique(texts(r1.months@), texts(r2.months@));
    crate::text_order::lemma_sorted_distinct_unique(texts(r1.account_types@), texts(r2.account_types@));
    let mt = texts(r1.months@);
    assert forall|k: int| 0 <= k < r1.baseline_months@.len() implies r1.baseline_months@[k]
        == r2.baseline_months@[k] by {
        assert(texts(r1.account_types@)[k] == texts(r2.account_types@)[k]);
        let kind = r1.account_types@[k]@;
        assert(r2.account_types@[k]@ == kind);
        let b1 = r1.baseline_months@[k] as int;
        let b2 = r2.baseline_months@[k] as int;
        assert(is_first_seen(s, mt, kind, b1));
        assert(is_first_seen(s, mt, kind, b2));
        if b1 < b2 {
            assert(!has_row(s, mt[b1], kind));
        } else if b2 < b1 {
            assert(!has_row(s, mt[b2], kind));
        }
    }
    assert(r1.baseline_months@ =~= r2.baseline_months@);
}

/// A type's first-seen month comes no later than any month in which it has a row.
pub proof fn law_first_seen_is_earliest(s: Seq<AccountTypeSnapshot>, r: TrendLayout, k: int, m: int)
    requires
        is_trend_layout(s, r),
        0 <= k < r.account_types@.len(),
        0 <= m < r.months@.len(),
        has_row(s, r.months@[m]@, r.account_types@[k]@),
    ensures
        r.baseline_months@[k] <= m,
{
    let mt = texts(r.months@);
    assert(mt[m] == r.months@[m]@);
    assert(is_first_seen(s, mt, r.account_types@[k]@, r.baseline_months@[k] as int));
}

/// Whether some row is for account type `kind` in month `month`.
fn row_exists(snapshots: &[AccountTypeSnapshot], month: &str, kind: &str) -> (r: bool)
    ensures
        r == has_row(snapshots@, month@, kind@),
{
    let mut i: usize = 0;
    while i < snapshots.len()
        invariant
            0 <= i <= snapshots.len(),
            forall|j: int|
                0 <= j < i ==> !(#[trigger] snapshots@[j].month@ == month@ && snapshots@[j].account_type@
                    == kind@),
        decreases snapshots.len() - i,
    {
        let s = &snapshots[i];
        if str_equals(s.month.as_str(), month) && str_equals(s.account_type.as_str(), kind) {
            return true;
        }
        i = i + 1;
    }
    false
}

/// The texts of one field of the rows, each once, ascending.
fn distinct_field(snapshots: &[AccountTypeSnapshot], want_month: bool) -> (r: Vec<String>)
    ensures
        want_month ==> sorted_distinct_of(texts(r@), snapshot_months(snapshots@)),
        !want_month ==> sorted_distinct_of(texts(r@), snapshot_types(snapshots@)),
{
    let ghost items = if want_month {
        snapshot_months(snapshots@)
    } else {
        snapshot_types(snapshots@)
    };
    let mut out: Vec<String> = Vec::new();
    let mut i: usize = 0;
    while i < snapshots.len()
        invariant
            0 <= i <= snapshots.len(),
            items.len() == snapshots.len(),
            items == (if want_month {
                snapshot_months(snapshots@)
            } else {
                snapshot_types(snapshots@)
            }),
            strictly_ascending(texts(out@)),
            forall|y: Seq<char>| texts(out@).contains(y) <==> items.take(i as int).contains(y),
        decreases snapshots.len() - i,
    {
        let s = &snapshots[i];
        let field = if want_month {
            s.month.as_str()
        } else {
            s.account_type.as_str()
        };
        assert(items[i as int] == field@);
        insert_sorted_distinct(&mut out, field);
        proof {
            let t0 = items.take(i as int);
            let t1 = items.take(i + 1);
            assert forall|y: Seq<char>| texts(out@).contains(y) <==> t1.contains(y) by {
                if t1.contains(y) {
                    let k = choose|k: int| 0 <= k < t1.len() && t1[k] == y;
                    if k < i {
                        assert(t0[k] == y);
                    }
                }
                if t0.contains(y) {
                    let k = choose|k: int| 0 <= k < t0.len() && t0[k] == y;
                    assert(t1[k] == y);
                }
                if y == field@ {
                    assert(t1[i as int] == y);
                }
            }
        }
        i = i + 1;
    }
    assert(items.take(snapshots.len() as int) =~= items);
    out
}

/// The position of the first month in `months` with a row for `kind`.
fn first_seen_month(snapshots: &[AccountTypeSnapshot], months: &Vec<String>, kind: &str) -> (b: usize)
    requires
        sorted_distinct_of(texts(months@), snapshot_months(snapshots@)),
        snapshot_types(snapshots@).contains(kind@),
    ensures
        is_first_seen(snapshots@, texts(months@), kind@, b as int),
{
    let ghost mt = texts(months@);
    let mut m: usize = 0;
    while m < months.len()
        invariant
            0 <= m <= months.len(),
            mt == texts(months@),
            forall|j: int| 0 <= j < m ==> !has_row(snapshots@, #[trigger] mt[j], kind@),
        decreases months.len() - m,
    {
        if row_exists(snapshots, months[m].as_str(), kind) {
            return m;
        }
        m = m + 1;
    }
    proof {
        // some row has this type; its month is one of `months`, and it has a row there
        let j = choose|j: int| 0 <= j < snapshots@.len() && snapshot_types(snapshots@)[j] == kind@;
        let month = snapshots@[j].month@;
        assert(snapshot_months(snapshots@)[j] == month);
        assert(snapshot_months(snapshots@).contains(month));
        let p = choose|p: int| 0 <= p < mt.len() && mt[p] == month;
        assert(snapshots@[j].month@ == mt[p] && snapshots@[j].account_type@ == kind@);
        assert(has_row(snapshots@, mt[p], kind@));
    }
    0
}

/// Lay out the trend over `snapshots`: the distinct months and account types,
/// each ascending, and for each type the position of its first-seen month.
pub fn trend_layout(snapshots: &[AccountTypeSnapshot]) -> (r: TrendLayout)
    ensures
        is_trend_layout(snapshots@, r),
{
    let months = distinct_field(snapshots, true);
    let account_types = distinct_field(snapshots, false);
    let mut baseline_months: Vec<usize> = Vec::new();
    let mut k: usize = 0;
    while k < account_types.len()
        invariant
            0 <= k <= account_types.len(),
            sorted_distinct_of(texts(months@), snapshot_months(snapshots@)),
            sorted_distinct_of(texts(account_types@), snapshot_types(snapshots@)),
            baseline_months@.len() == k,
            forall|j: int|
                0 <= j < k ==> is_first_seen(
                    snapshots@,
                    texts(months@),
                    #[trigger] account_types@[j]@,
                    baseline_months@[j] as int,
                ),
        decreases account_types.len() - k,
    {
        let kind = account_types[k].as_str();
        assert(texts(account_types@)[k as int] == kind@);
        assert(texts(account_types@).contains(kind@));
        let b = first_seen_month(snapshots, &months, kind);
        baseline_months.push(b);
        k = k + 1;
    }
    TrendLayout { months, account_types, baseline_months }
}

} // verus!
