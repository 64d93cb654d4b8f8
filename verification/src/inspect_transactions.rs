//! Which transactions an inspection shows.
//!
//! A category or merchant filter matches when the transaction's category (or
//! merchant) name contains the filter text, ignoring case. A filter that is
//! absent, empty or only white space imposes no constraint.

use vstd::prelude::*;
use vstd::string::StrSliceExecFns;

use crate::client::Transaction;
use crate::text::{
    all_white_space, chars_of, contains_chars, contains_seq, is_blank, lowercase, to_lowercase,
    trim_bounds, trimmed,
};

verus! {

broadcast use vstd::string::group_string_axioms;

/// Optional filters for narrowing the transaction list.
///
/// `None`, or an empty or whitespace-only value, means "no constraint" on
/// that dimension.
#[derive(Debug, Default)]
pub struct InspectFilter {
    /// Substring match on category name (case-insensitive).
    pub category: Option<String>,
    /// Substring match on merchant name (case-insensitive).
    pub merchant: Option<String>,
}

/// `None` for an absent value or one that is only white space; the value otherwise.
pub open spec fn spec_blank_to_none(value: Option<String>) -> Option<String> {
    match value {
        Some(s) => if all_white_space(s@) {
            None
        } else {
            Some(s)
        },
        None => None,
    }
}

/// Coerces an empty or whitespace-only `Some` value to `None`.
pub fn blank_to_none(value: Option<String>) -> (r: Option<String>)
    ensures
        r == spec_blank_to_none(value),
{
    match value {
        Some(s) => {
            if is_blank(s.as_str()) {
                None
            } else {
                Some(s)
            }
        },
        None => None,
    }
}

/// A filter on one name: absent or blank imposes nothing; otherwise the
/// lowercased name must contain the lowercased, trimmed filter text.
pub open spec fn name_passes(needle: Option<String>, name: Seq<char>) -> bool {
    match needle {
        Some(n) => trimmed(n@).len() == 0 || contains_seq(lowercase(name), lowercase(trimmed(n@))),
        None => true,
    }
}

pub open spec fn spec_matches_filter(txn: Transaction, filter: InspectFilter) -> bool {
    name_passes(filter.category, txn.category.name@) && name_passes(filter.merchant, txn.merchant_name@)
}

/// Whether `name` passes the filter text `needle` (see [`name_passes`]).
fn name_matches(needle: &Option<String>, name: &str) -> (r: bool)
    ensures
        r == name_passes(*needle, name@),
{
    match needle {
        Some(n) => {
            let v = chars_of(n.as_str());
            let (lo, hi) = trim_bounds(&v);
            if lo == hi {
                return true;
            }
            let t = n.as_str().substring_char(lo, hi);
            let lower_needle = chars_of(to_lowercase(t).as_str());
            let lower_name = chars_of(to_lowercase(name).as_str());
            contains_chars(&lower_name, &lower_needle)
        },
        None => true,
    }
}

/// Whether a transaction passes both the category and the merchant filter.
pub fn matches_filter(txn: &Transaction, filter: &InspectFilter) -> (r: bool)
    ensures
        r == spec_matches_filter(*txn, *filter),
{
    if !name_matches(&filter.category, txn.category.name.as_str()) {
        return false;
    }
    name_matches(&filter.merchant, txn.merchant_name.as_str())
}

/// A transaction passes a filter with category text only when its lowercased
/// category name contains the trimmed, lowercased text, and a filter with
/// merchant text only when its lowercased merchant name contains that text;
/// when both names contain their texts (or the texts are absent or blank), the
/// transaction passes.
pub proof fn law_filters_read_their_own_names(txn: Transaction, filter: InspectFilter)
    ensures
        spec_matches_filter(txn, filter) && filter.category is Some && trimmed(
            filter.category->0@,
        ).len() > 0 ==> contains_seq(
            lowercase(txn.category.name@),
            lowercase(trimmed(filter.category->0@)),
        ),
        spec_matches_filter(txn, filter) && filter.merchant is Some && trimmed(
            filter.merchant->0@,
        ).len() > 0 ==> contains_seq(
            lowercase(txn.merchant_name@),
            lowercase(trimmed(filter.merchant->0@)),
        ),
        (filter.category is None || trimmed(filter.category->0@).len() == 0 || contains_seq(
            lowercase(txn.category.name@),
            lowercase(trimmed(filter.category->0@)),
        )) && (filter.merchant is None || trimmed(filter.merchant->0@).len() == 0 || contains_seq(
            lowercase(txn.merchant_name@),
            lowercase(trimmed(filter.merchant->0@)),
        )) ==> spec_matches_filter(txn, filter),
{
}

/// The category filter never looks at the merchant name, nor the merchant
/// filter at the category name: two transactions with the same category name
/// fare the same under a filter without merchant text, and two with the same
/// merchant name fare the same under a filter without category text.
pub proof fn law_category_and_merchant_filters_are_independent(
    t1: Transaction,
    t2: Transaction,
    filter: InspectFilter,
)
    ensures
        filter.merchant is None && t1.category.name@ == t2.category.name@ ==> spec_matches_filter(
            t1,
            filter,
        ) == spec_matches_filter(t2, filter),
        filter.category is None && t1.merchant_name@ == t2.merchant_name@ ==> spec_matches_filter(
            t1,
            filter,
        ) == spec_matches_filter(t2, filter),
{
}

} // verus!
