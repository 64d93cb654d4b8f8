//! Month bucketing for the savings-rate report.
//!
//! These helpers read the first seven bytes of a date without ever slicing
//! through a character: a prefix that is not whole UTF-8 characters simply
//! yields no bucket (or no months).

use vstd::prelude::*;

use crate::spending_history::{spec_enumerate_months, spec_month_bucket};

verus! {

/// Determine the `YYYY-MM` bucket for a transaction date string.
///
/// Returns `None` when the date is shorter than seven bytes, when those bytes
/// are not whole UTF-8 characters, or when the fifth byte is not a dash.
pub fn month_bucket(date: &str) -> (r: Option<String>)
    ensures
        r matches Some(p) ==> spec_month_bucket(date) == Some(p@),
        r is None ==> spec_month_bucket(date) is None,
{
    crate::spending_history::month_bucket(date)
}

/// Enumerate all `YYYY-MM` labels between `range_start` and `range_end`
/// (inclusive), oldest-first.
pub fn enumerate_months_in_range(range_start: &str, range_end: &str) -> (r: Vec<String>)
    ensures
        r@.map_values(|l: String| l@) == spec_enumerate_months(range_start, range_end),
{
    crate::spending_history::enumerate_months_in_range(range_start, range_end)
}

} // verus!
