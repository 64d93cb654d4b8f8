//! Billing cadences of recurring streams.
//!
//! A stream's per-period amount scales to a monthly figure by its number of
//! billing periods per year divided by twelve. Unknown cadences count as
//! monthly, so that a stream is never silently zeroed.

use vstd::prelude::*;

use crate::text::str_equals;

verus! {

/// Billing periods per year for a Monarch frequency string.
pub open spec fn spec_periods_per_year(frequency: Seq<char>) -> u32 {
    if frequency == "monthly"@ {
        12
    } else if frequency == "yearly"@ || frequency == "annually"@ {
        1
    } else if frequency == "weekly"@ {
        52
    } else if frequency == "biweekly"@ || frequency == "every_two_weeks"@ {
        26
    } else if frequency == "quarterly"@ || frequency == "every_three_months"@ {
        4
    } else if frequency == "semiannual"@ || frequency == "twice_a_year"@ {
        2
    } else {
        12
    }
}

/// The number of billing periods per year of a Monarch frequency string; the
/// monthly multiplier of a stream is this number over twelve.
pub fn periods_per_year(frequency: &str) -> (r: u32)
    ensures
        r == spec_periods_per_year(frequency@),
{
    if str_equals(frequency, "monthly") {
        12
    } else if str_equals(frequency, "yearly") || str_equals(frequency, "annually") {
        1
    } else if str_equals(frequency, "weekly") {
        52
    } else if str_equals(frequency, "biweekly") || str_equals(frequency, "every_two_weeks") {
        26
    } else if str_equals(frequency, "quarterly") || str_equals(frequency, "every_three_months") {
        4
    } else if str_equals(frequency, "semiannual") || str_equals(frequency, "twice_a_year") {
        2
    } else {
        12
    }
}

} // verus!
