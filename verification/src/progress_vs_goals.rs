//! Goal-progress decisions that do not depend on money amounts: how many
//! months remain until a target date, which band a goal falls in once its
//! actual value has been compared with the goal, and how the debt-payoff
//! signals blend into one worst-of status.

use vstd::prelude::*;

use crate::text::{
    chars_of, find_char_from, first_dash_field, lemma_first_dash_field_at,
    lemma_first_index_from_found, lemma_split_once_dash_at, lemma_split_once_dash_none,
    parse_i64_in, spec_parse_i64, split_once_dash, str_equals,
};

verus! {

/// The year field (before the first dash) and the month field (up to the next
/// dash) of a target date, each parsed as an `i64`.
pub open spec fn target_year_month(target_date: Seq<char>) -> Option<(i64, i64)> {
    match split_once_dash(target_date) {
        Some((ys, rest)) => match (spec_parse_i64(ys), spec_parse_i64(first_dash_field(rest))) {
            (Some(y), Some(m)) => Some((y, m)),
            _ => None,
        },
        None => None,
    }
}

/// Whole months from `(today_year, today_month)` to the `YYYY-MM` of the target
/// date; `None` when the date does not start with an integer year and a month
/// in `1..=12`.
pub open spec fn spec_months_to_target(target_date: Seq<char>, today_year: int, today_month: int) -> Option<
    int,
> {
    match target_year_month(target_date) {
        Some((y, m)) => if 1 <= m <= 12 {
            Some((y - today_year) * 12 + m - today_month)
        } else {
            None
        },
        None => None,
    }
}

/// Each step of the month count fits in 64-bit arithmetic.
pub open spec fn months_to_target_fits(target_date: Seq<char>, today_year: int, today_month: int) -> bool {
    match target_year_month(target_date) {
        Some((y, m)) => 1 <= m <= 12 ==> {
            &&& i64::MIN <= y - today_year <= i64::MAX
            &&& i64::MIN <= (y - today_year) * 12 <= i64::MAX
            &&& i64::MIN <= (y - today_year) * 12 + m <= i64::MAX
            &&& i64::MIN <= (y - today_year) * 12 + m - today_month <= i64::MAX
        },
        None => true,
    }
}

/// Compute whole months from `(today_year, today_month)` to the leading
/// `YYYY-MM` of `target_date`.
///
/// Returns `None` for a malformed date (no dash, non-numeric year or month,
/// month out of range). Negative when the target is in the past; the day is
/// ignored.
pub fn months_to_target_from_date(target_date: &str, today_year: i64, today_month: u32) -> (r:
    Option<i64>)
    requires
        months_to_target_fits(target_date@, today_year as int, today_month as int),
    ensures
        match spec_months_to_target(target_date@, today_year as int, today_month as int) {
            Some(v) => r == Some(v as i64),
            None => r is None,
        },
{
    let v = chars_of(target_date);
    let ghost t = v@;
    assert(t.skip(0) =~= t);
    let i1 = match find_char_from(&v, '-', 0) {
        Some(i) => i,
        None => {
            proof {
                lemma_split_once_dash_none(t, 0);
            }
            return None;
        },
    };
    proof {
        lemma_split_once_dash_at(t, 0, i1 as int);
        assert(t.subrange(0, i1 as int) =~= t.take(i1 as int));
        assert(t.subrange(i1 + 1, t.len() as int) =~= t.skip(i1 + 1));
    }
    let target_year = match parse_i64_in(&v, 0, i1) {
        Some(y) => y,
        None => return None,
    };
    let end = match find_char_from(&v, '-', i1 + 1) {
        Some(i2) => {
            proof {
                lemma_first_dash_field_at(t, i1 + 1, i2 as int);
                lemma_first_index_from_found(t, '-', i1 + 1);
            }
            i2
        },
        None => {
            proof {
                lemma_split_once_dash_none(t, i1 + 1);
            }
            v.len()
        },
    };
    let target_month = match parse_i64_in(&v, i1 + 1, end) {
        Some(m) => m,
        None => return None,
    };
    if target_month < 1 || target_month > 12 {
        return None;
    }
    Some((target_year - today_year) * 12 + target_month - today_month as i64)
}

/// Whether counting the months to `target_date` stays within 64-bit arithmetic
/// (the condition [`months_to_target_from_date`] requires).
pub fn months_to_target_in_range(target_date: &str, today_year: i64, today_month: u32) -> (r: bool)
    ensures
        r == months_to_target_fits(target_date@, today_year as int, today_month as int),
{
    let v = chars_of(target_date);
    let ghost t = v@;
    assert(t.skip(0) =~= t);
    let i1 = match find_char_from(&v, '-', 0) {
        Some(i) => i,
        None => {
            proof {
                lemma_split_once_dash_none(t, 0);
            }
            return true;
        },
    };
    proof {
        lemma_split_once_dash_at(t, 0, i1 as int);
        assert(t.subrange(0, i1 as int) =~= t.take(i1 as int));
        assert(t.subrange(i1 + 1, t.len() as int) =~= t.skip(i1 + 1));
    }
    let y = match parse_i64_in(&v, 0, i1) {
        Some(y) => y,
        None => return true,
    };
    let end = match find_char_from(&v, '-', i1 + 1) {
        Some(i2) => {
            proof {
                lemma_first_dash_field_at(t, i1 + 1, i2 as int);
                lemma_first_index_from_found(t, '-', i1 + 1);
            }
            i2
        },
        None => {
            proof {
                lemma_split_once_dash_none(t, i1 + 1);
            }
            v.len()
        },
    };
    let m = match parse_i64_in(&v, i1 + 1, end) {
        Some(m) => m,
        None => return true,
    };
    if m < 1 || m > 12 {
        return true;
    }
    let d = y as i128 - today_year as i128;
    let d12 = d * 12;
    let with_month = d12 + m as i128;
    let total = with_month - today_month as i128;
    let lo = i64::MIN as i128;
    let hi = i64::MAX as i128;
    lo <= d && d <= hi && lo <= d12 && d12 <= hi && lo <= with_month && with_month <= hi && lo <= total
        && total <= hi
}

// ---------------------------------------------------------------------------
// Worst-of blending
// ---------------------------------------------------------------------------

/// Rank of a status for worst-of blending: higher is worse.
pub open spec fn spec_status_rank(status: Seq<char>) -> u8 {
    if status == "on track"@ {
        0
    } else if status == "drifting"@ {
        1
    } else {
        2
    }
}

/// Rank status strings for worst-of blending: higher = worse
/// (`"on track"` 0, `"drifting"` 1, `"off"` and anything unexpected 2).
pub fn status_rank(status: &str) -> (r: u8)
    ensures
        r == spec_status_rank(status@),
{
    if str_equals(status, "on track") {
        0
    } else if str_equals(status, "drifting") {
        1
    } else {
        2
    }
}

/// The worst of two optional statuses; on a tie the second wins.
pub open spec fn worst_status(a: Option<Seq<char>>, b: Option<Seq<char>>) -> Option<Seq<char>> {
    match (a, b) {
        (Some(x), Some(y)) => if spec_status_rank(y) >= spec_status_rank(x) {
            Some(y)
        } else {
            Some(x)
        },
        (Some(x), None) => Some(x),
        (None, Some(y)) => Some(y),
        (None, None) => None,
    }
}

/// The overall debt-payoff status.
///
/// No debt is on track. A target date that has passed (zero or fewer months
/// left) with debt remaining is off. Otherwise the worst of the schedule and
/// pace signals that could be computed, or `unknown` when neither could.
pub open spec fn spec_debt_payoff_status(
    debt_is_zero: bool,
    debt_is_positive: bool,
    months_to_target: Option<i64>,
    on_schedule: Option<Seq<char>>,
    on_pace: Option<Seq<char>>,
) -> Seq<char> {
    if debt_is_zero {
        "on track"@
    } else if (months_to_target matches Some(m) && m <= 0) && debt_is_positive {
        "off"@
    } else {
        match worst_status(on_schedule, on_pace) {
            Some(s) => s,
            None => "unknown"@,
        }
    }
}

/// A target date that gave no months count never forces `off`: while debt
/// remains the status is the worst of the signals given, or `unknown` when
/// there are none.
pub proof fn law_unknown_target_date_never_forces_off(
    debt_is_positive: bool,
    on_schedule: Option<Seq<char>>,
    on_pace: Option<Seq<char>>,
)
    ensures
        spec_debt_payoff_status(false, debt_is_positive, None, on_schedule, on_pace) == match worst_status(
            on_schedule,
            on_pace,
        ) {
            Some(s) => s,
            None => "unknown"@,
        },
        on_schedule is None && on_pace is None ==> spec_debt_payoff_status(
            false,
            debt_is_positive,
            None,
            on_schedule,
            on_pace,
        ) == "unknown"@,
{
}

/// Worst-of blending: while debt remains and the target date has not passed,
/// the overall status is one of the signals given and no better than either.
pub proof fn law_debt_status_is_worst_of_signals(
    debt_is_positive: bool,
    months_to_target: Option<i64>,
    on_schedule: Option<Seq<char>>,
    on_pace: Option<Seq<char>>,
)
    requires
        !(months_to_target matches Some(m) && m <= 0),
        on_schedule is Some || on_pace is Some,
    ensures
        ({
            let s = spec_debt_payoff_status(false, debt_is_positive, months_to_target, on_schedule, on_pace);
            &&& (on_schedule == Some(s) || on_pace == Some(s))
            &&& (on_schedule matches Some(x) ==> spec_status_rank(s) >= spec_status_rank(x))
            &&& (on_pace matches Some(y) ==> spec_status_rank(s) >= spec_status_rank(y))
        }),
{
}

/// The text of an optional string slice.
pub open spec fn opt_str_view(o: Option<&str>) -> Option<Seq<char>> {
    match o {
        Some(s) => Some(s@),
        None => None,
    }
}

/// Blend the debt-payoff signals into the overall status.
///
/// `debt_is_zero` and `debt_is_positive` are whether the total debt equals or
/// exceeds zero; `on_schedule` and `on_pace` are the plan-based and pace-based
/// signals when they could be computed.
pub fn debt_payoff_status(
    debt_is_zero: bool,
    debt_is_positive: bool,
    months_to_target: Option<i64>,
    on_schedule: Option<&str>,
    on_pace: Option<&str>,
) -> (r: String)
    ensures
        r@ == spec_debt_payoff_status(
            debt_is_zero,
            debt_is_positive,
            months_to_target,
            opt_str_view(on_schedule),
            opt_str_view(on_pace),
        ),
{
    if debt_is_zero {
        return "on track".to_owned();
    }
    let past_due = match months_to_target {
        Some(m) => m <= 0,
        None => false,
    };
    if past_due && debt_is_positive {
        return "off".to_owned();
    }
    let worst: Option<&str> = match (on_schedule, on_pace) {
        (Some(a), Some(b)) => {
            if status_rank(b) >= status_rank(a) {
                Some(b)
            } else {
                Some(a)
            }
        },
        (Some(a), None) => Some(a),
        (None, Some(b)) => Some(b),
        (None, None) => None,
    };
    match worst {
        Some(s) => s.to_owned(),
        None => "unknown".to_owned(),
    }
}

/// Classification of a single goal: `"on track"`, `"drifting"`, or `"off"`.
pub struct GoalStatus {
    pub status: String,
}

/// The band of a goal: on track at or above the goal, off below half of it,
/// drifting in between.
pub open spec fn spec_goal_band(at_or_above_goal: bool, below_half_goal: bool) -> Seq<char> {
    if at_or_above_goal {
        "on track"@
    } else if below_half_goal {
        "off"@
    } else {
        "drifting"@
    }
}

/// Band one goal from the two comparisons of its actual value against the
/// goal: whether it reaches the goal, and whether it falls below half of it.
pub fn goal_status(at_or_above_goal: bool, below_half_goal: bool) -> (r: GoalStatus)
    ensures
        r.status@ == spec_goal_band(at_or_above_goal, below_half_goal),
{
    let status = if at_or_above_goal {
        "on track".to_owned()
    } else if below_half_goal {
        "off".to_owned()
    } else {
        "drifting".to_owned()
    };
    GoalStatus { status }
}

/// The guidance shown when no goal of any kind is configured.
pub open spec fn no_goals_guidance() -> Seq<char> {
    "No goals configured yet. Add a goals.toml file and set MONARCH_GOALS_FILE to its path to start tracking progress."@
}

/// Guidance for the progress report: present exactly when none of the
/// savings-rate, emergency-fund and debt-payoff goals is set.
pub fn goal_guidance(savings_rate_set: bool, emergency_fund_set: bool, debt_payoff_set: bool) -> (r:
    Option<String>)
    ensures
        r is Some <==> !savings_rate_set && !emergency_fund_set && !debt_payoff_set,
        r matches Some(g) ==> g@ == no_goals_guidance(),
{
    if !savings_rate_set && !emergency_fund_set && !debt_payoff_set {
        Some(
            "No goals configured yet. Add a goals.toml file and set MONARCH_GOALS_FILE to its path to start tracking progress.".to_owned(),
        )
    } else {
        None
    }
}

} // verus!
