use monarch_mcp::progress_vs_goals::{
    debt_payoff_status, goal_status, months_to_target_from_date, months_to_target_in_range,
    status_rank,
};

/// The band of an actual value against its goal: the two comparisons are made
/// on the floating-point figures, the banding by the library.
fn classify_goal(actual: f64, goal: f64) -> String {
    goal_status(actual >= goal, actual < goal / 2.0).status
}

// --- goal banding ---

#[test]
fn classify_at_goal_is_on_track() {
    assert_eq!(classify_goal(20.0, 20.0), "on track");
}

#[test]
fn classify_above_goal_is_on_track() {
    assert_eq!(classify_goal(25.0, 20.0), "on track");
}

#[test]
fn classify_at_half_goal_is_drifting() {
    assert_eq!(classify_goal(10.0, 20.0), "drifting");
}

#[test]
fn classify_just_below_half_is_off() {
    assert_eq!(classify_goal(9.9, 20.0), "off");
}

#[test]
fn classify_midrange_is_drifting() {
    assert_eq!(classify_goal(17.0, 20.0), "drifting");
}

#[test]
fn classify_far_below_half_is_off() {
    assert_eq!(classify_goal(6.0, 20.0), "off");
}

#[test]
fn classify_zero_actual_is_off() {
    assert_eq!(classify_goal(0.0, 20.0), "off");
}

#[test]
fn classify_emergency_fund_at_goal_is_on_track() {
    assert_eq!(classify_goal(6.0, 6.0), "on track");
}

#[test]
fn classify_emergency_fund_above_goal_is_on_track() {
    assert_eq!(classify_goal(7.0, 6.0), "on track");
}

#[test]
fn classify_emergency_fund_drifting() {
    assert_eq!(classify_goal(4.0, 6.0), "drifting");
}

#[test]
fn classify_emergency_fund_off() {
    assert_eq!(classify_goal(2.0, 6.0), "off");
}

// --- months_to_target_from_date ---

#[test]
fn months_to_target_8_months_away() {
    assert_eq!(months_to_target_from_date("2027-01-01", 2026, 5), Some(8));
}

#[test]
fn months_to_target_same_month_is_zero() {
    assert_eq!(months_to_target_from_date("2026-05-01", 2026, 5), Some(0));
}

#[test]
fn months_to_target_past_date_is_negative() {
    assert_eq!(months_to_target_from_date("2026-04-01", 2026, 5), Some(-1));
}

#[test]
fn months_to_target_crosses_year_boundary() {
    assert_eq!(months_to_target_from_date("2027-12-01", 2026, 5), Some(19));
}

#[test]
fn months_to_target_garbage_is_none() {
    assert_eq!(months_to_target_from_date("garbage", 2026, 5), None);
}

#[test]
fn months_to_target_empty_string_is_none() {
    assert_eq!(months_to_target_from_date("", 2026, 5), None);
}

#[test]
fn months_to_target_year_only_is_none() {
    assert_eq!(months_to_target_from_date("2027", 2026, 5), None);
}

#[test]
fn months_to_target_month_13_is_none() {
    assert_eq!(months_to_target_from_date("2027-13", 2026, 5), None);
}

#[test]
fn months_to_target_month_zero_is_none() {
    assert_eq!(months_to_target_from_date("2027-00", 2026, 5), None);
}

#[test]
fn months_to_target_valid_full_date_is_some() {
    assert_eq!(months_to_target_from_date("2027-12-01", 2026, 5), Some(19));
}

#[test]
fn months_to_target_same_month_some_zero() {
    assert_eq!(months_to_target_from_date("2026-05-01", 2026, 5), Some(0));
}

#[test]
fn months_to_target_past_valid_date_some_negative() {
    assert_eq!(months_to_target_from_date("2026-04-01", 2026, 5), Some(-1));
}

#[test]
fn months_to_target_malformed_dates_are_none() {
    assert_eq!(months_to_target_from_date("not-a-date", 2026, 5), None);
    assert_eq!(months_to_target_from_date("", 2026, 5), None);
    assert_eq!(months_to_target_from_date("2027", 2026, 5), None);
}

#[test]
fn months_to_target_ignores_the_day_and_accepts_year_month() {
    assert_eq!(months_to_target_from_date("2027-01", 2026, 5), Some(8));
    assert_eq!(months_to_target_from_date("2027-01-garbage", 2026, 5), Some(8));
    assert_eq!(months_to_target_from_date("2020-12-31", 2026, 5), Some(-65));
}

#[test]
fn months_to_target_rejects_non_numeric_fields() {
    assert_eq!(months_to_target_from_date("20x7-01-01", 2026, 5), None);
    assert_eq!(months_to_target_from_date("2027--01", 2026, 5), None);
    assert_eq!(months_to_target_from_date("2027-1a-01", 2026, 5), None);
}

// --- worst-of blending ---

#[test]
fn status_rank_orders_on_track_drifting_off() {
    assert_eq!(status_rank("on track"), 0);
    assert_eq!(status_rank("drifting"), 1);
    assert_eq!(status_rank("off"), 2);
    assert_eq!(status_rank("unexpected"), 2);
}

#[test]
fn debt_payoff_status_with_no_debt_is_on_track() {
    assert_eq!(debt_payoff_status(true, false, Some(-3), Some("off"), Some("off")), "on track");
}

#[test]
fn debt_payoff_status_past_target_with_debt_is_off() {
    assert_eq!(debt_payoff_status(false, true, Some(0), Some("on track"), None), "off");
    assert_eq!(debt_payoff_status(false, true, Some(-2), None, None), "off");
}

#[test]
fn debt_payoff_status_takes_the_worst_signal() {
    assert_eq!(debt_payoff_status(false, true, Some(6), Some("on track"), Some("drifting")), "drifting");
    assert_eq!(debt_payoff_status(false, true, Some(6), Some("off"), Some("drifting")), "off");
    assert_eq!(debt_payoff_status(false, true, None, None, Some("on track")), "on track");
    assert_eq!(debt_payoff_status(false, true, Some(6), Some("drifting"), None), "drifting");
}

#[test]
fn debt_payoff_status_without_signals_is_unknown() {
    assert_eq!(debt_payoff_status(false, true, Some(6), None, None), "unknown");
    // a negative total debt is not "remaining debt": the passed deadline does not decide
    assert_eq!(debt_payoff_status(false, false, Some(-1), None, None), "unknown");
}

#[test]
fn months_to_target_stays_in_range_for_ordinary_dates() {
    assert!(months_to_target_in_range("2027-12-01", 2026, 5));
    assert!(months_to_target_in_range("garbage", 2026, 5));
    assert!(months_to_target_in_range("2027-13", 2026, 5));
    assert!(!months_to_target_in_range("9223372036854775807-01", -9223372036854775808, 5));
    assert!(!months_to_target_in_range("900000000000000000-01", 0, 5));
    assert!(months_to_target_in_range("700000000000000000-01", 0, 5));
}
