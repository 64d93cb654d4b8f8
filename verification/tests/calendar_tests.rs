use chrono::{Datelike, FixedOffset, Local, TimeZone, Utc};
use monarch_mcp::calendar::{
    civil_to_epoch_day, current_month_range_for_day, days_in_month, epoch_days_to_ymd,
    format_ym, format_ymd, months_ago_start_for_day, parse_iso_date_to_epoch_day, parse_ym,
    prior_month_range_for_day, subtract_months, today_epoch_day,
};
use monarch_mcp::spending_history::{enumerate_months_in_range, range_for_months_count};

fn day(date: &str) -> i64 {
    parse_iso_date_to_epoch_day(date).unwrap_or_else(|| panic!("bad test date: {date}"))
}

// --- civil_to_epoch_day ---

#[test]
fn civil_to_epoch_day_agrees_with_parse_for_unix_epoch() {
    assert_eq!(civil_to_epoch_day(1970, 1, 1), 0);
    assert_eq!(
        civil_to_epoch_day(1970, 1, 1),
        parse_iso_date_to_epoch_day("1970-01-01").unwrap()
    );
}

#[test]
fn civil_to_epoch_day_agrees_with_parse_for_mid_month() {
    let via_parse = parse_iso_date_to_epoch_day("2026-05-15").unwrap();
    assert_eq!(civil_to_epoch_day(2026, 5, 15), via_parse);
}

#[test]
fn civil_to_epoch_day_agrees_with_parse_for_leap_day() {
    let via_parse = parse_iso_date_to_epoch_day("2024-02-29").unwrap();
    assert_eq!(civil_to_epoch_day(2024, 2, 29), via_parse);
}

#[test]
fn civil_to_epoch_day_agrees_with_parse_for_year_end() {
    let via_parse = parse_iso_date_to_epoch_day("2025-12-31").unwrap();
    assert_eq!(civil_to_epoch_day(2025, 12, 31), via_parse);
}

#[test]
fn civil_to_epoch_day_round_trips_through_epoch_days_to_ymd() {
    let today = Local::now().date_naive();
    let d = civil_to_epoch_day(today.year() as i64, today.month() as i64, today.day() as i64);
    let (ry, rm, rd) = epoch_days_to_ymd(d);
    assert_eq!((ry, rm, rd), (today.year() as i64, today.month(), today.day()));
}

#[test]
fn local_tz_wins_over_utc_at_month_boundary() {
    let instant = Utc.with_ymd_and_hms(2026, 6, 1, 1, 0, 0).unwrap();
    let local = instant
        .with_timezone(&FixedOffset::west_opt(7 * 3600).unwrap())
        .date_naive();
    assert_eq!(
        (local.year(), local.month(), local.day()),
        (2026, 5, 31),
        "UTC-07 should see May 31, not June 1"
    );

    let local_day = civil_to_epoch_day(local.year() as i64, local.month() as i64, local.day() as i64);
    assert_eq!(
        current_month_range_for_day(local_day),
        ("2026-05-01".to_string(), "2026-05-31".to_string()),
        "local date must produce May range"
    );

    let utc = instant.date_naive();
    let utc_day = civil_to_epoch_day(utc.year() as i64, utc.month() as i64, utc.day() as i64);
    assert_eq!(
        current_month_range_for_day(utc_day),
        ("2026-06-01".to_string(), "2026-06-30".to_string()),
        "UTC date produces June range"
    );
}

// --- parse_iso_date_to_epoch_day ---

#[test]
fn parse_iso_date_round_trips_known_epoch() {
    assert_eq!(parse_iso_date_to_epoch_day("1970-01-01"), Some(0));
}

#[test]
fn parse_iso_date_round_trips_2026_05_15() {
    let d = parse_iso_date_to_epoch_day("2026-05-15").unwrap();
    assert_eq!(epoch_days_to_ymd(d), (2026, 5, 15));
}

#[test]
fn parse_iso_date_round_trips_2024_02_29_leap() {
    let d = parse_iso_date_to_epoch_day("2024-02-29").unwrap();
    assert_eq!(epoch_days_to_ymd(d), (2024, 2, 29));
}

#[test]
fn parse_iso_date_returns_none_for_too_few_parts() {
    assert_eq!(parse_iso_date_to_epoch_day("2026-13"), None);
}

#[test]
fn parse_iso_date_returns_none_for_garbage() {
    assert_eq!(parse_iso_date_to_epoch_day("garbage"), None);
}

#[test]
fn parse_iso_date_rejects_out_of_range_month() {
    assert_eq!(parse_iso_date_to_epoch_day("2026-13-01"), None);
    assert_eq!(parse_iso_date_to_epoch_day("2026-13-40"), None);
}

#[test]
fn parse_iso_date_rejects_zero_month_and_day() {
    assert_eq!(parse_iso_date_to_epoch_day("2026-00-00"), None);
    assert_eq!(parse_iso_date_to_epoch_day("2026-00-15"), None);
    assert_eq!(parse_iso_date_to_epoch_day("2026-05-00"), None);
}

#[test]
fn parse_iso_date_rejects_day_past_month_end() {
    assert_eq!(parse_iso_date_to_epoch_day("2026-02-30"), None);
    assert_eq!(parse_iso_date_to_epoch_day("2026-04-31"), None);
    assert_eq!(parse_iso_date_to_epoch_day("2026-06-31"), None);
}

#[test]
fn parse_iso_date_year_range_boundaries() {
    assert_eq!(parse_iso_date_to_epoch_day("0000-06-15"), None);
    assert!(parse_iso_date_to_epoch_day("0001-06-15").is_some());
    assert!(parse_iso_date_to_epoch_day("9999-06-15").is_some());
    assert_eq!(parse_iso_date_to_epoch_day("10000-06-15"), None);
}

#[test]
fn parse_iso_date_does_not_panic_on_huge_year() {
    assert_eq!(parse_iso_date_to_epoch_day("9223372036854775807-06-15"), None);
    assert_eq!(parse_iso_date_to_epoch_day("999999-06-15"), None);
}

#[test]
fn parse_iso_date_accepts_valid_dates() {
    assert!(parse_iso_date_to_epoch_day("2026-04-30").is_some());
    assert!(parse_iso_date_to_epoch_day("2024-02-29").is_some());
    assert!(parse_iso_date_to_epoch_day("2026-05-31").is_some());
}

#[test]
fn parse_iso_date_accepts_signs_and_rejects_trailing_text() {
    // Each field is read as `str::parse::<i64>` reads it.
    assert_eq!(parse_iso_date_to_epoch_day("+2026-05-15"), parse_iso_date_to_epoch_day("2026-05-15"));
    assert_eq!(parse_iso_date_to_epoch_day("2026-05-15-x"), None);
    assert_eq!(parse_iso_date_to_epoch_day("2026-05- 15"), None);
    assert_eq!(parse_iso_date_to_epoch_day("2026--05-15"), None);
    assert_eq!(parse_iso_date_to_epoch_day(""), None);
}

#[test]
fn parse_iso_date_counts_days_exactly() {
    assert_eq!(parse_iso_date_to_epoch_day("2000-03-01"), Some(11017));
    assert_eq!(parse_iso_date_to_epoch_day("1969-12-31"), Some(-1));
    assert_eq!(parse_iso_date_to_epoch_day("0001-01-01"), Some(-719162));
    assert_eq!(parse_iso_date_to_epoch_day("9999-12-31"), Some(2932896));
}

// --- epoch_days_to_ymd ---

#[test]
fn epoch_days_to_ymd_handles_distant_days() {
    assert_eq!(epoch_days_to_ymd(0), (1970, 1, 1));
    assert_eq!(epoch_days_to_ymd(-1), (1969, 12, 31));
    assert_eq!(epoch_days_to_ymd(-719162), (1, 1, 1));
    assert_eq!(epoch_days_to_ymd(-719163), (0, 12, 31));
    assert_eq!(epoch_days_to_ymd(11016), (2000, 2, 29));
    assert_eq!(epoch_days_to_ymd(2932896), (9999, 12, 31));
}

#[test]
fn epoch_and_civil_round_trip_over_four_centuries() {
    let mut d = civil_to_epoch_day(1900, 1, 1);
    let end = civil_to_epoch_day(2300, 1, 1);
    while d < end {
        let (y, m, dd) = epoch_days_to_ymd(d);
        assert_eq!(civil_to_epoch_day(y, m as i64, dd as i64), d);
        d += 1;
    }
}

#[test]
fn days_in_month_follows_the_gregorian_leap_rule() {
    assert_eq!(days_in_month(2024, 2), 29);
    assert_eq!(days_in_month(2026, 2), 28);
    assert_eq!(days_in_month(1900, 2), 28);
    assert_eq!(days_in_month(2000, 2), 29);
    assert_eq!(days_in_month(2026, 4), 30);
    assert_eq!(days_in_month(2026, 12), 31);
    assert_eq!(days_in_month(2026, 13), 31);
}

// --- current_month_range_for_day ---

#[test]
fn current_month_range_last_day_of_may_2026() {
    let (start, end) = current_month_range_for_day(day("2026-05-31"));
    assert_eq!(start, "2026-05-01");
    assert_eq!(end, "2026-05-31");
}

#[test]
fn current_month_range_for_mid_month() {
    let (start, end) = current_month_range_for_day(day("2026-05-15"));
    assert_eq!(start, "2026-05-01");
    assert_eq!(end, "2026-05-31");
}

#[test]
fn current_month_range_leap_february() {
    let (start, end) = current_month_range_for_day(day("2024-02-10"));
    assert_eq!(start, "2024-02-01");
    assert_eq!(end, "2024-02-29");
}

#[test]
fn current_month_range_non_leap_february() {
    let (start, end) = current_month_range_for_day(day("2026-02-10"));
    assert_eq!(start, "2026-02-01");
    assert_eq!(end, "2026-02-28");
}

// --- prior_month_range_for_day ---

#[test]
fn prior_month_range_last_day_of_may_2026() {
    let (start, end) = prior_month_range_for_day(day("2026-05-31"));
    assert_eq!(start, "2026-04-01");
    assert_eq!(end, "2026-04-30");
}

#[test]
fn prior_month_range_crosses_year_boundary() {
    let (start, end) = prior_month_range_for_day(day("2026-01-15"));
    assert_eq!(start, "2025-12-01");
    assert_eq!(end, "2025-12-31");
}

#[test]
fn prior_month_range_march_2024_gives_leap_february() {
    let (start, end) = prior_month_range_for_day(day("2024-03-10"));
    assert_eq!(start, "2024-02-01");
    assert_eq!(end, "2024-02-29");
}

// --- months_ago_start_for_day ---

#[test]
fn months_ago_start_n0_returns_current_month_start() {
    assert_eq!(months_ago_start_for_day(day("2026-05-15"), 0), "2026-05-01");
}

#[test]
fn months_ago_start_n12_crosses_year() {
    assert_eq!(months_ago_start_for_day(day("2026-05-15"), 12), "2025-05-01");
}

#[test]
fn months_ago_start_n6_from_february_crosses_year() {
    assert_eq!(months_ago_start_for_day(day("2026-02-15"), 6), "2025-08-01");
}

// --- subtract_months and formatting ---

#[test]
fn subtract_months_steps_back_across_years() {
    assert_eq!(subtract_months(2026, 5, 0), (2026, 5));
    assert_eq!(subtract_months(2026, 5, 4), (2026, 1));
    assert_eq!(subtract_months(2026, 5, 5), (2025, 12));
    assert_eq!(subtract_months(2026, 1, 25), (2023, 12));
    // a month above 12 first counts down within its year
    assert_eq!(subtract_months(2026, 13, 13), (2025, 12));
}

#[test]
fn formatting_pads_like_format_macro() {
    assert_eq!(format_ymd(2026, 5, 1), format!("{:04}-{:02}-{:02}", 2026, 5, 1));
    assert_eq!(format_ymd(7, 12, 31), "0007-12-31");
    assert_eq!(format_ymd(-5, 1, 9), format!("{:04}-{:02}-{:02}", -5i64, 1, 9));
    assert_eq!(format_ymd(12345, 1, 1), "12345-01-01");
    assert_eq!(format_ym(202, 30), "0202-30");
}

#[test]
fn parse_ym_reads_year_and_month_fields() {
    assert_eq!(parse_ym("2026-03"), Some((2026, 3)));
    assert_eq!(parse_ym("+2026-+3"), Some((2026, 3)));
    assert_eq!(parse_ym("2026-x3"), None);
    assert_eq!(parse_ym("2026030"), None);
    assert_eq!(parse_ym("2026--3"), None);
}

// --- today_epoch_day ---

#[test]
fn today_epoch_day_honours_a_valid_override() {
    assert_eq!(today_epoch_day(Some("2026-05-15")), Some(day("2026-05-15")));
}

#[test]
fn today_epoch_day_ignores_a_malformed_override() {
    let before = Local::now().date_naive();
    let d = today_epoch_day(Some("not-a-date")).unwrap();
    let after = Local::now().date_naive();
    let lo = civil_to_epoch_day(before.year() as i64, before.month() as i64, before.day() as i64);
    let hi = civil_to_epoch_day(after.year() as i64, after.month() as i64, after.day() as i64);
    assert!(lo <= d && d <= hi);
    assert_eq!(today_epoch_day(None).unwrap() >= lo, true);
}

// --- range_for_months_count (spending history) ---

#[test]
fn range_for_months_count_default_6_excludes_current_month() {
    let today = day("2026-05-15");
    let (start, end) = range_for_months_count(today, 6);
    assert_eq!(start, "2025-11-01");
    assert_eq!(end, "2026-04-30");
}

#[test]
fn range_for_months_count_1_returns_only_prior_month() {
    let today = day("2026-05-15");
    let (start, end) = range_for_months_count(today, 1);
    assert_eq!(start, "2026-04-01");
    assert_eq!(end, "2026-04-30");
}

#[test]
fn range_for_months_count_crosses_year_when_today_is_january() {
    let today = day("2026-01-10");
    let (start, end) = range_for_months_count(today, 3);
    assert_eq!(start, "2025-10-01");
    assert_eq!(end, "2025-12-31");
}

#[test]
fn range_for_months_count_zero_clamps_to_one_month() {
    let today = day("2026-05-15");
    let (start, end) = range_for_months_count(today, 0);
    assert_eq!(start, "2026-04-01");
    assert_eq!(end, "2026-04-30");
    assert!(start <= end);
}

#[test]
fn range_for_months_count_and_enumeration_agree_on_month_count() {
    let today = day("2026-05-15");
    for n in 1..=30u32 {
        let (start, end) = range_for_months_count(today, n);
        let labels = enumerate_months_in_range(&start, &end);
        assert_eq!(labels.len(), n as usize);
        assert_eq!(labels.last().unwrap(), "2026-04");
    }
}

#[test]
fn formatted_dates_parse_back_to_their_day() {
    for (y, m, d) in [(1i64, 1u32, 1u32), (1970, 1, 1), (2024, 2, 29), (2026, 12, 31), (9999, 12, 31)] {
        let text = format_ymd(y, m, d);
        assert_eq!(parse_iso_date_to_epoch_day(&text), Some(civil_to_epoch_day(y, m as i64, d as i64)));
    }
}
