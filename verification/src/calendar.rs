//! Proleptic Gregorian calendar arithmetic on Unix epoch days.
//!
//! The executable conversions use Howard Hinnant's era-based algorithms; the
//! specifications state the calendar directly (days before a year, days before
//! a month, days in a month) and the proofs show the two agree.

use chrono::Datelike;
use vstd::prelude::*;

use crate::text::{
    append_str, append_zero_padded, chars_of, find_char_from, first_index_from, fmt_zero_padded,
    lemma_split_once_dash_at, lemma_split_once_dash_none, parse_i64_in, parse_u32_in,
    spec_parse_i64, spec_parse_u32, split_once_dash,
};
use crate::text::{
    is_ascii_text, is_digit, lemma_decimal_digits_facts, lemma_first_index_from_at,
    lemma_zero_padded_digits,
};

verus! {

// ---------------------------------------------------------------------------
// The calendar, stated directly
// ---------------------------------------------------------------------------

pub open spec fn is_leap_year(y: int) -> bool {
    y % 400 == 0 || (y % 4 == 0 && y % 100 != 0)
}

/// Days in month `m` of year `y`; any month outside `1..=12` counts 31 days
/// (the fallback the month-length helper uses).
pub open spec fn month_length(y: int, m: int) -> int {
    if m == 4 || m == 6 || m == 9 || m == 11 {
        30
    } else if m == 2 {
        if is_leap_year(y) {
            29
        } else {
            28
        }
    } else {
        31
    }
}

/// Days in the months of year `y` before month `m`.
pub open spec fn days_before_month(y: int, m: int) -> int
    decreases m,
{
    if m <= 1 {
        0
    } else {
        days_before_month(y, m - 1) + month_length(y, m - 1)
    }
}

/// Days from 0001-01-01 to the first of January of year `y`.
pub open spec fn days_before_year(y: int) -> int {
    365 * (y - 1) + (y - 1) / 4 - (y - 1) / 100 + (y - 1) / 400
}

pub open spec fn is_valid_date(y: int, m: int, d: int) -> bool {
    1 <= m <= 12 && 1 <= d <= month_length(y, m)
}

/// Unix epoch day (days since 1970-01-01) of the civil date `y-m-d`.
pub open spec fn epoch_day_of(y: int, m: int, d: int) -> int {
    days_before_year(y) + days_before_month(y, m) + d - 1 - 719162
}

/// Month index counting from year 0: `y * 12 + (m - 1)`.
pub open spec fn month_index(y: int, m: int) -> int {
    y * 12 + m - 1
}

pub open spec fn year_of_index(i: int) -> int {
    i / 12
}

pub open spec fn month_of_index(i: int) -> int {
    i % 12 + 1
}

/// The civil date of an epoch day.
pub open spec fn ymd_of_epoch_day(days: int) -> (int, int, int) {
    choose|y: int, m: int, d: int| is_valid_date(y, m, d) && epoch_day_of(y, m, d) == days
}

/// Epoch days the conversions handle without arithmetic overflow.
pub open spec fn epoch_day_in_range(days: int) -> bool {
    i64::MIN + 146_096 - 719_468 <= days <= i64::MAX - 719_468
}

/// Years the civil-to-epoch conversion handles without arithmetic overflow.
pub open spec fn year_in_range(y: int) -> bool {
    -25_000_000_000_000_000 <= y <= 25_000_000_000_000_000
}

// ---------------------------------------------------------------------------
// Hinnant's algorithms as spec functions (for the proofs)
// ---------------------------------------------------------------------------

spec fn march_offset(mp: int) -> int {
    (153 * mp + 2) / 5
}

spec fn days_to_march_year(k: int) -> int {
    365 * k + k / 4 - k / 100
}

/// Days from 0000-03-01 to March 1 of year `y`.
spec fn days_from_march_zero(y: int) -> int {
    365 * y + y / 4 - y / 100 + y / 400
}

spec fn hinnant_days(y: int, m: int, d: int) -> int {
    let yy = if m <= 2 { y - 1 } else { y };
    let era = yy / 400;
    let yoe = yy - era * 400;
    let mp = if m > 2 { m - 3 } else { m + 9 };
    let doy = march_offset(mp) + d - 1;
    let doe = days_to_march_year(yoe) + doy;
    era * 146_097 + doe - 719_468
}

// ---------------------------------------------------------------------------
// Lemmas
// ---------------------------------------------------------------------------

proof fn lemma_days_before_month_table(y: int, m: int)
    requires
        1 <= m <= 12,
    ensures
        days_before_month(y, m) == (if m == 1 {
            0
        } else if m == 2 {
            31
        } else {
            march_offset(m - 3) + 59 + (if is_leap_year(y) {
                1int
            } else {
                0
            })
        }),
{
    reveal_with_fuel(days_before_month, 13);
}

proof fn lemma_div_step(y: int)
    ensures
        y / 4 - (y - 1) / 4 == (if y % 4 == 0 {
            1int
        } else {
            0
        }),
        y / 100 - (y - 1) / 100 == (if y % 100 == 0 {
            1int
        } else {
            0
        }),
        y / 400 - (y - 1) / 400 == (if y % 400 == 0 {
            1int
        } else {
            0
        }),
{
}

proof fn lemma_era_split(yy: int)
    ensures
        0 <= yy - (yy / 400) * 400 < 400,
        days_from_march_zero(yy) == (yy / 400) * 146_097 + days_to_march_year(yy - (yy / 400) * 400),
{
    let era = yy / 400;
    let r = yy - era * 400;
    assert(0 <= r < 400);
    assert(yy == era * 400 + r);
    assert((era * 400 + r) / 4 == era * 100 + r / 4);
    assert((era * 400 + r) / 100 == era * 4 + r / 100);
    assert((era * 400 + r) / 400 == era);
}

/// Hinnant's days-from-civil computes the epoch day of a valid date.
proof fn lemma_hinnant_days_correct(y: int, m: int, d: int)
    requires
        1 <= m <= 12,
    ensures
        hinnant_days(y, m, d) == epoch_day_of(y, m, d),
{
    lemma_days_before_month_table(y, m);
    let yy = if m <= 2 { y - 1 } else { y };
    lemma_era_split(yy);
    lemma_div_step(y);
    if m > 2 {
        assert(days_from_march_zero(y) - days_before_year(y) == 365 + (if is_leap_year(y) {
            1int
        } else {
            0
        }));
    } else {
        assert(days_from_march_zero(y - 1) == days_before_year(y));
        assert(march_offset(m + 9) == (if m == 1 {
            306int
        } else {
            337
        }));
    }
}

/// The year-of-era estimate in days-to-civil lands on the March-based year
/// that contains day-of-era `doe`.
proof fn lemma_year_of_era(doe: int)
    requires
        0 <= doe <= 146_096,
    ensures
        ({
            let yoe = (doe - doe / 1460 + doe / 36524 - doe / 146096) / 365;
            let lf = if (yoe + 1) % 4 == 0 && ((yoe + 1) % 100 != 0 || yoe == 399) {
                1int
            } else {
                0
            };
            &&& 0 <= yoe <= 399
            &&& days_to_march_year(yoe) <= doe
            &&& doe < days_to_march_year(yoe) + 365 + lf
        }),
{
    let yoe = (doe - doe / 1460 + doe / 36524 - doe / 146096) / 365;
    assert(0 <= yoe <= 399 && days_to_march_year(yoe) <= doe && doe < days_to_march_year(yoe) + 365
        + (if (yoe + 1) % 4 == 0 && ((yoe + 1) % 100 != 0 || yoe == 399) {
        1int
    } else {
        0
    })) by (nonlinear_arith)
        requires
            0 <= doe <= 146_096,
            yoe == (doe - doe / 1460 + doe / 36524 - doe / 146096) / 365,
    ;
}

spec fn march_year_extra(yoe: int) -> int {
    if (yoe + 1) % 4 == 0 && ((yoe + 1) % 100 != 0 || yoe == 399) {
        1
    } else {
        0
    }
}

spec fn year_of_era(doe: int) -> int {
    (doe - doe / 1460 + doe / 36524 - doe / 146096) / 365
}

/// Hinnant's civil-from-days, as a spec function.
spec fn hinnant_ymd(days: int) -> (int, int, int) {
    let z = days + 719_468;
    let era = z / 146_097;
    let doe = z - era * 146_097;
    let yoe = year_of_era(doe);
    let y = yoe + era * 400;
    let doy = doe - days_to_march_year(yoe);
    let mp = (5 * doy + 2) / 153;
    let d = doy - march_offset(mp) + 1;
    let m = if mp < 10 {
        mp + 3
    } else {
        mp - 9
    };
    (if m <= 2 {
        y + 1
    } else {
        y
    }, m, d)
}

proof fn lemma_march_offsets()
    ensures
        march_offset(0) == 0,
        march_offset(1) == 31,
        march_offset(2) == 61,
        march_offset(3) == 92,
        march_offset(4) == 122,
        march_offset(5) == 153,
        march_offset(6) == 184,
        march_offset(7) == 214,
        march_offset(8) == 245,
        march_offset(9) == 275,
        march_offset(10) == 306,
        march_offset(11) == 337,
        march_offset(12) == 367,
{
}

/// The month estimate in days-to-civil picks the month containing day-of-year `doy`
/// (counted from March 1).
proof fn lemma_month_of_doy(doy: int, lf: int)
    requires
        0 <= lf <= 1,
        0 <= doy < 365 + lf,
    ensures
        ({
            let mp = (5 * doy + 2) / 153;
            &&& 0 <= mp <= 11
            &&& march_offset(mp) <= doy
            &&& doy < march_offset(mp + 1)
            &&& (mp == 11 ==> doy - march_offset(mp) < 28 + lf)
        }),
{
    lemma_march_offsets();
    let mp = (5 * doy + 2) / 153;
    assert(0 <= mp <= 11 && march_offset(mp) <= doy && doy < march_offset(mp + 1)) by (nonlinear_arith)
        requires
            0 <= doy <= 365,
            mp == (5 * doy + 2) / 153,
            march_offset(mp) == (153 * mp + 2) / 5,
            march_offset(mp + 1) == (153 * (mp + 1) + 2) / 5,
    ;
}

proof fn lemma_leap_of_march_year(era: int, yoe: int)
    requires
        0 <= yoe <= 399,
    ensures
        is_leap_year(yoe + era * 400 + 1) == (march_year_extra(yoe) == 1),
{
    let a = yoe + 1;
    let y1 = yoe + era * 400 + 1;
    assert(y1 % 4 == a % 4 && y1 % 100 == a % 100 && y1 % 400 == a % 400) by (nonlinear_arith)
        requires
            y1 == a + 400 * era,
    ;
}

/// Days-to-civil produces a valid date whose epoch day is the input.
proof fn lemma_hinnant_ymd_correct(days: int)
    ensures
        ({
            let (y, m, d) = hinnant_ymd(days);
            is_valid_date(y, m, d) && epoch_day_of(y, m, d) == days
        }),
{
    let z = days + 719_468;
    let era = z / 146_097;
    let doe = z - era * 146_097;
    assert(0 <= doe <= 146_096);
    lemma_year_of_era(doe);
    let yoe = year_of_era(doe);
    let lf = march_year_extra(yoe);
    let y = yoe + era * 400;
    let doy = doe - days_to_march_year(yoe);
    lemma_month_of_doy(doy, lf);
    lemma_march_offsets();
    lemma_leap_of_march_year(era, yoe);
    let mp = (5 * doy + 2) / 153;
    let d = doy - march_offset(mp) + 1;
    let m = if mp < 10 { mp + 3 } else { mp - 9 };
    let year = if m <= 2 { y + 1 } else { y };
    assert(is_valid_date(year, m, d));
    lemma_hinnant_days_correct(year, m, d);
    let yy = if m <= 2 { year - 1 } else { year };
    assert(yy == y);
    assert(yy / 400 == era);
    assert(yy - era * 400 == yoe);
    assert((if m > 2 { m - 3 } else { m + 9 }) == mp);
}

/// Every valid date is the days-to-civil image of its epoch day.
proof fn lemma_hinnant_ymd_of_epoch_day(y: int, m: int, d: int)
    requires
        is_valid_date(y, m, d),
    ensures
        hinnant_ymd(epoch_day_of(y, m, d)) == (y, m, d),
{
    lemma_hinnant_days_correct(y, m, d);
    lemma_march_offsets();
    let yy = if m <= 2 { y - 1 } else { y };
    lemma_era_split(yy);
    let era = yy / 400;
    let yoe = yy - era * 400;
    let mp = if m > 2 { m - 3 } else { m + 9 };
    let doy = march_offset(mp) + d - 1;
    let doe = days_to_march_year(yoe) + doy;
    lemma_leap_of_march_year(era, yoe);
    let lf = march_year_extra(yoe);
    assert(0 <= doy < 365 + lf);
    // the March-based year `yoe` ends within the era
    assert(days_to_march_year(yoe) + 365 + lf <= 146_097) by (nonlinear_arith)
        requires
            0 <= yoe <= 399,
            lf == (if (yoe + 1) % 4 == 0 && ((yoe + 1) % 100 != 0 || yoe == 399) {
                1int
            } else {
                0
            }),
    ;
    let z = epoch_day_of(y, m, d) + 719_468;
    assert(z == era * 146_097 + doe);
    assert(z / 146_097 == era);
    lemma_year_of_era(doe);
    let k = year_of_era(doe);
    // the March-based year containing `doe` is unique
    assert(k == yoe) by (nonlinear_arith)
        requires
            0 <= k <= 399,
            0 <= yoe <= 399,
            days_to_march_year(k) <= doe,
            doe < days_to_march_year(k) + 365 + march_year_extra(k),
            days_to_march_year(yoe) <= doe,
            doe < days_to_march_year(yoe) + 365 + march_year_extra(yoe),
            days_to_march_year(k) == 365 * k + k / 4 - k / 100,
            days_to_march_year(yoe) == 365 * yoe + yoe / 4 - yoe / 100,
            march_year_extra(k) == (if (k + 1) % 4 == 0 && ((k + 1) % 100 != 0 || k == 399) {
                1int
            } else {
                0
            }),
            march_year_extra(yoe) == (if (yoe + 1) % 4 == 0 && ((yoe + 1) % 100 != 0 || yoe
                == 399) {
                1int
            } else {
                0
            }),
    ;
    lemma_month_of_doy(doy, lf);
    let mp2 = (5 * doy + 2) / 153;
    assert(mp2 == mp) by (nonlinear_arith)
        requires
            0 <= mp <= 11,
            0 <= mp2 <= 11,
            march_offset(mp) <= doy,
            doy < march_offset(mp + 1),
            march_offset(mp2) <= doy,
            doy < march_offset(mp2 + 1),
            march_offset(mp) == (153 * mp + 2) / 5,
            march_offset(mp + 1) == (153 * (mp + 1) + 2) / 5,
            march_offset(mp2) == (153 * mp2 + 2) / 5,
            march_offset(mp2 + 1) == (153 * (mp2 + 1) + 2) / 5,
    ;
}

/// Two valid dates with the same epoch day are the same date.
pub proof fn lemma_epoch_day_injective(y1: int, m1: int, d1: int, y2: int, m2: int, d2: int)
    requires
        is_valid_date(y1, m1, d1),
        is_valid_date(y2, m2, d2),
        epoch_day_of(y1, m1, d1) == epoch_day_of(y2, m2, d2),
    ensures
        y1 == y2 && m1 == m2 && d1 == d2,
{
    lemma_hinnant_ymd_of_epoch_day(y1, m1, d1);
    lemma_hinnant_ymd_of_epoch_day(y2, m2, d2);
}

/// Converting a date to its epoch day and back gives the same date: for every
/// existing date in the supported year range, `epoch_days_to_ymd` of
/// `civil_to_epoch_day(y, m, d)` is `(y, m, d)`.
pub proof fn law_civil_epoch_round_trip(y: int, m: int, d: int)
    requires
        is_valid_date(y, m, d),
        year_in_range(y),
    ensures
        epoch_day_in_range(epoch_day_of(y, m, d)),
        ymd_of_epoch_day(epoch_day_of(y, m, d)) == (y, m, d),
{
    lemma_days_before_month_table(y, m);
    lemma_march_offsets();
    let p = y - 1;
    assert(-9_200_000_000_000_000_000 <= 365 * p + p / 4 - p / 100 + p / 400
        <= 9_200_000_000_000_000_000) by (nonlinear_arith)
        requires
            -25_000_000_000_000_001 <= p <= 25_000_000_000_000_000,
    ;
    lemma_ymd_of_epoch_day(epoch_day_of(y, m, d), y, m, d);
}

/// A parsed ISO date names the date written in it: when
/// `parse_iso_date_to_epoch_day(s)` is `Some(e)`, the civil date of `e` is the
/// year, month and day fields of `s`.
pub proof fn law_parsed_date_fields(s: Seq<char>)
    requires
        spec_parse_iso_date(s) is Some,
    ensures
        ({
            let (ys, rest) = split_once_dash(s)->0;
            let (ms, ds) = split_once_dash(rest)->0;
            ymd_of_epoch_day(spec_parse_iso_date(s)->0) == (
                spec_parse_i64(ys)->0 as int,
                spec_parse_i64(ms)->0 as int,
                spec_parse_i64(ds)->0 as int,
            )
        }),
{
    let (ys, rest) = split_once_dash(s)->0;
    let (ms, ds) = split_once_dash(rest)->0;
    let y = spec_parse_i64(ys)->0 as int;
    let m = spec_parse_i64(ms)->0 as int;
    let d = spec_parse_i64(ds)->0 as int;
    lemma_ymd_of_epoch_day(spec_parse_iso_date(s)->0, y, m, d);
}

/// The civil date of a valid epoch day is the one `ymd_of_epoch_day` names.
proof fn lemma_ymd_of_epoch_day(days: int, y: int, m: int, d: int)
    requires
        is_valid_date(y, m, d),
        epoch_day_of(y, m, d) == days,
    ensures
        ymd_of_epoch_day(days) == (y, m, d),
{
    let (y2, m2, d2) = ymd_of_epoch_day(days);
    assert(is_valid_date(y, m, d) && epoch_day_of(y, m, d) == days);
    assert(is_valid_date(y2, m2, d2) && epoch_day_of(y2, m2, d2) == days);
    lemma_epoch_day_injective(y, m, d, y2, m2, d2);
}

/// The `(year, month)` reached by stepping `n` calendar months back from
/// `(year, month)`: within the year while the month stays positive, else by
/// month index.
pub open spec fn months_back(year: int, month: int, n: int) -> (int, int) {
    if n == 0 || n < month {
        (year, month - n)
    } else {
        let i = month_index(year, month) - n;
        (year_of_index(i), month_of_index(i))
    }
}

/// `YYYY-MM-DD` as `format!("{y:04}-{m:02}-{d:02}")` writes it.
pub open spec fn fmt_ymd(y: int, m: int, d: int) -> Seq<char> {
    fmt_zero_padded(y, 4) + seq!['-'] + fmt_zero_padded(m, 2) + seq!['-'] + fmt_zero_padded(d, 2)
}

/// `YYYY-MM` as `format!("{y:04}-{m:02}")` writes it.
pub open spec fn fmt_ym(y: int, m: int) -> Seq<char> {
    fmt_zero_padded(y, 4) + seq!['-'] + fmt_zero_padded(m, 2)
}

/// What `parse_iso_date_to_epoch_day` accepts: `Y-M-D` where each field parses
/// as an `i64` (the day field is everything after the second dash), the year
/// is in `1..=9999` and the date exists.
pub open spec fn spec_parse_iso_date(s: Seq<char>) -> Option<int> {
    match split_once_dash(s) {
        Some((ys, rest)) => match split_once_dash(rest) {
            Some((ms, ds)) => match (spec_parse_i64(ys), spec_parse_i64(ms), spec_parse_i64(ds)) {
                (Some(y), Some(m), Some(d)) => if 1 <= y <= 9999 && is_valid_date(
                    y as int,
                    m as int,
                    d as int,
                ) {
                    Some(epoch_day_of(y as int, m as int, d as int))
                } else {
                    None
                },
                _ => None,
            },
            None => None,
        },
        None => None,
    }
}

// ---------------------------------------------------------------------------
// Executable conversions
// ---------------------------------------------------------------------------

/// Number of days in `month` of `year` (31 for a month outside `1..=12`).
pub fn days_in_month(year: i64, month: u32) -> (r: u32)
    ensures
        r == month_length(year as int, month as int),
{
    match month {
        1 | 3 | 5 | 7 | 8 | 10 | 12 => 31,
        4 | 6 | 9 | 11 => 30,
        2 => {
            if year % 400 == 0 || (year % 4 == 0 && year % 100 != 0) {
                29
            } else {
                28
            }
        },
        _ => 31,
    }
}

/// Days since the Unix epoch of the civil date `year-month-day`
/// (Hinnant's days-from-civil). The date must exist.
pub fn civil_to_epoch_day(year: i64, month: i64, day: i64) -> (r: i64)
    requires
        is_valid_date(year as int, month as int, day as int),
        year_in_range(year as int),
    ensures
        r == epoch_day_of(year as int, month as int, day as int),
{
    proof {
        lemma_hinnant_days_correct(year as int, month as int, day as int);
        lemma_march_offsets();
    }
    let y = if month <= 2 { year - 1 } else { year };
    let m = month as u32;
    let era = if y >= 0 { y } else { y - 399 } / 400;
    assert(era == y / 400);
    let yoe = y - era * 400;
    let doy = (153 * (if m > 2 { m - 3 } else { m + 9 }) as i64 + 2) / 5 + day - 1;
    let doe = yoe * 365 + yoe / 4 - yoe / 100 + doy;
    era * 146_097 + doe - 719_468
}

/// The civil `(year, month, day)` of a day count since the Unix epoch
/// (Hinnant's civil-from-days).
pub fn epoch_days_to_ymd(days: i64) -> (r: (i64, u32, u32))
    requires
        epoch_day_in_range(days as int),
    ensures
        is_valid_date(r.0 as int, r.1 as int, r.2 as int),
        epoch_day_of(r.0 as int, r.1 as int, r.2 as int) == days,
        (r.0 as int, r.1 as int, r.2 as int) == ymd_of_epoch_day(days as int),
        -30_000_000_000_000_000 <= r.0 <= 30_000_000_000_000_000,
{
    proof {
        lemma_hinnant_ymd_correct(days as int);
        lemma_march_offsets();
        let z = days + 719_468;
        let era = z / 146_097;
        let doe = z - era * 146_097;
        lemma_year_of_era(doe);
        lemma_month_of_doy(doe - days_to_march_year(year_of_era(doe)), march_year_extra(year_of_era(doe)));
    }
    let z = days + 719_468;
    let era = if z >= 0 { z } else { z - 146_096 } / 146_097;
    assert(era == z / 146_097);
    let doe = z - era * 146_097;
    let yoe = (doe - doe / 1_460 + doe / 36_524 - doe / 146_096) / 365;
    let y = yoe + era * 400;
    let doy = doe - (365 * yoe + yoe / 4 - yoe / 100);
    let mp = (5 * doy + 2) / 153;
    let d = doy - (153 * mp + 2) / 5 + 1;
    let m = if mp < 10 { mp + 3 } else { mp - 9 };
    let year = if m <= 2 { y + 1 } else { y };
    proof {
        assert((year as int, m as int, d as int) == hinnant_ymd(days as int));
        lemma_ymd_of_epoch_day(days as int, year as int, m as int, d as int);
    }
    (year, m as u32, d as u32)
}

/// Parse an ISO `YYYY-MM-DD` date to days since the Unix epoch.
///
/// Returns `None` when the text does not have three dash-separated integer
/// fields, when the year is outside `1..=9999`, or when the date does not exist.
pub fn parse_iso_date_to_epoch_day(s: &str) -> (r: Option<i64>)
    ensures
        r == (match spec_parse_iso_date(s@) {
            Some(d) => Some(d as i64),
            None => None::<i64>,
        }),
        r matches Some(d) ==> d == spec_parse_iso_date(s@)->0,
{
    let v = chars_of(s);
    let ghost t = v@;
    assert(t.skip(0) =~= t);
    let i1 = match find_char_from(&v, '-', 0) {
        Some(i) => i,
        None => {
            proof {
                lemma_split_once_dash_none(t, 0);
            }
            return None;
        },
    };
    proof {
        lemma_split_once_dash_at(t, 0, i1 as int);
        assert(t.subrange(0, i1 as int) =~= t.take(i1 as int));
        assert(t.subrange(i1 + 1, t.len() as int) =~= t.skip(i1 + 1));
    }
    let i2 = match find_char_from(&v, '-', i1 + 1) {
        Some(i) => i,
        None => {
            proof {
                lemma_split_once_dash_none(t, i1 + 1);
            }
            return None;
        },
    };
    proof {
        lemma_split_once_dash_at(t, i1 + 1, i2 as int);
        crate::text::lemma_first_index_from_found(t, '-', i1 + 1);
    }
    let year = match parse_i64_in(&v, 0, i1) {
        Some(y) => y,
        None => return None,
    };
    let month = match parse_i64_in(&v, i1 + 1, i2) {
        Some(m) => m,
        None => return None,
    };
    let day = match parse_i64_in(&v, i2 + 1, v.len()) {
        Some(d) => d,
        None => return None,
    };
    if year < 1 || year > 9999 {
        return None;
    }
    if month < 1 || month > 12 {
        return None;
    }
    let max_day = days_in_month(year, month as u32) as i64;
    if day < 1 || day > max_day {
        return None;
    }
    Some(civil_to_epoch_day(year, month, day))
}

/// One month back from a month index (the step the month-subtraction loops take).
proof fn lemma_months_back_step(year: int, month: int, k: int)
    requires
        month >= 1,
        0 <= k,
    ensures
        ({
            let (y, m) = months_back(year, month, k);
            months_back(year, month, k + 1) == (if m == 1 {
                (y - 1, 12)
            } else {
                (y, m - 1)
            })
        }),
        ({
            let (y, m) = months_back(year, month, k);
            m >= 1 && (k >= month - 1 ==> m <= 12)
        }),
{
    let i = month_index(year, month) - k;
    if k >= month - 1 {
        assert(i == year * 12 + month - 1 - k);
        assert(year_of_index(i) * 12 + month_of_index(i) - 1 == i);
        assert(1 <= month_of_index(i) <= 12);
        let j = i - 1;
        if month_of_index(i) == 1 {
            assert(year_of_index(j) == year_of_index(i) - 1 && month_of_index(j) == 12) by (
            nonlinear_arith)
                requires
                    i % 12 == 0,
                    j == i - 1,
            ;
        } else {
            assert(year_of_index(j) == year_of_index(i) && month_of_index(j) == month_of_index(i)
                - 1) by (nonlinear_arith)
                requires
                    i % 12 != 0,
                    j == i - 1,
            ;
        }
        if k == month - 1 {
            assert(year_of_index(i) == year && month_of_index(i) == 1) by (nonlinear_arith)
                requires
                    i == year * 12,
            ;
        }
    }
}

/// Stepping a valid month back stays a valid month and moves the month index.
pub proof fn lemma_months_back_facts(year: int, month: int, n: int)
    requires
        1 <= month <= 12,
        0 <= n,
    ensures
        ({
            let (y, m) = months_back(year, month, n);
            &&& 1 <= m <= 12
            &&& month_index(y, m) == month_index(year, month) - n
            &&& y <= year
            &&& year - n / 12 - 1 <= y
        }),
{
    let i = month_index(year, month) - n;
    if n == 0 || n < month {
    } else {
        assert(year_of_index(i) * 12 + month_of_index(i) - 1 == i);
        assert(year_of_index(i) <= year && year - n / 12 - 1 <= year_of_index(i)) by (nonlinear_arith)
            requires
                i == year * 12 + month - 1 - n,
                1 <= month <= 12,
                n >= month,
        ;
    }
}

/// Step `(year, month)` back `n` calendar months.
///
/// A month above 12 first counts down within its year; month 0 cannot step.
pub fn subtract_months(year: i64, month: u32, n: u32) -> (r: (i64, u32))
    requires
        month >= 1 || n == 0,
        n == 0 || n < month || year_of_index(month_index(year as int, month as int) - n)
            >= i64::MIN,
    ensures
        (r.0 as int, r.1 as int) == months_back(year as int, month as int, n as int),
{
    let mut y = year;
    let mut m = month;
    let mut k: u32 = 0;
    while k < n
        invariant
            0 <= k <= n,
            month >= 1 || n == 0,
            n == 0 || n < month || year_of_index(month_index(year as int, month as int) - n)
                >= i64::MIN,
            (y as int, m as int) == months_back(year as int, month as int, k as int),
        decreases n - k,
    {
        proof {
            lemma_months_back_step(year as int, month as int, k as int);
            lemma_months_back_step(year as int, month as int, n as int);
            lemma_months_back_monotone(year as int, month as int, k as int + 1, n as int);
        }
        if m == 1 {
            y -= 1;
            m = 12;
        } else {
            m -= 1;
        }
        k = k + 1;
    }
    (y, m)
}

/// Stepping further back never reaches a later year.
proof fn lemma_months_back_monotone(year: int, month: int, k1: int, k2: int)
    requires
        month >= 1,
        0 <= k1 <= k2,
    ensures
        months_back(year, month, k2).0 <= months_back(year, month, k1).0,
{
    let i1 = month_index(year, month) - k1;
    let i2 = month_index(year, month) - k2;
    if k1 >= month {
        assert(i2 / 12 <= i1 / 12) by (nonlinear_arith)
            requires
                i2 <= i1,
        ;
    } else if k2 >= month {
        assert(i2 / 12 <= year) by (nonlinear_arith)
            requires
                i2 <= year * 12 + month - 1 - month,
        ;
    }
}

/// Write `YYYY-MM-DD`.
pub fn format_ymd(y: i64, m: u32, d: u32) -> (r: String)
    ensures
        r@ == fmt_ymd(y as int, m as int, d as int),
{
    let mut out = String::new();
    append_zero_padded(&mut out, y, 4);
    proof {
        reveal_strlit("-");
    }
    append_str(&mut out, "-");
    append_zero_padded(&mut out, m as i64, 2);
    proof {
        reveal_strlit("-");
    }
    append_str(&mut out, "-");
    append_zero_padded(&mut out, d as i64, 2);
    assert(out@ =~= fmt_ymd(y as int, m as int, d as int));
    out
}

/// Write `YYYY-MM`.
pub fn format_ym(y: i64, m: u32) -> (r: String)
    ensures
        r@ == fmt_ym(y as int, m as int),
{
    let mut out = String::new();
    append_zero_padded(&mut out, y, 4);
    proof {
        reveal_strlit("-");
    }
    append_str(&mut out, "-");
    append_zero_padded(&mut out, m as i64, 2);
    assert(out@ =~= fmt_ym(y as int, m as int));
    out
}

/// The first and last day of the month containing epoch day `day`, as
/// `YYYY-MM-DD` strings.
pub fn current_month_range_for_day(day: i64) -> (r: (String, String))
    requires
        epoch_day_in_range(day as int),
    ensures
        ({
            let (y, m, _) = ymd_of_epoch_day(day as int);
            r.0@ == fmt_ymd(y, m, 1) && r.1@ == fmt_ymd(y, m, month_length(y, m))
        }),
{
    let (year, month, _) = epoch_days_to_ymd(day);
    let start = format_ymd(year, month, 1);
    let last_day = days_in_month(year, month);
    let end = format_ymd(year, month, last_day);
    (start, end)
}

/// The first and last day of the month before the one containing epoch day
/// `day`, as `YYYY-MM-DD` strings.
pub fn prior_month_range_for_day(day: i64) -> (r: (String, String))
    requires
        epoch_day_in_range(day as int),
    ensures
        ({
            let (y, m, _) = ymd_of_epoch_day(day as int);
            let (py, pm) = months_back(y, m, 1);
            r.0@ == fmt_ymd(py, pm, 1) && r.1@ == fmt_ymd(py, pm, month_length(py, pm))
        }),
{
    let (y0, m0, _) = epoch_days_to_ymd(day);
    let mut year = y0;
    let mut month = m0;
    proof {
        lemma_months_back_step(y0 as int, m0 as int, 0);
    }
    if month == 1 {
        year -= 1;
        month = 12;
    } else {
        month -= 1;
    }
    let last_day = days_in_month(year, month);
    let start = format_ymd(year, month, 1);
    let end = format_ymd(year, month, last_day);
    (start, end)
}

/// The first day (`YYYY-MM-01`) of the month `n` months before the month
/// containing epoch day `day`; `n = 0` gives the current month's first day.
pub fn months_ago_start_for_day(day: i64, n: u32) -> (r: String)
    requires
        epoch_day_in_range(day as int),
    ensures
        ({
            let (y, m, _) = ymd_of_epoch_day(day as int);
            let (sy, sm) = months_back(y, m, n as int);
            r@ == fmt_ymd(sy, sm, 1)
        }),
{
    let (year, month, _) = epoch_days_to_ymd(day);
    let (y, m) = subtract_months(year, month, n);
    format_ymd(y, m, 1)
}

/// The `YYYY-MM` labels from `(y, m)` through `(end_y, end_m)`, stepping one
/// month at a time; a starting month above 12 is written once and then rolls
/// over to January of the next year.
pub open spec fn ym_walk(y: int, m: int, end_y: int, end_m: int) -> Seq<Seq<char>>
    decreases end_y - y + 1, 13 - m,
{
    if y > end_y || (y == end_y && m > end_m) {
        seq![]
    } else if m + 1 > 12 {
        seq![fmt_ym(y, m)] + ym_walk(y + 1, 1, end_y, end_m)
    } else {
        seq![fmt_ym(y, m)] + ym_walk(y, m + 1, end_y, end_m)
    }
}

/// A `YYYY-MM` text split at its first dash: an `i64` year and a `u32` month.
pub open spec fn spec_parse_ym(p: Seq<char>) -> Option<(i64, u32)> {
    match split_once_dash(p) {
        Some((a, b)) => match (spec_parse_i64(a), spec_parse_u32(b)) {
            (Some(y), Some(m)) => Some((y, m)),
            _ => None,
        },
        None => None,
    }
}

/// The civil date of an epoch day is a valid date with that epoch day.
pub proof fn lemma_ymd_of_epoch_day_is_valid(days: int)
    ensures
        ({
            let (y, m, d) = ymd_of_epoch_day(days);
            is_valid_date(y, m, d) && epoch_day_of(y, m, d) == days
        }),
{
    lemma_hinnant_ymd_correct(days);
    let (y, m, d) = hinnant_ymd(days);
    assert(is_valid_date(y, m, d) && epoch_day_of(y, m, d) == days);
}

/// A four-digit year and a month in `1..=12` write a seven-character ASCII
/// `YYYY-MM` that parses back to them.
pub proof fn lemma_fmt_ym_parses(y: int, m: int)
    requires
        0 <= y <= 9999,
        1 <= m <= 12,
    ensures
        fmt_ym(y, m).len() == 7,
        is_ascii_text(fmt_ym(y, m)),
        spec_parse_ym(fmt_ym(y, m)) == Some((y as i64, m as u32)),
{
    let ys = fmt_zero_padded(y, 4);
    let ms = fmt_zero_padded(m, 2);
    lemma_zero_padded_digits(y as nat, 4);
    lemma_zero_padded_digits(m as nat, 2);
    lemma_decimal_digits_facts(y as nat);
    lemma_decimal_digits_facts(m as nat);
    let t = fmt_ym(y, m);
    assert(t =~= ys + seq!['-'] + ms);
    assert(ys.len() == 4 && ms.len() == 2);
    assert forall|i: int| 0 <= i < t.len() implies (#[trigger] t[i] as u32) < 128 by {
        if i < 4 {
            assert(t[i] == ys[i] && is_digit(ys[i]));
        } else if i > 4 {
            assert(t[i] == ms[i - 5] && is_digit(ms[i - 5]));
        }
    }
    assert forall|j: int| 0 <= j < 4 implies t[j] != '-' by {
        assert(t[j] == ys[j] && is_digit(ys[j]));
    }
    lemma_first_index_from_at(t, '-', 0, 4);
    assert(t.take(4) =~= ys);
    assert(t.skip(5) =~= ms);
    assert(split_once_dash(t) == Some((ys, ms)));
    assert(is_digit(ys[0]) && is_digit(ms[0]));
    assert(spec_parse_i64(ys) == Some(y as i64));
    assert(spec_parse_u32(ms) == Some(m as u32));
}

/// Writing a date and parsing it back gives the same day: for every existing
/// date of the years `1..=9999`, `parse_iso_date_to_epoch_day` of
/// `format_ymd(y, m, d)` is the epoch day of that date.
pub proof fn law_formatted_date_parses_back(y: int, m: int, d: int)
    requires
        1 <= y <= 9999,
        is_valid_date(y, m, d),
    ensures
        spec_parse_iso_date(fmt_ymd(y, m, d)) == Some(epoch_day_of(y, m, d)),
{
    let ys = fmt_zero_padded(y, 4);
    let ms = fmt_zero_padded(m, 2);
    let ds = fmt_zero_padded(d, 2);
    lemma_zero_padded_digits(y as nat, 4);
    lemma_zero_padded_digits(m as nat, 2);
    lemma_zero_padded_digits(d as nat, 2);
    lemma_decimal_digits_facts(y as nat);
    lemma_decimal_digits_facts(m as nat);
    lemma_decimal_digits_facts(d as nat);
    let s = fmt_ymd(y, m, d);
    assert(s =~= ys + seq!['-'] + ms + seq!['-'] + ds);
    assert(ys.len() == 4 && ms.len() == 2 && ds.len() == 2);
    assert forall|j: int| 0 <= j < 4 implies s[j] != '-' by {
        assert(s[j] == ys[j] && is_digit(ys[j]));
    }
    lemma_first_index_from_at(s, '-', 0, 4);
    let rest = s.skip(5);
    assert(s.take(4) =~= ys);
    assert(rest =~= ms + seq!['-'] + ds);
    assert forall|j: int| 0 <= j < 2 implies rest[j] != '-' by {
        assert(rest[j] == ms[j] && is_digit(ms[j]));
    }
    lemma_first_index_from_at(rest, '-', 0, 2);
    assert(rest.take(2) =~= ms);
    assert(rest.skip(3) =~= ds);
    assert(split_once_dash(s) == Some((ys, rest)));
    assert(split_once_dash(rest) == Some((ms, ds)));
    assert(is_digit(ys[0]) && is_digit(ms[0]) && is_digit(ds[0]));
    assert(spec_parse_i64(ys) == Some(y as i64));
    assert(spec_parse_i64(ms) == Some(m as i64));
    assert(spec_parse_i64(ds) == Some(d as i64));
}

/// A `YYYY-MM-DD` date begins with its `YYYY-MM`.
pub proof fn lemma_fmt_ymd_begins_with_ym(y: int, m: int, d: int)
    ensures
        fmt_ymd(y, m, d) == fmt_ym(y, m) + (seq!['-'] + fmt_zero_padded(d, 2)),
{
    assert(fmt_ymd(y, m, d) =~= fmt_ym(y, m) + (seq!['-'] + fmt_zero_padded(d, 2)));
}

/// The month labels from one valid month through another are one per month
/// index in between, in order.
pub proof fn lemma_ym_walk_months(y: int, m: int, end_y: int, end_m: int)
    requires
        1 <= m <= 12,
        1 <= end_m <= 12,
        month_index(y, m) <= month_index(end_y, end_m) + 1,
    ensures
        ym_walk(y, m, end_y, end_m).len() == month_index(end_y, end_m) - month_index(y, m) + 1,
        forall|k: int|
            0 <= k < ym_walk(y, m, end_y, end_m).len() ==> #[trigger] ym_walk(y, m, end_y, end_m)[k]
                == fmt_ym(
                year_of_index(month_index(y, m) + k),
                month_of_index(month_index(y, m) + k),
            ),
    decreases end_y - y + 1, 13 - m,
{
    let w = ym_walk(y, m, end_y, end_m);
    let i = month_index(y, m);
    if y > end_y || (y == end_y && m > end_m) {
        assert(w.len() == 0);
    } else {
        assert(year_of_index(i) == y && month_of_index(i) == m) by (nonlinear_arith)
            requires
                i == y * 12 + m - 1,
                1 <= m <= 12,
        ;
        let (ny, nm) = if m + 1 > 12 {
            (y + 1, 1int)
        } else {
            (y, m + 1)
        };
        assert(month_index(ny, nm) == i + 1);
        lemma_ym_walk_months(ny, nm, end_y, end_m);
        let rest = ym_walk(ny, nm, end_y, end_m);
        assert(w == seq![fmt_ym(y, m)] + rest);
        assert forall|k: int| 0 <= k < w.len() implies #[trigger] w[k] == fmt_ym(
            year_of_index(i + k),
            month_of_index(i + k),
        ) by {
            if k > 0 {
                assert(w[k] == rest[k - 1]);
                assert(month_index(ny, nm) + (k - 1) == i + k);
            }
        }
    }
}

/// Parse a `YYYY-MM` prefix into `(year, month)` (split at the first dash).
pub fn parse_ym(p: &str) -> (r: Option<(i64, u32)>)
    ensures
        r == spec_parse_ym(p@),
{
    let v = chars_of(p);
    let ghost t = v@;
    assert(t.skip(0) =~= t);
    match find_char_from(&v, '-', 0) {
        Some(i) => {
            proof {
                lemma_split_once_dash_at(t, 0, i as int);
                assert(t.subrange(0, i as int) =~= t.take(i as int));
            }
            let y = match parse_i64_in(&v, 0, i) {
                Some(y) => y,
                None => return None,
            };
            let m = match parse_u32_in(&v, i + 1, v.len()) {
                Some(m) => m,
                None => return None,
            };
            Some((y, m))
        },
        None => {
            proof {
                lemma_split_once_dash_none(t, 0);
            }
            None
        },
    }
}

/// The labels `YYYY-MM` from `(y0, m0)` through `(end_y, end_m)`, oldest first.
///
/// A month of 12 or more is followed by January of the next year; the walk
/// ends as soon as it passes `(end_y, end_m)`.
pub fn month_labels_between(y0: i64, m0: u32, end_y: i64, end_m: u32) -> (r: Vec<String>)
    ensures
        r@.map_values(|l: String| l@) == ym_walk(y0 as int, m0 as int, end_y as int, end_m as int),
{
    let mut labels: Vec<String> = Vec::new();
    let mut y = y0;
    let mut m = m0;
    while !(y > end_y || (y == end_y && m > end_m))
        invariant
            labels@.map_values(|l: String| l@) + ym_walk(y as int, m as int, end_y as int, end_m as int)
                == ym_walk(y0 as int, m0 as int, end_y as int, end_m as int),
        decreases end_y - y, u32::MAX - m,
    {
        let label = format_ym(y, m);
        let ghost before = labels@.map_values(|l: String| l@);
        labels.push(label);
        assert(labels@.map_values(|l: String| l@) =~= before.push(fmt_ym(y as int, m as int)));
        if m >= 12 {
            if y == end_y {
                assert(ym_walk(y + 1, 1, end_y as int, end_m as int) =~= Seq::<Seq<char>>::empty());
                assert(labels@.map_values(|l: String| l@) =~= labels@.map_values(|l: String| l@)
                    + ym_walk(y + 1, 1, end_y as int, end_m as int));
                return labels;
            }
            m = 1;
            y = y + 1;
        } else {
            m = m + 1;
        }
    }
    assert(labels@.map_values(|l: String| l@) =~= labels@.map_values(|l: String| l@) + seq![]);
    labels
}

#[verifier::external_type_specification]
#[verifier::external_body]
pub struct ExSystemTime(std::time::SystemTime);

/// The system clock's current reading.
///
/// Trusted: `SystemTime::now`. Nothing is claimed of the reading.
#[verifier::external_body]
fn system_time_now() -> std::time::SystemTime {
    std::time::SystemTime::now()
}

/// How long after the Unix epoch a clock reading lies.
///
/// Trusted: `SystemTime::duration_since(UNIX_EPOCH)`, which fails (here:
/// `None`) when the reading is before 1970. Nothing is claimed of the span.
#[verifier::external_body]
fn since_unix_epoch(t: &std::time::SystemTime) -> Option<std::time::Duration> {
    match t.duration_since(std::time::UNIX_EPOCH) {
        Ok(d) => Some(d),
        Err(_) => None,
    }
}

/// The whole seconds of a span.
///
/// Trusted: `Duration::as_secs`. Nothing is claimed of the count.
#[verifier::external_body]
fn whole_seconds(d: &std::time::Duration) -> u64 {
    d.as_secs()
}

/// The nanoseconds of a span beyond its whole seconds.
///
/// Trusted: `Duration::subsec_nanos`, documented to be below one billion.
#[verifier::external_body]
fn subsec_nanos(d: &std::time::Duration) -> (r: u32)
    ensures
        r < 1_000_000_000,
{
    d.subsec_nanos()
}

/// Epoch day of chrono's last representable date, December 31, 262142.
pub open spec fn last_chrono_epoch_day() -> int {
    95_026_236
}

/// The civil date in the host's local time zone at `secs` seconds (and
/// `nanos` nanoseconds) after the Unix epoch; `None` when chrono cannot
/// represent the instant or its local date.
///
/// Trusted: `DateTime::from_timestamp`, `with_timezone(&Local)`, then the UTC
/// date-time moved by the local offset with `NaiveDateTime::checked_add_offset`
/// (what `date_naive` computes, without its panic past chrono's last date),
/// and its date. `from_timestamp` accepts every instant from 1970 through
/// chrono's last date (December 31, 262142) with under a second of
/// nanoseconds. The offset comes from the machine's time zone and is under a
/// day, so the local date is the UTC date of the instant or a day either side
/// of it; which one is not claimed. Time-zone data that gives an offset of a
/// day or more makes chrono panic in `with_timezone`, as it does in
/// `Local::now`: for instance a `TZ` rule whose standard offset is more than
/// 23 hours east, with the default summer time an hour ahead of it.
#[verifier::external_body]
fn local_date_at(secs: i64, nanos: u32) -> (r: Option<(i64, i64, i64)>)
    requires
        0 <= secs,
    ensures
        nanos < 1_000_000_000 && secs / 86_400 < last_chrono_epoch_day() ==> r is Some,
        r matches Some(ymd) ==> is_valid_date(ymd.0 as int, ymd.1 as int, ymd.2 as int),
        r matches Some(ymd) ==> -262_143 <= ymd.0 <= 262_142,
        r matches Some(ymd) ==> secs / 86_400 - 1 <= epoch_day_of(ymd.0 as int, ymd.1 as int, ymd.2 as int)
            <= secs / 86_400 + 1,
{
    let utc = chrono::DateTime::from_timestamp(secs, nanos)?;
    let local = utc.with_timezone(&chrono::Local);
    let naive = local.naive_utc().checked_add_offset(*local.offset())?;
    let today = naive.date();
    Some((today.year() as i64, today.month() as i64, today.day() as i64))
}

/// Days since the Unix epoch for "today".
///
/// `now_override` is the value of the test override (an ISO `YYYY-MM-DD`
/// date); when it parses, that day is used. Otherwise the local clock decides;
/// `None` when it cannot: a clock before 1970, or a local date past chrono's
/// last date (December 31, 262142).
pub fn today_epoch_day(now_override: Option<&str>) -> (r: Option<i64>)
    ensures
        match now_override {
            Some(s) if spec_parse_iso_date(s@) is Some => r == Some(spec_parse_iso_date(s@)->0 as i64),
            _ => r matches Some(day) ==> exists|y: int, m: int, d: int|
                is_valid_date(y, m, d) && -262_143 <= y <= 262_142 && day == epoch_day_of(y, m, d),
        },
        r matches Some(day) ==> epoch_day_in_range(day as int),
{
    if let Some(s) = now_override {
        if let Some(day) = parse_iso_date_to_epoch_day(s) {
            proof {
                lemma_epoch_day_of_bounds(spec_parse_iso_date(s@)->0);
            }
            return Some(day);
        }
    }
    let now = system_time_now();
    let span = match since_unix_epoch(&now) {
        Some(d) => d,
        None => return None,
    };
    let secs = whole_seconds(&span);
    let nanos = subsec_nanos(&span);
    if secs > i64::MAX as u64 {
        return None;
    }
    let (y, m, d) = match local_date_at(secs as i64, nanos) {
        Some(ymd) => ymd,
        None => return None,
    };
    let day = civil_to_epoch_day(y, m, d);
    proof {
        lemma_epoch_day_of_small_year(y as int, m as int, d as int);
    }
    Some(day)
}

proof fn lemma_epoch_day_of_small_year(y: int, m: int, d: int)
    requires
        is_valid_date(y, m, d),
        -262_143 <= y <= 262_142,
    ensures
        epoch_day_in_range(epoch_day_of(y, m, d)),
        -100_000_000 <= epoch_day_of(y, m, d) <= 100_000_000,
{
    lemma_days_before_month_table(y, m);
    lemma_march_offsets();
}

proof fn lemma_epoch_day_of_bounds(e: int)
    requires
        exists|y: int, m: int, d: int|
            is_valid_date(y, m, d) && 1 <= y <= 9999 && e == epoch_day_of(y, m, d),
    ensures
        epoch_day_in_range(e),
{
    let (y, m, d) = choose|y: int, m: int, d: int|
        is_valid_date(y, m, d) && 1 <= y <= 9999 && e == epoch_day_of(y, m, d);
    lemma_epoch_day_of_small_year(y, m, d);
}

} // verus!
