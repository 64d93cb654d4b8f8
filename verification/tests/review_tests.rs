use monarch_mcp::budget_review::{pace_counts, PaceStatus};
use monarch_mcp::calendar::month_labels_between;
use monarch_mcp::client::authorization_header;
use monarch_mcp::error::MonarchError;
use monarch_mcp::progress_vs_goals::{goal_guidance, goal_status};
use monarch_mcp::recurring_scan::{upcoming_renewals, ScheduledCharge};
use monarch_mcp::spending_history::{category_tokens, is_fixed_category};

// --- budget pacing rollup ---

#[test]
fn pace_counts_count_each_status() {
    let statuses = vec![
        PaceStatus::OnTrack,
        PaceStatus::Over,
        PaceStatus::OverBudget,
        PaceStatus::Under,
        PaceStatus::OnTrack,
        PaceStatus::Under,
        PaceStatus::Under,
    ];
    let c = pace_counts(&statuses);
    assert_eq!(c.on_track_count, 2);
    assert_eq!(c.over_count, 1);
    assert_eq!(c.over_budget_count, 1);
    assert_eq!(c.under_count, 3);
    assert_eq!(
        c.on_track_count + c.over_count + c.over_budget_count + c.under_count,
        statuses.len()
    );
}

#[test]
fn pace_counts_of_no_categories_are_zero() {
    let c = pace_counts(&[]);
    assert_eq!(
        (c.on_track_count, c.over_count, c.over_budget_count, c.under_count),
        (0, 0, 0, 0)
    );
}

// --- upcoming renewals ---

fn charge(merchant: &str, is_past: bool) -> ScheduledCharge {
    ScheduledCharge { merchant: merchant.to_string(), is_past }
}

#[test]
fn upcoming_renewals_keep_charges_not_yet_past_in_order() {
    let charges = vec![
        charge("Netflix", false),
        charge("Gym", true),
        charge("Spotify", false),
        charge("Rent", true),
    ];
    let merchants: Vec<String> =
        upcoming_renewals(&charges).into_iter().map(|u| u.merchant).collect();
    assert_eq!(merchants, vec!["Netflix", "Spotify"]);
}

#[test]
fn upcoming_renewals_empty_when_every_charge_is_past() {
    assert!(upcoming_renewals(&[charge("Gym", true)]).is_empty());
    assert!(upcoming_renewals(&[]).is_empty());
}

// --- goal banding ---

#[test]
fn goal_status_bands() {
    assert_eq!(goal_status(true, false).status, "on track");
    assert_eq!(goal_status(false, false).status, "drifting");
    assert_eq!(goal_status(false, true).status, "off");
}

#[test]
fn goal_status_at_or_above_goal_wins_over_below_half() {
    // A goal of zero or below can be reached while the actual is also below half of it.
    assert_eq!(goal_status(true, true).status, "on track");
}

// --- authorization header ---

#[test]
fn authorization_header_prefixes_the_token() {
    match authorization_header(Some("abc123")) {
        Ok(h) => assert_eq!(h, "Token abc123"),
        Err(e) => panic!("expected a header, got {}", e.message()),
    }
}

#[test]
fn authorization_header_without_a_token_is_not_authenticated() {
    match authorization_header(None) {
        Err(MonarchError::Internal(m)) => assert_eq!(m, "not authenticated"),
        Err(other) => panic!("expected an internal error, got {}", other.message()),
        Ok(h) => panic!("expected an error, got {h}"),
    }
}

// --- ASCII word tokens ---

#[test]
fn ascii_category_names_classify_by_whole_lowercase_words() {
    assert!(is_fixed_category("Home Mortgage"));
    assert!(is_fixed_category("MORTGAGE"));
    assert!(is_fixed_category("auto insurance"));
    assert!(is_fixed_category("Electric Utility"));
    assert!(is_fixed_category("Dental Care"));
    assert!(!is_fixed_category("Concert Rentals"));
    assert!(!is_fixed_category("Accidental Purchases"));
    assert_eq!(category_tokens("Home MORTGAGE"), vec!["home", "mortgage"]);
}

// --- goal guidance ---

#[test]
fn guidance_only_when_no_goal_is_set() {
    assert_eq!(
        goal_guidance(false, false, false).as_deref(),
        Some(
            "No goals configured yet. Add a goals.toml file and set MONARCH_GOALS_FILE to its \
             path to start tracking progress."
        )
    );
    assert_eq!(goal_guidance(true, false, false), None);
    assert_eq!(goal_guidance(false, true, false), None);
    assert_eq!(goal_guidance(false, false, true), None);
}

// --- month labels ---

#[test]
fn month_labels_walk_across_a_year_end() {
    assert_eq!(month_labels_between(2025, 11, 2026, 2), vec!["2025-11", "2025-12", "2026-01", "2026-02"]);
    assert!(month_labels_between(2026, 3, 2026, 2).is_empty());
}

#[test]
fn month_labels_after_an_out_of_range_month_continue_in_january() {
    assert_eq!(month_labels_between(2025, 13, 2026, 1), vec!["2025-13", "2026-01"]);
    assert_eq!(
        month_labels_between(2025, u32::MAX, 2026, 1),
        vec![format!("2025-{}", u32::MAX), "2026-01".to_string()]
    );
    assert_eq!(month_labels_between(i64::MAX, 12, i64::MAX, 12), vec![format!("{}-12", i64::MAX)]);
}
