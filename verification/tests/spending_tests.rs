use monarch_mcp::savings_rate;
use monarch_mcp::spending_history::{
    category_tokens, enumerate_months_in_range, fixed_category_pattern, is_fixed_category,
    month_bucket, FIXED_CATEGORY_PATTERN_COUNT,
};

// --- enumerate_months_in_range ---

#[test]
fn enumerate_months_single_month() {
    let labels = enumerate_months_in_range("2026-03-01", "2026-03-31");
    assert_eq!(labels, vec!["2026-03"]);
}

#[test]
fn enumerate_months_three_months() {
    let labels = enumerate_months_in_range("2026-01-01", "2026-03-31");
    assert_eq!(labels, vec!["2026-01", "2026-02", "2026-03"]);
}

#[test]
fn enumerate_months_crosses_year_boundary() {
    let labels = enumerate_months_in_range("2025-11-01", "2026-02-28");
    assert_eq!(labels, vec!["2025-11", "2025-12", "2026-01", "2026-02"]);
}

#[test]
fn enumerate_months_is_empty_for_short_or_malformed_input() {
    assert!(enumerate_months_in_range("2026-0", "2026-03-31").is_empty());
    assert!(enumerate_months_in_range("2026-03-01", "2026").is_empty());
    assert!(enumerate_months_in_range("abcd-ef-gh", "2026-03-31").is_empty());
}

#[test]
fn enumerate_months_is_empty_when_end_precedes_start() {
    assert!(enumerate_months_in_range("2026-04-01", "2026-03-31").is_empty());
}

#[test]
fn enumerate_months_reads_only_the_seven_character_prefix() {
    // the prefix "2026-3-" splits once at the first dash, leaving the month field "3-"
    assert!(enumerate_months_in_range("2026-3-01", "2026-04-30").is_empty());
    assert_eq!(enumerate_months_in_range("2026-03", "2026-04-30xyz"), vec!["2026-03", "2026-04"]);
}

// --- savings-rate variants, which never slice through a character ---

#[test]
fn savings_enumerate_months_matches_spending_history() {
    assert_eq!(
        savings_rate::enumerate_months_in_range("2025-11-01", "2026-02-28"),
        vec!["2025-11", "2025-12", "2026-01", "2026-02"]
    );
}

#[test]
fn savings_enumerate_months_is_empty_when_prefix_splits_a_character() {
    // the seventh byte falls inside the two-byte 'é'
    assert!(savings_rate::enumerate_months_in_range("2026-0é", "2026-03-31").is_empty());
}

#[test]
fn savings_month_bucket_takes_the_prefix() {
    assert_eq!(savings_rate::month_bucket("2026-03-15"), Some("2026-03".to_string()));
    assert_eq!(savings_rate::month_bucket("2026-3"), None);
    assert_eq!(savings_rate::month_bucket("20260315"), None);
    assert_eq!(savings_rate::month_bucket("2026-0é"), None);
}

// --- month_bucket ---

#[test]
fn month_bucket_returns_the_year_month_prefix() {
    assert_eq!(month_bucket("2026-03-15"), Some("2026-03".to_string()));
    assert_eq!(month_bucket("2026-03"), Some("2026-03".to_string()));
}

#[test]
fn month_bucket_is_none_when_byte_seven_splits_a_character() {
    // the three-byte '€' spans bytes 5..8
    assert_eq!(month_bucket("2026-€"), None);
    assert!(enumerate_months_in_range("2026-€", "2026-03-31").is_empty());
    assert!(enumerate_months_in_range("2026-01-01", "2026-€").is_empty());
}

#[test]
fn month_bucket_rejects_short_and_undashed_dates() {
    assert_eq!(month_bucket("2026-3"), None);
    assert_eq!(month_bucket(""), None);
    assert_eq!(month_bucket("20260315"), None);
}

// --- is_fixed_category ---

#[test]
fn is_fixed_category_matches_known_patterns() {
    assert!(is_fixed_category("Mortgage"));
    assert!(is_fixed_category("Home Mortgage"));
    assert!(is_fixed_category("Rent"));
    assert!(is_fixed_category("Auto Insurance"));
    assert!(is_fixed_category("Utilities"));
    assert!(is_fixed_category("Electric Utility"));
    assert!(is_fixed_category("Auto Loan"));
    assert!(is_fixed_category("Loan Repayment"));
    assert!(is_fixed_category("Medical Bills"));
    assert!(is_fixed_category("Dental Care"));
}

#[test]
fn is_fixed_category_rejects_discretionary_categories() {
    assert!(!is_fixed_category("Dining"));
    assert!(!is_fixed_category("Shopping"));
    assert!(!is_fixed_category("Entertainment"));
    assert!(!is_fixed_category("Travel"));
    assert!(!is_fixed_category("Groceries"));
    assert!(!is_fixed_category("Subscriptions"));
}

#[test]
fn is_fixed_category_is_case_insensitive() {
    assert!(is_fixed_category("MORTGAGE"));
    assert!(is_fixed_category("auto insurance"));
    assert!(is_fixed_category("UTILITIES"));
}

#[test]
fn is_fixed_category_rejects_substring_false_positives() {
    assert!(!is_fixed_category("Concert Rentals"));
    assert!(!is_fixed_category("Apparent Overspending"));
    assert!(!is_fixed_category("Current Subscriptions"));
    assert!(!is_fixed_category("Parent Gifts"));
    assert!(!is_fixed_category("Accidental Purchases"));
    assert!(!is_fixed_category("Reinsurance Hobby"));
}

#[test]
fn is_fixed_category_matches_whole_words_between_any_separators() {
    assert!(is_fixed_category("Car/Auto-Loan"));
    assert!(is_fixed_category("rent2 rent"));
    assert!(!is_fixed_category("rent2"));
    assert!(is_fixed_category("Home_Insurance"));
    assert!(!is_fixed_category(""));
}

#[test]
fn every_pattern_is_itself_a_fixed_category() {
    for k in 0..FIXED_CATEGORY_PATTERN_COUNT {
        let p = fixed_category_pattern(k);
        assert!(is_fixed_category(p), "{p}");
        assert!(is_fixed_category(&p.to_uppercase()), "{p}");
    }
}

#[test]
fn category_tokens_split_on_non_alphanumerics_and_lowercase() {
    assert_eq!(category_tokens("Auto-Insurance / 2"), vec!["auto", "insurance", "2"]);
    assert!(category_tokens("  --  ").is_empty());
    assert_eq!(category_tokens("ÉTÉ Café"), vec!["été", "café"]);
}
