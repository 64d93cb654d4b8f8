use monarch_mcp::client::{Category, Transaction};
use monarch_mcp::triage::{
    build_category_suggestion_map, parsed_entry_from, partition_changeset, propose_changes, validate_change_entry,
    ChangeEntry, ParsedEntry, RejectedChange,
};

fn make_txn(id: &str, merchant: &str, category: &str) -> Transaction {
    Transaction {
        id: id.to_string(),
        date: "2026-05-20".to_string(),
        merchant_name: merchant.to_string(),
        category: Category { name: category.to_string(), group_type: Some("expense".into()) },
        tags: vec![],
        notes: String::new(),
        needs_review: false,
    }
}

fn make_change(id: Option<&str>, category: Option<&str>) -> ChangeEntry {
    ChangeEntry {
        id: id.map(str::to_string),
        category: category.map(str::to_string),
        tags: None,
        notes: None,
    }
}

fn wrap_ok(entries: Vec<ChangeEntry>) -> Vec<ParsedEntry> {
    entries.into_iter().map(ParsedEntry::Valid).collect()
}

// --- suggestions ---

#[test]
fn known_merchant_gets_historical_category_suggestion() {
    let history = vec![make_txn("h1", "Blue Bottle", "Coffee")];
    let map = build_category_suggestion_map(&history);
    assert_eq!(map.get("Blue Bottle"), Some(&"Coffee".to_string()));
}

#[test]
fn unknown_merchant_produces_no_proposal_entry() {
    let history: Vec<Transaction> = vec![];
    let map = build_category_suggestion_map(&history);
    let uncategorized = vec![make_txn("t1", "Mystery Merchant", "Uncategorized")];
    let result = propose_changes(&uncategorized, &map);
    assert!(result.proposed_changes.is_empty());
}

#[test]
fn uncategorized_history_entry_is_not_used_for_inference() {
    let history = vec![make_txn("h2", "Mystery Merchant", "Uncategorized")];
    let map = build_category_suggestion_map(&history);
    let uncategorized = vec![make_txn("t2", "Mystery Merchant", "Uncategorized")];
    let result = propose_changes(&uncategorized, &map);
    assert!(result.proposed_changes.is_empty());
}

#[test]
fn propose_changes_assigns_correct_category_to_known_merchant() {
    let history = vec![make_txn("h3", "Blue Bottle", "Coffee")];
    let map = build_category_suggestion_map(&history);
    let uncategorized = vec![make_txn("new-1", "Blue Bottle", "Uncategorized")];
    let result = propose_changes(&uncategorized, &map);
    assert_eq!(result.proposed_changes.len(), 1);
    let proposal = &result.proposed_changes[0];
    assert_eq!(proposal.merchant, "Blue Bottle");
    assert_eq!(proposal.category, "Coffee".to_string());
    assert_eq!(proposal.id, "new-1");
}

#[test]
fn suggestion_map_keeps_the_latest_categorized_entry_per_merchant() {
    let history = vec![
        make_txn("h1", "Corner Shop", "Groceries"),
        make_txn("h2", "Corner Shop", "Household"),
        make_txn("h3", "Corner Shop", "Uncategorized"),
        make_txn("h4", "Gas Co", "Utilities"),
    ];
    let map = build_category_suggestion_map(&history);
    assert_eq!(map.get("Corner Shop"), Some(&"Household".to_string()));
    assert_eq!(map.get("Gas Co"), Some(&"Utilities".to_string()));
    assert_eq!(map.get("Nowhere"), None);
    let uncategorized = vec![
        make_txn("u1", "Gas Co", "Uncategorized"),
        make_txn("u2", "Nowhere", "Uncategorized"),
        make_txn("u3", "Corner Shop", "Uncategorized"),
    ];
    let result = propose_changes(&uncategorized, &map);
    let got: Vec<(&str, &str)> =
        result.proposed_changes.iter().map(|p| (p.id.as_str(), p.category.as_str())).collect();
    assert_eq!(got, vec![("u1", "Utilities"), ("u3", "Household")]);
}

// --- changeset gate ---

#[test]
fn change_entry_with_only_category_is_valid() {
    let entry = make_change(Some("t1"), Some("Coffee"));
    assert!(validate_change_entry(&entry).is_ok());
}

#[test]
fn partition_changeset_separates_valid_and_rejected_entries() {
    let valid = ParsedEntry::Valid(make_change(Some("t1"), Some("Coffee")));
    let rejected = ParsedEntry::Rejected(RejectedChange {
        id: "t2".to_string(),
        reason: "amount_change_forbidden".to_string(),
    });
    let result = partition_changeset(&[valid, rejected], 10);
    assert_eq!(result.applied_changes.len(), 1);
    assert_eq!(result.applied_changes[0].id, "t1");
    assert_eq!(result.rejected_changes.len(), 1);
    assert_eq!(result.rejected_changes[0].id, "t2");
}

#[test]
fn partition_changeset_preserves_transaction_count() {
    let entries = wrap_ok(vec![make_change(Some("t1"), Some("Coffee"))]);
    let result = partition_changeset(&entries, 40);
    assert_eq!(result.transaction_count, 40);
}

#[test]
fn partition_changeset_handles_empty_input() {
    let result = partition_changeset(&[], 5);
    assert!(result.applied_changes.is_empty());
    assert!(result.rejected_changes.is_empty());
    assert_eq!(result.transaction_count, 5);
}

#[test]
fn partition_changeset_carries_fields_and_reasons_through() {
    let entries = vec![
        ParsedEntry::Valid(ChangeEntry {
            id: Some("t7".to_string()),
            category: None,
            tags: Some(vec!["a".to_string(), "b".to_string()]),
            notes: Some("note".to_string()),
        }),
        ParsedEntry::Rejected(RejectedChange { id: "x".to_string(), reason: "bad".to_string() }),
        ParsedEntry::Valid(make_change(Some("t9"), Some("Dining"))),
    ];
    let result = partition_changeset(&entries, 3);
    assert_eq!(result.applied_changes.len() + result.rejected_changes.len(), entries.len());
    assert_eq!(result.applied_changes[0].id, "t7");
    assert_eq!(result.applied_changes[0].tags, Some(vec!["a".to_string(), "b".to_string()]));
    assert_eq!(result.applied_changes[0].notes, Some("note".to_string()));
    assert_eq!(result.applied_changes[1].id, "t9");
    assert_eq!(result.applied_changes[1].category, Some("Dining".to_string()));
    assert_eq!(result.rejected_changes[0], RejectedChange { id: "x".to_string(), reason: "bad".to_string() });
}

fn keys(names: &[&str]) -> Vec<String> {
    names.iter().map(|k| k.to_string()).collect()
}

#[test]
fn unknown_id_sentinel_never_appears_in_applied_changes() {
    // {"id": "t-real", "amount": "bad-value"}: the strict parse fails
    let entry = parsed_entry_from(
        Some("t-real".to_string()),
        &keys(&["id", "amount"]),
        Err("unknown field `amount`".to_string()),
    );
    let result = partition_changeset(&[entry], 1);
    assert!(!result.applied_changes.iter().any(|a| a.id == "unknown"));
    assert_eq!(result.rejected_changes[0].id, "t-real");
}

#[test]
fn change_without_an_id_is_rejected_not_applied() {
    // {"category": "Coffee"}: parses, but names no transaction
    let entry = parsed_entry_from(None, &keys(&["category"]), Ok(make_change(None, Some("Coffee"))));
    let result = partition_changeset(&[entry], 1);
    assert!(result.applied_changes.is_empty());
    assert_eq!(
        result.rejected_changes,
        vec![RejectedChange { id: "unknown".to_string(), reason: "missing_transaction_id".to_string() }]
    );
    assert_eq!(validate_change_entry(&make_change(None, Some("Coffee"))), Err("missing_transaction_id".to_string()));
}

#[test]
fn forbidden_field_is_rejected_even_when_the_parse_let_it_through() {
    let entry = parsed_entry_from(
        Some("t-acct".to_string()),
        &keys(&["id", "category", "account"]),
        Ok(make_change(Some("t-acct"), Some("Coffee"))),
    );
    let result = partition_changeset(&[entry], 1);
    assert!(result.applied_changes.is_empty());
    assert_eq!(
        result.rejected_changes,
        vec![RejectedChange { id: "t-acct".to_string(), reason: "forbidden_field".to_string() }]
    );
}

#[test]
fn failed_parse_is_rejected_under_the_entry_id() {
    let r = parsed_entry_from(
        Some("t-acct".to_string()),
        &keys(&["id", "category", "account"]),
        Err("unknown field `account`".to_string()),
    );
    let result = partition_changeset(&[r], 1);
    assert!(result.applied_changes.is_empty());
    assert_eq!(result.rejected_changes[0].id, "t-acct");
    assert_eq!(result.rejected_changes[0].reason, "unknown field `account`");
    match parsed_entry_from(None, &keys(&["tags"]), Err("bad".to_string())) {
        ParsedEntry::Rejected(rej) => assert_eq!(rej.id, "unknown"),
        ParsedEntry::Valid(_) => panic!("expected a rejection"),
    }
}

#[test]
fn successful_parse_is_passed_through() {
    match parsed_entry_from(
        Some("ignored".to_string()),
        &keys(&["id", "category"]),
        Ok(make_change(Some("t1"), Some("Coffee"))),
    ) {
        ParsedEntry::Valid(e) => {
            assert_eq!(e.id, Some("t1".to_string()));
            assert_eq!(e.category, Some("Coffee".to_string()));
        }
        ParsedEntry::Rejected(_) => panic!("expected a parsed entry"),
    }
}

#[test]
fn change_entry_with_account_field_is_rejected() {
    // {"id": "t-acct", "category": "Coffee", "account": "other-account-id"}:
    // the strict parse refuses the unknown field
    let entry = parsed_entry_from(
        Some("t-acct".to_string()),
        &keys(&["id", "category", "account"]),
        Err("unknown field `account`, expected one of `id`, `category`, `tags`, `notes`".to_string()),
    );
    let result = partition_changeset(&[entry], 1);
    assert_eq!(result.applied_changes.len(), 0, "account field must be rejected, not applied");
    assert_eq!(result.rejected_changes.len(), 1, "must have one rejected entry");
    assert_eq!(result.rejected_changes[0].id, "t-acct", "real id must be preserved in rejection");
}
