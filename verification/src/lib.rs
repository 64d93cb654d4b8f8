//! Verified core of a budgeting advisor over household account data.

pub mod account_inventory;
pub mod asset_allocation;
pub mod budget_review;
pub mod calendar;
pub mod cli;
pub mod client;
pub mod error;
pub mod goals;
pub mod inspect_transactions;
pub mod net_worth_trend;
pub mod progress_vs_goals;
pub mod recurring_scan;
pub mod retirement_readiness;
pub mod savings_rate;
pub mod server;
pub mod spending_history;
pub mod spending_report;
pub mod subscription_audit;
pub mod text;
pub mod text_order;
pub mod triage;
