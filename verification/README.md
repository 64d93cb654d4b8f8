# monarch_mcp

A local Model Context Protocol server that acts as a budgeting advisor over a
household's Monarch Money data. It reads accounts, transactions, budgets and
recurring charges, and its only write path changes a transaction's category,
tags or notes.

## Layout

- `src/` — the verified library (Verus). Its functions carry contracts that
  Verus proves, except a few trusted wrappers whose contracts restate what std,
  chrono, serde_json and reqwest document for the one call each makes: the
  system clock and the local calendar date (`calendar`), UTF-8 decoding,
  `char::is_alphanumeric` and `str::to_lowercase` (`text`), reading JSON
  replies (`client`) and the text of a transport error (`error`):
  - `calendar` — proleptic Gregorian dates on Unix epoch days, ISO date
    parsing, month ranges and month labels;
  - `text`, `text_order` — decimal parsing and formatting as `str::parse` and
    `format!` do them, white space, and the order of texts;
  - `spending_history`, `savings_rate` — month buckets, complete-month
    windows, and the fixed-category taxonomy;
  - `asset_allocation`, `account_inventory`, `retirement_readiness` — account
    classification and the invested/investable rules;
  - `net_worth_trend` — the months, account types and first-seen baselines of
    the net-worth trend;
  - `spending_report`, `subscription_audit` — duplicate-charge grouping and
    billing cadences;
  - `progress_vs_goals`, `goals` — months to a target date, goal bands, the
    worst-of debt-payoff status, and what a read of the goals file means;
  - `budget_review`, `recurring_scan` — budget pacing statuses and their
    counts, and the upcoming renewals among recurring charges;
  - `triage` — category suggestions and the change-request gate;
  - `client`, `error`, `cli`, `server` — what Monarch's replies mean, error
    messages, the authorization header and the answer a tool gives on
    failure, run modes and the
    interactive login's steps, and the loopback-only bind rule.
- `app/` — the program around the library: HTTP and MCP transport, files and
  environment, and the money arithmetic over `f64` amounts.
- `tests/` — tests of the library's public functions.
