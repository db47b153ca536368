# EPIC Platform

A local-first personal investment platform: it loads holdings from a Schwab
positions export, keeps saved company research, and records immutable portfolio
reviews and watchlist briefings through a durable job queue.

- `src/` is the library, verified with Verus: CSV parsing and portfolio
  loading decisions, stock symbols, research snapshots and source decoding,
  review calculations and comparisons, watchlists, the job lifecycle and
  worker decisions, HTTP status and identifier rules, and what the pages show.
  Exact decimals, dates, URLs and JSON are computed by `rust_decimal`, `chrono`,
  `url` and `serde_json` behind small trusted wrappers in `decimal.rs`,
  `timestamp.rs`, `research/domain.rs` and `research/json.rs`.
- `app/` is the server around it: configuration, SQLite storage, the HTTP
  source, the background worker and the Axum routes of the JSON API. The job
  store computes each job's next record with the verified transitions of
  `jobs/lifecycle.rs` and writes it only if the stored record is still the
  one it read.
- The browser pages (rendered with Leptos) are not part of this crate: what
  they display (headlines, labels, amounts, percentages, notices) is computed
  by `src/pages/`, and `app/` serves the JSON API only.
- `tests/` exercise the library on concrete values.

Run the server with `SCHWAB_DATA_DIR`, `RESEARCH_DB_PATH`, `REVIEW_DB_PATH`,
`WATCHLIST_SYMBOLS` and `LEPTOS_SITE_ADDR` (default `127.0.0.1:3000`).
