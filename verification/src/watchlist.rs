//! Watchlist briefings: configured symbol list and saved research briefings.
pub mod domain;
pub mod service;
