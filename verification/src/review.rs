//! Saved portfolio reviews: copied inputs, deterministic facts, independent storage.
pub mod calculations;
pub mod domain;
pub mod exact_sums;
pub mod reorder;
pub mod service;
