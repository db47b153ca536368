//! Durable background jobs: domain values and the lifecycle of a job record.
pub mod domain;
pub mod lifecycle;
pub mod runner;
