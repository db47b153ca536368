//! Verified core of a local-first investment workbench.
pub mod config;
pub mod decimal;
pub mod http;
pub mod jobs;
pub mod numtext;
pub mod pages;
pub mod portfolio;
pub mod research;
pub mod review;
pub mod sorted;
pub mod symbol;
pub mod text;
pub mod timestamp;
pub mod watchlist;

use vstd::prelude::*;

verus! {
} // verus!
