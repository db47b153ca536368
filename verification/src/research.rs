//! Company research: a fixed coverage registry, saved quarterly snapshots,
//! and decoding of the public source's response.
pub mod domain;
pub mod json;
pub mod service;
pub mod source;
