//! A cache-backed, cancellable directory-size scan engine.
//!
//! The engine computes recursive directory sizes for a file-browser front end.
//! All decisions — key derivation, filtering, cache and job bookkeeping,
//! throttled progress emission, and final aggregation — are verified here as
//! pure state transitions; a thin driver performs the filesystem reads and
//! hands their results in as plain values.

pub mod cache;
pub mod jobs;
pub mod keys;
pub mod limiter;
pub mod listing;
pub mod scan;
pub mod strutil;
pub mod sums;
pub mod types;
pub mod walker;
