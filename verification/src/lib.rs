//! Tools for a personal diary of timestamped wellbeing observations.
//!
//! A database root holds binary day files under `data/<year>/<month>/`,
//! a tag dictionary in `tags.txt`, derived rollup caches per month and
//! year, and a single status file that makes maintenance operations
//! mutually exclusive and resumable after a crash.

pub mod averages;
pub mod cache_handling;
pub mod codec;
pub mod legacy;
pub mod resume;
pub mod status;
pub mod strnum;
pub mod tags;
pub mod walker;
