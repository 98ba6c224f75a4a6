//! Memoizing caches over a single-argument callable, and the small programs
//! that exercise them.

pub mod cache_dynamic;
pub mod cache_non_dynamic;
pub mod capture_environment;
pub mod workout;
