//! Orchestration logic for building every compiler nightly for every target:
//! nightly discovery, work selection, the lifecycle of each (nightly, mode)
//! pair, and idempotent completion tracking.

pub mod dates;
pub mod db;
pub mod executor;
pub mod nightlies;
mod text;
