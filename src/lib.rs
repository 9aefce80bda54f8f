//! Orchestration logic for a multi-process search over equivalent expressions:
//! seed assignment, launch ordering, exit supervision, shared-state delivery,
//! run configuration and the removal of token-permutation duplicates.

pub mod text;
pub mod plan;
pub mod canon;
pub mod dedup;
pub mod supervise;
pub mod channel;
pub mod config;
pub mod report;
