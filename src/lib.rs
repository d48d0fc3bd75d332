//! Memory-profiling protocol: report data model, the registry of reporters,
//! and the per-pass tracker that keeps shared allocations from being counted twice.

pub mod pass;
pub mod registration;
pub mod registry;
pub mod report;
pub mod seen;
pub mod sender;
