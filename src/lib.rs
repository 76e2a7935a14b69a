//! A temporary, identifier-addressed file store: a concurrent map from
//! identifiers to stored-file records, a reaper that evicts records once
//! their time to live has passed, and the time-to-live policy between them.
pub mod config;
pub mod ids;
pub mod ms;
pub mod reaper;
pub mod store;
