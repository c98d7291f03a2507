//! Incremental aggregation engine for daily statistics: a persisted series
//! store keyed by (statistic, date), the update algorithm that decides what to
//! fetch and merges what was fetched, and the registry of statistics.

pub mod date;
pub mod series;
pub mod store;
pub mod engine;
pub mod laws;
pub mod registry;
pub mod charts;

pub use date::{Date, DateValue};
