//! Click analytics for a URL shortener: the per-code click counter and click
//! log, the store operations that record a click or repair drift between the
//! two, and the figures a statistics request reports.

pub mod analytics;
pub mod clicks;
pub mod decimal;
pub mod ledger;
pub mod links;
