//! Listening analytics for a single artist's catalog: classification of play
//! events against a curated catalog, day and month aggregation, rankings,
//! badges, chart series, the now-playing matcher and its playback tracker.
//!
//! Times are Unix timestamps in seconds (UTC); ratios are integers in parts
//! per million (`stats::RATIO_ONE` is one).

pub mod models;
pub mod calendar;
pub mod catalog;
pub mod classify;
pub mod ranking;
pub mod period;
pub mod stats;
pub mod metrics;
pub mod charts;
pub mod dashboard;
pub mod insights;
pub mod playback;
pub mod throttle;
