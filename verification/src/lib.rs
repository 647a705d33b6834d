//! Core engine of a continuous network-latency monitor.
//!
//! Probe producers observe one destination each and emit `Sample`s; a single
//! consumer appends them to a history, keeps the history sorted by timestamp,
//! partitions it into fixed-width clock-aligned buckets for display, derives
//! downtime intervals from the success/timeout signal, and renders both the
//! raw samples and the downtime intervals as log lines.

mod callbacks;
mod downtime;
mod graph;
mod history;
mod logfmt;
mod numtext;
mod observables;
mod stats;
mod timefmt;

pub use callbacks::Callback;
pub use callbacks::Callbacks;
pub use callbacks::NotifyCallback;
pub use downtime::DowntimeInterval;
pub use downtime::extract_downtime_intervals;
pub use graph::GraphData;
pub use graph::GraphUi;
pub use history::AppData;
pub use history::Sample;
pub use history::StatusReport;
pub use history::autosave_due;
pub use history::producer_should_stop;
pub use history::refresh_due;
pub use logfmt::format_downtime_line;
pub use logfmt::format_downtime_log;
pub use logfmt::format_sample_line;
pub use logfmt::format_samples_log;
pub use logfmt::parse_sample_line;
pub use numtext::parse_u16;
pub use observables::IObserver;
pub use observables::ISubject;
pub use observables::Subject;
pub use stats::Stats;
pub use timefmt::format_datetime;
