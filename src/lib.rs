//! A cross-language benchmark engine: discovery of benchmark directories,
//! per-language build dispatch, timed execution and statistical reduction.
//!
//! Every timing is a whole number of nanoseconds.

pub mod dispatch;
pub mod discovery;
pub mod measure;
pub mod report;
pub mod stats;
