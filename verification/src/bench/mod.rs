//! Measuring what routing buys: command-line flags, what a command is asked to
//! do, percentiles and recall, and the text of a synthetic corpus.

pub mod args;
pub mod metrics;
pub mod run;
pub mod synth;
