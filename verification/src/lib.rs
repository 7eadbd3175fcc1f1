//! Core of a TCP port scanner: which ports to probe, how the work is cut into
//! batches, how progress is counted and reported, and how the findings are
//! put in order and rendered.

pub mod cli;
pub mod engine;
pub mod plan;
pub mod portset;
pub mod progress;
pub mod report;
