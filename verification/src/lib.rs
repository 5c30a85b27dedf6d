//! A supervisor for a build-driver subprocess: a lock-free kill-state
//! machine for interrupting the child at most once, a classifier that
//! buckets the child's diagnostic records by severity, and a transform
//! that deduplicates, filters, orders and truncates those records and
//! extracts one source location per surviving message.
//!
//! Everything here is pure logic over plain values; spawning the child,
//! reading its output, timers and signal delivery live outside the
//! library and feed it events and records.

pub mod cargo_toml;
pub mod diagnostic;
pub mod editor;
pub mod flushing_writer;
pub mod messages;
pub mod models;
pub mod options;
pub mod parsed_args;
pub mod paths;
pub mod process;
pub mod text;
