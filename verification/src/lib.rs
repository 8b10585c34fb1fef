//! A library for staging synthetic filesystem footprints: it decides how many
//! files to create, at what sizes, at what directory depths and under what
//! names, so that the bytes written converge to a requested total.
//!
//! The crate holds the pure, verified core: the human-readable size parser,
//! the configuration binding with its `max < min` repair, the path and size
//! sampling, and the generation state machine. Filesystem writes, argument
//! ingestion and progress display live outside the library and drive it
//! through `Generator`.

pub mod config;
pub mod digits;
pub mod generator;
pub mod report;
pub mod rng;
pub mod size;
pub mod strutil;
