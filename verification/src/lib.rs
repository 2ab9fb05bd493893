//! A verified core for a `wc`-style counting utility.
//!
//! The library counts lines, words, bytes, characters and maximum display
//! width over byte streams, aggregates the results of several sources,
//! and renders the aligned output rows. All counting, aggregation and
//! formatting logic is specified and verified; reading files and standard
//! input is left to the (unverified) binary built on top of it.

pub mod config;
pub mod count;
pub mod counter;
pub mod printer;
pub mod laws;
pub mod source;
pub mod unicode;
pub mod widths;

pub use config::CountsConfig;
pub use count::FileCounts;
pub use counter::{CountedInput, Counter, CountsName, Error, InputAction};
pub use printer::{render_run, Printer, RunOutput};
pub use source::{parse_files0_list, parse_input, Input};
pub use widths::digits;
pub use widths::ColumnWidths;
