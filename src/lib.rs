//! Severity classification of pipe-delimited log lines
//! (`<timestamp>|<level>|<service>|<message>`) and per-severity line counts.

/// Characters of a string, and trimming whitespace.
pub mod text;
/// The classifier of one line.
pub mod parser;
/// Counting the lines of a log by severity.
pub mod tally;
