//! A rule-driven line matcher: named files of regular-expression fragments
//! are compiled into one alternation pattern, and input lines are rendered
//! according to output-mode flags.
//!
//! The library holds the rule locator, the rule compiler, the line printer,
//! and the decision half of the stream processor. Reading files, expanding
//! filename patterns, and running the regex engine are the embedding
//! program's work; their answers are handed in as plain values, and
//! everything decided from those values is specified and verified here.

mod errors;
pub mod filenames;
pub mod logging;
pub mod process;
pub mod rules;
pub mod text;

pub use errors::Error;
