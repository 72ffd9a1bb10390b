//! Lexical scanner for the Omega language.
//!
//! The scanner turns raw source text into a sequence of typed, positioned
//! tokens, reporting lexical defects as structured errors.  Scanning is
//! line-by-line: no Omega token spans a line boundary, and after any error
//! the scanner resumes from a clean state, so a single pass surfaces every
//! defect in the input.

pub mod error;
pub mod laws;
pub mod scanner;
pub mod token;
