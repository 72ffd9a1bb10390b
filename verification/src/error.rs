//! Lexical errors reported by the Omega scanner.
//!
//! Every defect becomes one error item in the output sequence; the scanner
//! never aborts on malformed input.  Each error carries enough context to
//! render a precise diagnostic without reference to internal scanner state.

use vstd::prelude::*;

use crate::token::{Coord, CoordM};

verus! {

/// A lexical defect, positioned and with a human-readable rule context.
#[derive(Debug, PartialEq, Eq, PartialOrd, Ord)]
pub enum OmegaError {
    /// A character cannot legally start or continue a token in the current
    /// context; includes unmatched punctuation prefixes.
    InvalidCharacter { chr: char, coord: Coord, context: String },
    /// A token that requires an explicit terminator was still open when the
    /// line ended.
    UnexpectedLineEnd { coord: Coord, context: String },
}

/// Mathematical model of a lexical error.
pub enum ErrorM {
    InvalidCharacter { chr: char, coord: CoordM, context: Seq<char> },
    UnexpectedLineEnd { coord: CoordM, context: Seq<char> },
}

impl View for OmegaError {
    type V = ErrorM;

    open spec fn view(&self) -> ErrorM {
        match self {
            OmegaError::InvalidCharacter { chr, coord, context } => ErrorM::InvalidCharacter {
                chr: *chr,
                coord: coord@,
                context: context@,
            },
            OmegaError::UnexpectedLineEnd { coord, context } => ErrorM::UnexpectedLineEnd {
                coord: coord@,
                context: context@,
            },
        }
    }
}

} // verus!
