//! Error values reported by the library.

use vstd::prelude::*;

verus! {

/// Errors raised while parsing or validating musical input.
///
/// Every variant carries plain values only; the command-line program wraps
/// this type with file and TOML errors of its own.
#[derive(Debug)]
pub enum LobachevskyError {
    /// A pitch name that is not one of the accepted spellings.
    InvalidPitch { input: String },
    /// A transformation name that is not P, R, L or one of the compounds.
    InvalidTransformation { input: String },
    /// A mode name that is not one of the seven diatonic modes.
    InvalidMode { input: String },
    /// A drum voice name that is not recognised.
    InvalidDrumVoice { voice: String },
    /// A rhythm style that has no genre template.
    UnknownRhythmStyle { style: String },
    /// Euclidean rhythm asked for more pulses than steps.
    EuclideanInputs { steps: usize, pulses: usize },
    /// Any other malformed input, with a message.
    ParseError { message: String },
    /// Terminal interface failure, with a message.
    TuiError { message: String },
}

} // verus!
