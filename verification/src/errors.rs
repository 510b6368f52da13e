use vstd::prelude::*;

verus! {

/// Errors reported by the decoding pipeline.
///
/// Malformed or standard-incompatible frames are an expected occurrence in
/// captured wireless traffic, so every failure is reported as a recoverable
/// value rather than a panic.
#[derive(Clone, Copy, Debug, PartialEq, Eq, Structural)]
pub enum BfaExtractionError {
    /// The byte buffer holds fewer bits than the requested decode needs.
    InsufficientBitsize { required: usize, available: usize },
    /// A bitfield pattern entry is wider than the extraction window allows.
    InvalidBitfieldSize { given: u8, allowed: u8 },
    /// An enumerated header sub-field falls outside its defined range.
    InvalidHeaderField,
    /// A combination of header fields has no defined meaning in the standard.
    InvalidHeaderCombination,
}

} // verus!
