//! Error taxonomy of the analysis pipeline.
use vstd::prelude::*;

verus! {

/// What can go wrong while loading, extracting or coordinating pulse analysis.
///
/// Per-pulse failures (`FormatError`, `TooShortError`, `NumericError`,
/// `NotFoundError`) are tolerated by the batch runner: the pulse is dropped
/// and counted. Folder-level failures abort a run.
#[derive(Clone, Copy, PartialEq, Eq, Structural, Debug)]
pub enum TESErr {
    /// Malformed binary capture, CSV document or config document.
    FormatError,
    /// A file or folder is missing, or some content the caller promised is absent.
    IOError,
    /// The waveform is shorter than the configured analysis windows need.
    TooShortError,
    /// NaN inside a search window, or the mean of an empty window.
    NumericError,
    /// A threshold search crossed nothing; reported explicitly instead of a
    /// silent zero index.
    NotFoundError,
    /// A configuration field is out of its valid range.
    ConfigError,
    /// Worker-pool or lock failure while running a batch.
    CoordinationError,
}

} // verus!
