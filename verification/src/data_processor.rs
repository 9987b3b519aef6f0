//! The shared data-path holder and the per-tab analysis interface.
use vstd::prelude::*;

verus! {

/// Holds the folder a processor works in. Checking that the folder exists is
/// the caller's job, done where the path is read from the user.
#[derive(Debug)]
pub struct DataProcessorS {
    /// The folder all loads and saves are relative to.
    pub DataPath: String,
}

/// What every per-tab processor offers: analyzing the folder it was pointed
/// at. Implementations live with their I/O, outside this library.
pub trait DataProcessorT {
    /// Analyzes the processor's folder.
    fn AnalyzeFolder(&mut self) -> Result<(), String>;
}

impl DataProcessorS {
    /// A processor with no folder yet.
    pub fn new() -> (r: Self)
        ensures
            r.DataPath@.len() == 0,
    {
        Self { DataPath: String::new() }
    }

    /// Points the processor at a folder.
    pub fn SetDataPath(&mut self, path: String)
        ensures
            final(self).DataPath@ == path@,
    {
        self.DataPath = path;
    }
}

} // verus!
