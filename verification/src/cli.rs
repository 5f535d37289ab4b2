use vstd::prelude::*;

verus! {

/// The command-line surface of the tool, as plain values.
#[derive(Debug, Clone)]
pub struct Cli {
    /// Source directory to flatten.
    pub source: String,
    /// Output directory for flattened files.
    pub output: String,
    /// Optional path to an external ignore file.
    pub ignore_file: Option<String>,
    /// Verbosity level (0 = info, 1 = debug, 2 and more = trace).
    pub verbose: u8,
}

} // verus!
