//! The three file paths a run works on, and the configuration error reported
//! when one is missing. Capturing them from the process arguments is the
//! caller's business; the library only carries the values.

use vstd::prelude::*;

verus! {

/// The paths of one run: the error file, the name file, and where the
/// combined report goes.
pub struct InputPaths {
    /// The error record file.
    pub error_file: String,
    /// The name record file.
    pub name_file: String,
    /// The output report file.
    pub output_file: String,
}

/// The configuration error: a required path argument is missing.
pub struct InputPathsError;

impl InputPathsError {
    /// The usage message shown for a missing argument.
    pub fn message(&self) -> (r: String)
        ensures
            r@ == "\nMissing required arguments\nUsage: <command> <error-file-path> <name-file-path> <output-file-path>\n"@,
    {
        String::from_str(
            "\nMissing required arguments\nUsage: <command> <error-file-path> <name-file-path> <output-file-path>\n",
        )
    }
}

} // verus!
