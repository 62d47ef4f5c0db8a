//! The exit codes of the command line tool.
use vstd::prelude::*;

verus! {

/// A merge that finished without conflicts.
pub const SUCCESS_WITHOUT_CONFLICTS: i32 = 0;

/// A merge that finished with conflicts in the merged file.
pub const SUCCESS_WITH_CONFLICTS: i32 = 1;

/// A comparison of two files that match perfectly.
pub const SUCCESS_FILES_FULLY_MATCH: i32 = 0;

/// A comparison of two files that do not match perfectly.
pub const SUCCESS_FILES_DO_NOT_FULLY_MATCH: i32 = 1;

/// An input file could not be read.
pub const READING_FILE_ERROR: i32 = 129;

/// The merged file could not be written.
pub const WRITING_FILE_ERROR: i32 = 130;

/// The language is unknown or could not be inferred.
pub const INVALID_LANGUAGE_ERROR: i32 = 131;

/// Parsing, matching or merging failed.
pub const INTERNAL_EXECUTION_ERROR: i32 = 132;

} // verus!
