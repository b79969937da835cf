//! Typed failures raised by the analysis.
//!
//! Three kinds of failure can abort a run: an input/output failure carrying
//! its underlying cause, a structural anomaly in the file being analyzed
//! (optionally located by line and column), and a path or configuration
//! whose shape the analysis cannot use.  Metadata handling has a kind of its
//! own.  No failure is retried; every one is surfaced to the caller.

use vstd::prelude::*;
use vstd::string::*;

verus! {

/// A typed failure raised by the analysis.
#[derive(Debug, Clone, PartialEq)]
pub enum RowsAndColumnsError {
    /// An input/output failure, with the failing operation and its cause.
    FileSystemError { message: String, cause: String },
    /// A structural anomaly in the file being analyzed.
    CsvProcessingError { message: String, line_number: Option<usize>, column_index: Option<usize> },
    /// A failure while handling the metadata record.
    MetadataError { message: String },
    /// A path or setup whose shape the analysis cannot use.
    ConfigurationError { message: String },
}

/// The result type of every fallible operation of this crate.
pub type RowsAndColumnsResult<T> = Result<T, RowsAndColumnsError>;

/// Builds a file-system failure from an operation description and its cause.
pub fn create_file_system_error(message: &str, cause: &str) -> (r: RowsAndColumnsError)
    ensures
        r matches RowsAndColumnsError::FileSystemError { message: m, cause: c } && m@ == message@
            && c@ == cause@,
{
    RowsAndColumnsError::FileSystemError {
        message: String::from_str(message),
        cause: String::from_str(cause),
    }
}

/// Builds a structural-anomaly failure, optionally located by line and column.
pub fn create_csv_processing_error(
    message: &str,
    line_number: Option<usize>,
    column_index: Option<usize>,
) -> (r: RowsAndColumnsError)
    ensures
        r matches RowsAndColumnsError::CsvProcessingError {
            message: m,
            line_number: l,
            column_index: c,
        } && m@ == message@ && l == line_number && c == column_index,
{
    RowsAndColumnsError::CsvProcessingError {
        message: String::from_str(message),
        line_number,
        column_index,
    }
}

/// Builds a metadata-handling failure.
pub fn create_metadata_error(message: &str) -> (r: RowsAndColumnsError)
    ensures
        r matches RowsAndColumnsError::MetadataError { message: m } && m@ == message@,
{
    RowsAndColumnsError::MetadataError { message: String::from_str(message) }
}

/// Builds a configuration failure.
pub fn create_configuration_error(message: &str) -> (r: RowsAndColumnsError)
    ensures
        r matches RowsAndColumnsError::ConfigurationError { message: m } && m@ == message@,
{
    RowsAndColumnsError::ConfigurationError { message: String::from_str(message) }
}

} // verus!
