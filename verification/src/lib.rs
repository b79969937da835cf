//! Structural and type analysis for comma-delimited text files.
//!
//! The crate scans the lines of a delimited file, determines column count,
//! header presence and data-row count, classifies each column's data type
//! from a bounded sample of rows, and renders the findings as a sidecar
//! metadata record.  All decision logic is verified; reading the source
//! file and writing the metadata record are left to the calling program.

pub mod csv_processor_module;
pub mod decimal_text;
pub mod error_types_module;
pub mod line_fields;
pub mod numeric_text;
pub mod rows_and_columns_module;
