//! Application directory layout.
//!
//! The surrounding program keeps its persistent data in a directory tree
//! next to its executable: a root directory with one subdirectory for
//! imported files and one for cached analysis results.  The names and the
//! path construction are fixed here; creating and checking the directories
//! on disk is the program's own step.

use vstd::prelude::*;
use vstd::string::*;

verus! {

/// Name of the data root directory, placed next to the executable.
pub const ROWS_COLUMNS_ROOT_DIRECTORY_NAME: &'static str = "rows_columns_data";

/// Name of the subdirectory holding imported files.
pub const CSV_IMPORTS_SUBDIRECTORY_NAME: &'static str = "csv_imports";

/// Name of the subdirectory holding cached analysis results.
pub const ANALYSIS_CACHE_SUBDIRECTORY_NAME: &'static str = "analysis_cache";

/// The absolute paths of the application's directories.
#[derive(Debug, Clone)]
pub struct ApplicationDirectoryPaths {
    /// Path of the executable's parent directory.
    pub executable_parent_directory: String,
    /// Path of the data root directory.
    pub rows_columns_root_directory: String,
    /// Path of the subdirectory for imported files.
    pub csv_imports_directory: String,
    /// Path of the subdirectory for cached analysis results.
    pub analysis_cache_directory: String,
}

/// The root-relative path of the imports subdirectory.
pub fn csv_imports_relative_path() -> (r: String)
    ensures
        r@ == "rows_columns_data"@ + "/"@ + "csv_imports"@,
{
    let r = String::from_str(ROWS_COLUMNS_ROOT_DIRECTORY_NAME).concat("/").concat(
        CSV_IMPORTS_SUBDIRECTORY_NAME,
    );
    r
}

/// The root-relative path of the analysis cache subdirectory.
pub fn analysis_cache_relative_path() -> (r: String)
    ensures
        r@ == "rows_columns_data"@ + "/"@ + "analysis_cache"@,
{
    let r = String::from_str(ROWS_COLUMNS_ROOT_DIRECTORY_NAME).concat("/").concat(
        ANALYSIS_CACHE_SUBDIRECTORY_NAME,
    );
    r
}

/// Builds the directory paths that belong under the executable's parent
/// directory: the data root and its two subdirectories.
pub fn build_application_directory_paths(executable_parent_directory: &String) -> (r:
    ApplicationDirectoryPaths)
    ensures
        r.executable_parent_directory@ == executable_parent_directory@,
        r.rows_columns_root_directory@ == executable_parent_directory@ + "/"@
            + "rows_columns_data"@,
        r.csv_imports_directory@ == executable_parent_directory@ + "/"@ + "rows_columns_data"@
            + "/"@ + "csv_imports"@,
        r.analysis_cache_directory@ == executable_parent_directory@ + "/"@ + "rows_columns_data"@
            + "/"@ + "analysis_cache"@,
{
    let rows_columns_root_directory = executable_parent_directory.clone().concat("/").concat(
        ROWS_COLUMNS_ROOT_DIRECTORY_NAME,
    );
    let csv_imports_directory = rows_columns_root_directory.clone().concat("/").concat(
        CSV_IMPORTS_SUBDIRECTORY_NAME,
    );
    let analysis_cache_directory = rows_columns_root_directory.clone().concat("/").concat(
        ANALYSIS_CACHE_SUBDIRECTORY_NAME,
    );
    ApplicationDirectoryPaths {
        executable_parent_directory: executable_parent_directory.clone(),
        rows_columns_root_directory,
        csv_imports_directory,
        analysis_cache_directory,
    }
}

} // verus!
