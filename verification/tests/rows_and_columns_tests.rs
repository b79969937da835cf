use rows_and_columns::rows_and_columns_module::{
    analysis_cache_relative_path, build_application_directory_paths, csv_imports_relative_path,
    ApplicationDirectoryPaths, ANALYSIS_CACHE_SUBDIRECTORY_NAME, CSV_IMPORTS_SUBDIRECTORY_NAME,
    ROWS_COLUMNS_ROOT_DIRECTORY_NAME,
};

/// Test that the directory structure constants are reasonable
#[test]
fn test_directory_constants() {
    // Directory names should not be empty
    assert!(!ROWS_COLUMNS_ROOT_DIRECTORY_NAME.is_empty());
    assert!(!CSV_IMPORTS_SUBDIRECTORY_NAME.is_empty());
    assert!(!ANALYSIS_CACHE_SUBDIRECTORY_NAME.is_empty());

    // Directory names should not contain path separators
    assert!(!ROWS_COLUMNS_ROOT_DIRECTORY_NAME.contains('/'));
    assert!(!ROWS_COLUMNS_ROOT_DIRECTORY_NAME.contains('\\'));
    assert!(!CSV_IMPORTS_SUBDIRECTORY_NAME.contains('/'));
    assert!(!CSV_IMPORTS_SUBDIRECTORY_NAME.contains('\\'));
    assert!(!ANALYSIS_CACHE_SUBDIRECTORY_NAME.contains('/'));
    assert!(!ANALYSIS_CACHE_SUBDIRECTORY_NAME.contains('\\'));
}

/// Test the ApplicationDirectoryPaths structure
#[test]
fn test_application_directory_paths_structure() {
    // Create a test instance with dummy paths
    let test_paths = ApplicationDirectoryPaths {
        executable_parent_directory: String::from("/test/exe"),
        rows_columns_root_directory: String::from("/test/exe/rows_columns_data"),
        csv_imports_directory: String::from("/test/exe/rows_columns_data/csv_imports"),
        analysis_cache_directory: String::from("/test/exe/rows_columns_data/analysis_cache"),
    };

    // Verify the structure can be created and accessed
    assert!(test_paths.executable_parent_directory.contains("exe"));
    assert!(test_paths.rows_columns_root_directory.contains("rows_columns_data"));
    assert!(test_paths.csv_imports_directory.contains("csv_imports"));
    assert!(test_paths.analysis_cache_directory.contains("analysis_cache"));

    // Test that the structure can be cloned
    let cloned_paths = test_paths.clone();
    assert_eq!(
        test_paths.executable_parent_directory,
        cloned_paths.executable_parent_directory
    );
}

/// Test directory initialization logic (without actually creating directories)
#[test]
fn test_directory_path_construction() {
    // Test path construction logic
    let csv_imports_path = format!(
        "{}/{}",
        ROWS_COLUMNS_ROOT_DIRECTORY_NAME, CSV_IMPORTS_SUBDIRECTORY_NAME
    );

    let analysis_cache_path = format!(
        "{}/{}",
        ROWS_COLUMNS_ROOT_DIRECTORY_NAME, ANALYSIS_CACHE_SUBDIRECTORY_NAME
    );

    // Verify paths are constructed correctly
    assert_eq!(csv_imports_path, "rows_columns_data/csv_imports");
    assert_eq!(analysis_cache_path, "rows_columns_data/analysis_cache");
}

#[test]
fn test_relative_path_builders() {
    assert_eq!(csv_imports_relative_path(), "rows_columns_data/csv_imports");
    assert_eq!(
        analysis_cache_relative_path(),
        "rows_columns_data/analysis_cache"
    );
}

#[test]
fn test_build_application_directory_paths() {
    let exe_dir = String::from("/opt/tool");
    let paths = build_application_directory_paths(&exe_dir);
    assert_eq!(paths.executable_parent_directory, "/opt/tool");
    assert_eq!(paths.rows_columns_root_directory, "/opt/tool/rows_columns_data");
    assert_eq!(
        paths.csv_imports_directory,
        "/opt/tool/rows_columns_data/csv_imports"
    );
    assert_eq!(
        paths.analysis_cache_directory,
        "/opt/tool/rows_columns_data/analysis_cache"
    );
}
