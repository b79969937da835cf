use rows_and_columns::csv_processor_module::{
    analyze_csv_basic_structure, analyze_csv_column_types_and_content,
    analyze_csv_file_structure_and_types, build_metadata_toml_content, count_csv_columns_in_line,
    count_numeric_fields, detect_column_data_type, detect_csv_header_row,
    determine_metadata_file_path, is_boolean_value, parse_csv_line_into_fields,
    CsvColumnDataType, CsvColumnInformation,
};
use rows_and_columns::error_types_module::RowsAndColumnsError;

fn strings(values: &[&str]) -> Vec<String> {
    values.iter().map(|v| v.to_string()).collect()
}

#[test]
fn test_integer_majority_classifies_integer() {
    let samples = strings(&["1", "2", "3", "4", "5", "6", "7", "8", "9", "10"]);
    // threshold = (10 * 7) / 10 = 7; "1" votes boolean, the other nine integer
    assert_eq!(detect_column_data_type(&samples), CsvColumnDataType::Integer);
}

#[test]
fn test_mixed_sample_falls_back_to_string() {
    let samples = strings(&["1.5", "2", "3", "x", "y"]);
    // threshold = (5 * 7) / 10 = 3; no type reaches three votes
    assert_eq!(detect_column_data_type(&samples), CsvColumnDataType::String);
}

#[test]
fn test_empty_sample_classifies_string() {
    let samples: Vec<String> = Vec::new();
    assert_eq!(detect_column_data_type(&samples), CsvColumnDataType::String);
}

#[test]
fn test_single_sample_threshold_is_zero() {
    // with one sample the threshold is (1 * 7) / 10 = 0, which every vote
    // count reaches, so the first type in priority order wins
    let samples = strings(&["hello"]);
    assert_eq!(detect_column_data_type(&samples), CsvColumnDataType::Boolean);
}

#[test]
fn test_boolean_tokens_classify_boolean() {
    let samples = strings(&["true", "NO", " yes ", "f", "0"]);
    assert_eq!(detect_column_data_type(&samples), CsvColumnDataType::Boolean);
}

#[test]
fn test_float_majority_classifies_float() {
    let samples = strings(&["1.5", "2.25", "-0.75", "3e2", "nan"]);
    assert_eq!(detect_column_data_type(&samples), CsvColumnDataType::Float);
}

#[test]
fn test_toml_tag_round_trip() {
    let variants = [
        CsvColumnDataType::Boolean,
        CsvColumnDataType::Integer,
        CsvColumnDataType::Float,
        CsvColumnDataType::String,
    ];
    for variant in variants {
        let tag = variant.to_toml_string().to_string();
        assert_eq!(CsvColumnDataType::from_toml_string(&tag), Some(variant));
    }
}

#[test]
fn test_to_toml_string_tags() {
    assert_eq!(CsvColumnDataType::Boolean.to_toml_string(), "boolean");
    assert_eq!(CsvColumnDataType::Integer.to_toml_string(), "integer");
    assert_eq!(CsvColumnDataType::Float.to_toml_string(), "float");
    assert_eq!(CsvColumnDataType::String.to_toml_string(), "string");
}

#[test]
fn test_from_toml_string_synonyms_and_case() {
    assert_eq!(
        CsvColumnDataType::from_toml_string("bool"),
        Some(CsvColumnDataType::Boolean)
    );
    assert_eq!(
        CsvColumnDataType::from_toml_string("int"),
        Some(CsvColumnDataType::Integer)
    );
    assert_eq!(
        CsvColumnDataType::from_toml_string("decimal"),
        Some(CsvColumnDataType::Float)
    );
    assert_eq!(
        CsvColumnDataType::from_toml_string("number"),
        Some(CsvColumnDataType::Float)
    );
    assert_eq!(
        CsvColumnDataType::from_toml_string("text"),
        Some(CsvColumnDataType::String)
    );
    assert_eq!(
        CsvColumnDataType::from_toml_string("str"),
        Some(CsvColumnDataType::String)
    );
    assert_eq!(
        CsvColumnDataType::from_toml_string("BOOLEAN"),
        Some(CsvColumnDataType::Boolean)
    );
    assert_eq!(
        CsvColumnDataType::from_toml_string("Integer"),
        Some(CsvColumnDataType::Integer)
    );
    assert_eq!(CsvColumnDataType::from_toml_string("daturday"), None);
    assert_eq!(CsvColumnDataType::from_toml_string(""), None);
}

#[test]
fn test_is_boolean_value_tokens() {
    for token in ["true", "false", "yes", "no", "1", "0", "t", "f", "y", "n"] {
        assert!(is_boolean_value(token));
    }
    assert!(!is_boolean_value("TRUE")); // expects already lowercased input
    assert!(!is_boolean_value("maybe"));
    assert!(!is_boolean_value(""));
}

#[test]
fn test_parse_csv_line_into_fields() {
    assert_eq!(parse_csv_line_into_fields("a,b,c"), vec!["a", "b", "c"]);
    assert_eq!(parse_csv_line_into_fields(""), vec![""]);
    assert_eq!(parse_csv_line_into_fields("a,,b"), vec!["a", "", "b"]);
    assert_eq!(parse_csv_line_into_fields(",x,"), vec!["", "x", ""]);
    assert_eq!(parse_csv_line_into_fields(" a , b "), vec![" a ", " b "]);
}

#[test]
fn test_count_csv_columns_in_line() {
    assert_eq!(count_csv_columns_in_line("x"), 1);
    assert_eq!(count_csv_columns_in_line("x,y"), 2);
    assert_eq!(count_csv_columns_in_line(",,,"), 4);
}

#[test]
fn test_count_numeric_fields() {
    let fields = strings(&[
        "1e5", "inf", "NaN", " 42 ", "9223372036854775808", "abc", "1.", "-", "+5", ".5", "--3",
    ]);
    assert_eq!(count_numeric_fields(&fields), 8);
}

#[test]
fn test_count_numeric_fields_integer_bounds() {
    // the largest and smallest 64-bit integers still parse as integers;
    // one past them parses only as a float and still counts as numeric
    let fields = strings(&[
        "9223372036854775807",
        "-9223372036854775808",
        "-9223372036854775809",
        "007",
        "+",
        "",
    ]);
    assert_eq!(count_numeric_fields(&fields), 4);
}

#[test]
fn test_detect_csv_header_row() {
    assert!(detect_csv_header_row("name,age", "alice,30"));
    assert!(!detect_csv_header_row("1,2", "3,4"));
    assert!(!detect_csv_header_row("a,b", "c,d"));
    assert!(!detect_csv_header_row("1,b", "c,2"));
}

#[test]
fn test_basic_structure_with_header() {
    let lines = strings(&["name,age", "alice,30", "bob,41"]);
    let (has_header, column_count, data_rows) = analyze_csv_basic_structure(&lines).unwrap();
    assert!(has_header);
    assert_eq!(column_count, 2);
    assert_eq!(data_rows, 2);
}

#[test]
fn test_basic_structure_without_header() {
    let lines = strings(&["1,2,3", "4,5,6"]);
    let (has_header, column_count, data_rows) = analyze_csv_basic_structure(&lines).unwrap();
    assert!(!has_header);
    assert_eq!(column_count, 3);
    assert_eq!(data_rows, 2);
}

#[test]
fn test_single_line_is_data_not_header() {
    let lines = strings(&["alpha,beta,gamma"]);
    let (has_header, column_count, data_rows) = analyze_csv_basic_structure(&lines).unwrap();
    assert!(!has_header);
    assert_eq!(column_count, 3);
    assert_eq!(data_rows, 1);
}

#[test]
fn test_column_count_equals_commas_plus_one() {
    let lines = strings(&["a,b,,d,e", "1,2,3,4,5"]);
    let first = &lines[0];
    let commas = first.chars().filter(|c| *c == ',').count();
    let (_, column_count, _) = analyze_csv_basic_structure(&lines).unwrap();
    assert_eq!(column_count, commas + 1);
}

#[test]
fn test_empty_file_is_processing_error() {
    let lines: Vec<String> = Vec::new();
    let result = analyze_csv_basic_structure(&lines);
    match result {
        Err(RowsAndColumnsError::CsvProcessingError {
            line_number,
            column_index,
            ..
        }) => {
            assert_eq!(line_number, Some(1));
            assert_eq!(column_index, None);
        }
        _ => panic!("expected a processing error for an empty file"),
    }
}

#[test]
fn test_missing_header_line_is_processing_error() {
    let lines: Vec<String> = Vec::new();
    let result = analyze_csv_column_types_and_content(&lines, true, 2);
    assert!(matches!(
        result,
        Err(RowsAndColumnsError::CsvProcessingError { .. })
    ));
}

#[test]
fn test_column_records_with_header() {
    let lines = strings(&["name,score", "alice,10", "bob,", " carol ,30"]);
    let columns = analyze_csv_column_types_and_content(&lines, true, 2).unwrap();
    assert_eq!(columns.len(), 2);

    assert_eq!(columns[0].column_index, 0);
    assert_eq!(columns[0].column_name, "name");
    assert_eq!(columns[0].non_empty_value_count, 3);
    assert_eq!(columns[0].empty_value_count, 0);
    assert_eq!(columns[0].sample_values, vec!["alice", "bob", "carol"]);

    assert_eq!(columns[1].column_index, 1);
    assert_eq!(columns[1].column_name, "score");
    assert_eq!(columns[1].non_empty_value_count, 2);
    assert_eq!(columns[1].empty_value_count, 1);
    assert_eq!(columns[1].sample_values, vec!["10", "30"]);
    // threshold = (2 * 7) / 10 = 1 and both values parse as integers
    assert_eq!(columns[1].detected_data_type, CsvColumnDataType::Integer);
}

#[test]
fn test_generated_column_names() {
    let lines = strings(&["5,6", "7,8"]);
    let columns = analyze_csv_column_types_and_content(&lines, false, 2).unwrap();
    assert_eq!(columns[0].column_name, "column_1");
    assert_eq!(columns[1].column_name, "column_2");
}

#[test]
fn test_short_rows_count_nothing_for_missing_columns() {
    let lines = strings(&["1", "", "2"]);
    let columns = analyze_csv_column_types_and_content(&lines, false, 2).unwrap();
    assert_eq!(columns[0].non_empty_value_count, 2);
    assert_eq!(columns[0].empty_value_count, 1);
    assert_eq!(columns[0].sample_values, vec!["1", "2"]);
    // the one-field rows supply nothing at all for the second column
    assert_eq!(columns[1].non_empty_value_count, 0);
    assert_eq!(columns[1].empty_value_count, 0);
    assert!(columns[1].sample_values.is_empty());
    assert_eq!(columns[1].detected_data_type, CsvColumnDataType::String);
}

#[test]
fn test_extra_fields_are_ignored() {
    let lines = strings(&["a,b,c,d"]);
    let columns = analyze_csv_column_types_and_content(&lines, false, 2).unwrap();
    assert_eq!(columns.len(), 2);
    assert_eq!(columns[0].sample_values, vec!["a"]);
    assert_eq!(columns[1].sample_values, vec!["b"]);
}

#[test]
fn test_sample_window_and_value_caps() {
    let mut rows: Vec<String> = Vec::new();
    for i in 0..25 {
        rows.push(format!("v{}", i));
    }
    let columns = analyze_csv_column_types_and_content(&rows, false, 1).unwrap();
    // only the first ten rows are inspected, and only five values kept
    assert_eq!(
        columns[0].non_empty_value_count + columns[0].empty_value_count,
        10
    );
    assert_eq!(columns[0].sample_values.len(), 5);
    assert_eq!(
        columns[0].sample_values,
        vec!["v0", "v1", "v2", "v3", "v4"]
    );
}

#[test]
fn test_metadata_path_derivation() {
    let ok = |p: &str| determine_metadata_file_path(&p.to_string()).unwrap();
    assert_eq!(ok("/a/b.csv"), "/a/b.csv_metadata.toml");
    assert_eq!(ok("noext"), "noext.csv_metadata.toml");
    assert_eq!(ok("/a/b.tar.gz"), "/a/b.tar.csv_metadata.toml");
    assert_eq!(ok(".hidden"), ".hidden.csv_metadata.toml");
    assert_eq!(ok("/data/report."), "/data/report.csv_metadata.toml");
}

#[test]
fn test_metadata_path_configuration_errors() {
    for bad in ["/", "", "a/..", "b/.", "x/"] {
        let result = determine_metadata_file_path(&bad.to_string());
        assert!(
            matches!(result, Err(RowsAndColumnsError::ConfigurationError { .. })),
            "expected a configuration error for {:?}",
            bad
        );
    }
}

#[test]
fn test_metadata_content_exact() {
    let columns = vec![
        CsvColumnInformation {
            column_index: 0,
            column_name: String::from("name"),
            detected_data_type: CsvColumnDataType::String,
            non_empty_value_count: 3,
            empty_value_count: 0,
            sample_values: strings(&["alice", "bob", "carol"]),
        },
        CsvColumnInformation {
            column_index: 1,
            column_name: String::from("score"),
            detected_data_type: CsvColumnDataType::Integer,
            non_empty_value_count: 2,
            empty_value_count: 1,
            sample_values: strings(&["10", "30"]),
        },
    ];
    let content = build_metadata_toml_content(&columns);
    let expected = "# CSV Metadata File\n\
                    # Generated by rows_and_columns\n\
                    \n\
                    total_columns = 2\n\
                    \n\
                    [column_1]\n\
                    name = \"name\"\n\
                    data_type = \"string\"\n\
                    column_index = 0\n\
                    non_empty_values = 3\n\
                    empty_values = 0\n\
                    \n\
                    [column_2]\n\
                    name = \"score\"\n\
                    data_type = \"integer\"\n\
                    column_index = 1\n\
                    non_empty_values = 2\n\
                    empty_values = 1\n\
                    \n";
    assert_eq!(content, expected);
}

#[test]
fn test_metadata_content_empty_list() {
    let columns: Vec<CsvColumnInformation> = Vec::new();
    let content = build_metadata_toml_content(&columns);
    assert_eq!(
        content,
        "# CSV Metadata File\n# Generated by rows_and_columns\n\ntotal_columns = 0\n\n"
    );
}

#[test]
fn test_full_analysis_assembles_results() {
    let lines = strings(&["name,age", "alice,30", "bob,41"]);
    let path = String::from("/data/people.csv");
    let results = analyze_csv_file_structure_and_types(&lines, &path, false).unwrap();
    assert_eq!(results.csv_file_path, "/data/people.csv");
    assert!(results.has_header_row);
    assert_eq!(results.total_column_count, 2);
    assert_eq!(results.total_data_row_count, 2);
    assert_eq!(results.column_information_list.len(), 2);
    assert_eq!(results.metadata_file_path, "/data/people.csv_metadata.toml");
    assert!(!results.metadata_file_already_existed);
}

#[test]
fn test_full_analysis_twice_is_byte_identical() {
    let lines = strings(&["city,count", "lund,3", "turku,", "oslo,12"]);
    let path = String::from("/tmp/cities.csv");
    let first = analyze_csv_file_structure_and_types(&lines, &path, false).unwrap();
    let second = analyze_csv_file_structure_and_types(&lines, &path, true).unwrap();
    let first_content = build_metadata_toml_content(&first.column_information_list);
    let second_content = build_metadata_toml_content(&second.column_information_list);
    assert_eq!(first_content, second_content);
    // only the pre-existence flag differs between the two runs
    assert!(!first.metadata_file_already_existed);
    assert!(second.metadata_file_already_existed);
}

#[test]
fn test_full_analysis_empty_file_fails_before_metadata() {
    let lines: Vec<String> = Vec::new();
    let path = String::from("/data/empty.csv");
    let result = analyze_csv_file_structure_and_types(&lines, &path, false);
    match result {
        Err(RowsAndColumnsError::CsvProcessingError { line_number, .. }) => {
            assert_eq!(line_number, Some(1));
        }
        _ => panic!("expected a processing error for an empty file"),
    }
}

#[test]
fn test_full_analysis_bad_path_is_configuration_error() {
    let lines = strings(&["a,b"]);
    let path = String::from("/");
    let result = analyze_csv_file_structure_and_types(&lines, &path, false);
    assert!(matches!(
        result,
        Err(RowsAndColumnsError::ConfigurationError { .. })
    ));
}
