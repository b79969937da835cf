//! Structure and type analysis for comma-delimited files.
//!
//! The file's lines are handed in as plain strings; everything computed from
//! them is verified.  The first line fixes the column count.  Header presence
//! is inferred by comparing how many fields of the first and of the second
//! line look numeric.  Column types are classified from a bounded sample of
//! data rows by majority vote with a fixed priority order, and the findings
//! are rendered as the text of a sidecar metadata record.

use crate::decimal_text::{dec_str, usize_to_dec_string};
use crate::error_types_module::{
    create_csv_processing_error, RowsAndColumnsError, RowsAndColumnsResult,
};
use crate::line_fields::{
    count_of, eq_ignore_case, fields_of, last_index_of, lemma_fields_of_len,
    lemma_fields_of_no_comma, lemma_fields_of_split_at, lemma_last_index_of, lower_seq,
    str_eq_str, trim_of, trim_seq,
};
use crate::numeric_text::{
    is_float_literal, is_integer_literal, is_numeric_literal, is_numeric_text,
    lemma_parses_as_f64_lower, lemma_parses_as_i64_lower, parses_as_f64, parses_as_i64,
};
use vstd::prelude::*;
use vstd::string::*;

verus! {

/// How many data rows at most are inspected when classifying column types.
pub const CSV_SAMPLE_ROWS_FOR_TYPE_DETECTION: usize = 10;

/// How many sample values at most are kept per column.
pub const CSV_SAMPLE_VALUES_PER_COLUMN: usize = 5;

/// The data type detected for a column.
///
/// `String` is the universal fallback for anything not clearly typed.
#[derive(Debug, Clone, PartialEq)]
pub enum CsvColumnDataType {
    /// Boolean values (true/false, yes/no, 1/0).
    Boolean,
    /// Integer values (whole numbers).
    Integer,
    /// Floating point values (decimal numbers).
    Float,
    /// String/text values.
    String,
}

/// The canonical lowercase tag of a data type, as persisted in metadata.
pub open spec fn toml_tag_text(t: CsvColumnDataType) -> Seq<char> {
    match t {
        CsvColumnDataType::Boolean => "boolean"@,
        CsvColumnDataType::Integer => "integer"@,
        CsvColumnDataType::Float => "float"@,
        CsvColumnDataType::String => "string"@,
    }
}

/// The data type named by a tag, letter case ignored, with synonyms
/// accepted; unrecognized text names no data type.
pub open spec fn data_type_of_tag(s: Seq<char>) -> Option<CsvColumnDataType> {
    let l = lower_seq(s);
    if l == "boolean"@ || l == "bool"@ {
        Some(CsvColumnDataType::Boolean)
    } else if l == "integer"@ || l == "int"@ {
        Some(CsvColumnDataType::Integer)
    } else if l == "float"@ || l == "decimal"@ || l == "number"@ {
        Some(CsvColumnDataType::Float)
    } else if l == "string"@ || l == "text"@ || l == "str"@ {
        Some(CsvColumnDataType::String)
    } else {
        None
    }
}

impl CsvColumnDataType {
    /// The canonical tag used for this data type in the metadata record.
    pub fn to_toml_string(&self) -> (r: &str)
        ensures
            r@ == toml_tag_text(*self),
    {
        match self {
            CsvColumnDataType::Boolean => "boolean",
            CsvColumnDataType::Integer => "integer",
            CsvColumnDataType::Float => "float",
            CsvColumnDataType::String => "string",
        }
    }

    /// The data type named by a tag, or nothing for unrecognized text.
    pub fn from_toml_string(toml_string: &str) -> (r: Option<CsvColumnDataType>)
        ensures
            r == data_type_of_tag(toml_string@),
    {
        proof {
            reveal_strlit("boolean");
            reveal_strlit("bool");
            reveal_strlit("integer");
            reveal_strlit("int");
            reveal_strlit("float");
            reveal_strlit("decimal");
            reveal_strlit("number");
            reveal_strlit("string");
            reveal_strlit("text");
            reveal_strlit("str");
            assert(lower_seq("boolean"@) =~= "boolean"@);
            assert(lower_seq("bool"@) =~= "bool"@);
            assert(lower_seq("integer"@) =~= "integer"@);
            assert(lower_seq("int"@) =~= "int"@);
            assert(lower_seq("float"@) =~= "float"@);
            assert(lower_seq("decimal"@) =~= "decimal"@);
            assert(lower_seq("number"@) =~= "number"@);
            assert(lower_seq("string"@) =~= "string"@);
            assert(lower_seq("text"@) =~= "text"@);
            assert(lower_seq("str"@) =~= "str"@);
        }
        if eq_ignore_case(toml_string, "boolean") || eq_ignore_case(toml_string, "bool") {
            Some(CsvColumnDataType::Boolean)
        } else if eq_ignore_case(toml_string, "integer") || eq_ignore_case(toml_string, "int") {
            Some(CsvColumnDataType::Integer)
        } else if eq_ignore_case(toml_string, "float") || eq_ignore_case(toml_string, "decimal")
            || eq_ignore_case(toml_string, "number") {
            Some(CsvColumnDataType::Float)
        } else if eq_ignore_case(toml_string, "string") || eq_ignore_case(toml_string, "text")
            || eq_ignore_case(toml_string, "str") {
            Some(CsvColumnDataType::String)
        } else {
            None
        }
    }
}

/// Reading a data type back from its own canonical tag returns the same
/// data type, for every variant.
pub proof fn lemma_toml_tag_round_trip(t: CsvColumnDataType)
    ensures
        data_type_of_tag(toml_tag_text(t)) == Some(t),
{
    reveal_strlit("boolean");
    reveal_strlit("bool");
    reveal_strlit("integer");
    reveal_strlit("int");
    reveal_strlit("float");
    reveal_strlit("decimal");
    reveal_strlit("number");
    reveal_strlit("string");
    reveal_strlit("text");
    reveal_strlit("str");
    assert(lower_seq("boolean"@) =~= "boolean"@);
    assert(lower_seq("integer"@) =~= "integer"@);
    assert(lower_seq("float"@) =~= "float"@);
    assert(lower_seq("string"@) =~= "string"@);
    assert("integer"@ != "boolean"@) by {
        assert("integer"@[0] == 'i');
        assert("boolean"@[0] == 'b');
    }
    assert("string"@ != "number"@) by {
        assert("string"@[0] == 's');
        assert("number"@[0] == 'n');
    }
}

/// Information about one detected column.
#[derive(Debug, Clone)]
pub struct CsvColumnInformation {
    /// Index of the column (0-based).
    pub column_index: usize,
    /// Name of the column, from the header or generated.
    pub column_name: String,
    /// Detected data type for this column.
    pub detected_data_type: CsvColumnDataType,
    /// Number of non-empty values found in the sampled rows.
    pub non_empty_value_count: usize,
    /// Number of empty values found in the sampled rows.
    pub empty_value_count: usize,
    /// Up to five sample values from this column, in row order.
    pub sample_values: Vec<String>,
}

/// Complete analysis results for one file.
#[derive(Debug)]
pub struct CsvAnalysisResults {
    /// Path to the analyzed file, as handed in by the caller.
    pub csv_file_path: String,
    /// Whether the file's first line was taken to be a header row.
    pub has_header_row: bool,
    /// Number of columns, fixed by the first line.
    pub total_column_count: usize,
    /// Number of data rows (the header, when present, is not counted).
    pub total_data_row_count: usize,
    /// Information about each column, in column order.
    pub column_information_list: Vec<CsvColumnInformation>,
    /// Path of the sidecar metadata record derived from the file's path.
    pub metadata_file_path: String,
    /// Whether a metadata record already existed before this run.
    pub metadata_file_already_existed: bool,
}

/// The literal tokens counted as boolean values (in lowercase).
pub open spec fn is_boolean_token(s: Seq<char>) -> bool {
    s == "true"@ || s == "false"@ || s == "yes"@ || s == "no"@ || s == "1"@ || s == "0"@ || s
        == "t"@ || s == "f"@ || s == "y"@ || s == "n"@
}

/// Whether an already trimmed and lowercased value is a boolean token.
pub fn is_boolean_value(value: &str) -> (r: bool)
    ensures
        r == is_boolean_token(value@),
{
    str_eq_str(value, "true") || str_eq_str(value, "false") || str_eq_str(value, "yes")
        || str_eq_str(value, "no") || str_eq_str(value, "1") || str_eq_str(value, "0")
        || str_eq_str(value, "t") || str_eq_str(value, "f") || str_eq_str(value, "y")
        || str_eq_str(value, "n")
}

/// Splits a line into its comma-separated field values.
pub fn parse_csv_line_into_fields(csv_line: &str) -> (r: Vec<String>)
    ensures
        r.deep_view() == fields_of(csv_line@),
{
    let n = csv_line.unicode_len();
    let mut fields: Vec<String> = Vec::new();
    let mut start: usize = 0;
    let mut j: usize = 0;
    proof {
        assert(csv_line@.subrange(0, n as int) =~= csv_line@);
        assert(fields.deep_view() + fields_of(csv_line@) =~= fields_of(csv_line@));
    }
    while j < n
        invariant
            0 <= start <= j <= n,
            n == csv_line@.len(),
            forall|k: int| start <= k < j ==> csv_line@[k] != ',',
            fields_of(csv_line@) == fields.deep_view() + fields_of(
                csv_line@.subrange(start as int, n as int),
            ),
        decreases n - j,
    {
        if csv_line.get_char(j) == ',' {
            let piece = csv_line.substring_char(start, j);
            proof {
                let tail = csv_line@.subrange(start as int, n as int);
                assert(tail[j - start] == ',');
                assert forall|k: int| 0 <= k < j - start implies tail[k] != ',' by {
                    assert(tail[k] == csv_line@[k + start]);
                }
                lemma_fields_of_split_at(tail, j - start);
                assert(tail.subrange(0, j - start) =~= csv_line@.subrange(start as int, j as int));
                assert(tail.subrange(j - start + 1, tail.len() as int) =~= csv_line@.subrange(
                    j as int + 1,
                    n as int,
                ));
            }
            let ghost old_fields = fields.deep_view();
            fields.push(piece.to_owned());
            proof {
                assert(fields.deep_view() =~= old_fields.push(piece@));
                assert(fields.deep_view() + fields_of(
                    csv_line@.subrange(j as int + 1, n as int),
                ) =~= old_fields + (seq![piece@] + fields_of(
                    csv_line@.subrange(j as int + 1, n as int),
                )));
            }
            start = j + 1;
        }
        j = j + 1;
    }
    let piece = csv_line.substring_char(start, n);
    proof {
        let tail = csv_line@.subrange(start as int, n as int);
        assert forall|k: int| 0 <= k < tail.len() implies tail[k] != ',' by {
            assert(tail[k] == csv_line@[k + start]);
        }
        lemma_fields_of_no_comma(tail);
    }
    let ghost old_fields = fields.deep_view();
    fields.push(piece.to_owned());
    proof {
        assert(fields.deep_view() =~= old_fields.push(piece@));
        assert(fields.deep_view() =~= fields_of(csv_line@));
    }
    fields
}

/// Counts the columns of a line: one more than its commas.
pub fn count_csv_columns_in_line(csv_line: &str) -> (r: usize)
    ensures
        r == fields_of(csv_line@).len(),
{
    let fields = parse_csv_line_into_fields(csv_line);
    fields.len()
}

/// How many of the given field values look numeric once trimmed.
pub open spec fn numeric_field_count(fs: Seq<Seq<char>>) -> nat
    decreases fs.len(),
{
    if fs.len() == 0 {
        0
    } else {
        numeric_field_count(fs.drop_last()) + (if is_numeric_text(trim_seq(fs.last())) {
            1nat
        } else {
            0nat
        })
    }
}

/// Counts the fields whose trimmed text looks numeric.
pub fn count_numeric_fields(fields: &Vec<String>) -> (r: usize)
    ensures
        r == numeric_field_count(fields.deep_view()),
{
    let ghost fs = fields.deep_view();
    let mut count: usize = 0;
    let mut i: usize = 0;
    proof {
        assert(fs.take(0) =~= Seq::<Seq<char>>::empty());
    }
    while i < fields.len()
        invariant
            0 <= i <= fields.len(),
            fs == fields.deep_view(),
            fs.len() == fields@.len(),
            count <= i,
            count == numeric_field_count(fs.take(i as int)),
        decreases fields.len() - i,
    {
        let trimmed = trim_of(fields[i].as_str());
        let numeric = is_numeric_literal(trimmed);
        proof {
            assert(fs.take(i as int + 1).drop_last() =~= fs.take(i as int));
            assert(fs.take(i as int + 1).last() == fs[i as int]);
            assert(fs[i as int] == fields@[i as int]@);
        }
        if numeric {
            count = count + 1;
        }
        i = i + 1;
    }
    proof {
        assert(fs.take(fields@.len() as int) =~= fs);
    }
    count
}

/// Whether the first line is taken to be a header: it is when fewer of its
/// fields look numeric than of the second line's fields.
pub fn detect_csv_header_row(first_line: &str, second_line: &str) -> (r: bool)
    ensures
        r == (numeric_field_count(fields_of(first_line@)) < numeric_field_count(
            fields_of(second_line@),
        )),
{
    let first_fields = parse_csv_line_into_fields(first_line);
    let second_fields = parse_csv_line_into_fields(second_line);
    let first_numeric = count_numeric_fields(&first_fields);
    let second_numeric = count_numeric_fields(&second_fields);
    first_numeric < second_numeric
}

/// Whether the lines of a file begin with a header row.
pub open spec fn has_header_of(lines: Seq<Seq<char>>) -> bool {
    lines.len() >= 2 && numeric_field_count(fields_of(lines[0])) < numeric_field_count(
        fields_of(lines[1]),
    )
}

/// The column count of a file: the field count of its first line.
pub open spec fn column_count_of(lines: Seq<Seq<char>>) -> nat
    recommends
        lines.len() > 0,
{
    fields_of(lines[0]).len()
}

/// The data-row count of a file: all lines, minus the header when present.
pub open spec fn data_row_count_of(lines: Seq<Seq<char>>) -> nat {
    if has_header_of(lines) {
        (lines.len() - 1) as nat
    } else {
        lines.len()
    }
}

/// For every file with at least one line, the column count equals the comma
/// count of line 1 plus one.
pub proof fn lemma_column_count_is_comma_count_plus_one(lines: Seq<Seq<char>>)
    requires
        lines.len() >= 1,
    ensures
        column_count_of(lines) == count_of(lines[0], ',') + 1,
{
    lemma_fields_of_len(lines[0]);
}

/// A file with a single line is all data: the lone line is never a header.
pub proof fn lemma_single_line_no_header(lines: Seq<Seq<char>>)
    requires
        lines.len() == 1,
    ensures
        !has_header_of(lines),
        data_row_count_of(lines) == 1,
{
}

/// First pass: determines header presence, column count and data-row count
/// from the file's lines.  A file with no lines at all is rejected as a
/// structural anomaly located at line 1.
pub fn analyze_csv_basic_structure(lines: &Vec<String>) -> (r: RowsAndColumnsResult<
    (bool, usize, usize),
>)
    ensures
        lines@.len() == 0 <==> r is Err,
        r matches Err(e) ==> e matches RowsAndColumnsError::CsvProcessingError {
            message: m,
            line_number: l,
            column_index: c,
        } && m@ == "CSV file appears to be empty"@ && l == Some(1usize) && c == None::<usize>,
        r matches Ok(t) ==> t.0 == has_header_of(lines.deep_view()) && t.1 == column_count_of(
            lines.deep_view(),
        ) && t.2 == data_row_count_of(lines.deep_view()),
{
    let ghost ls = lines.deep_view();
    if lines.len() == 0 {
        return Err(create_csv_processing_error("CSV file appears to be empty", Some(1), None));
    }
    let column_count = count_csv_columns_in_line(lines[0].as_str());
    let has_header_row = if lines.len() >= 2 {
        detect_csv_header_row(lines[0].as_str(), lines[1].as_str())
    } else {
        false
    };
    proof {
        assert(ls[0] == lines@[0]@);
        if lines@.len() >= 2 {
            assert(ls[1] == lines@[1]@);
        }
        assert(has_header_row == has_header_of(ls));
    }
    let data_row_count = if has_header_row {
        lines.len() - 1
    } else {
        lines.len()
    };
    Ok((has_header_row, column_count, data_row_count))
}

/// Whether a sample value votes for the boolean type: its trimmed,
/// lowercased text is a boolean token.
pub open spec fn classifies_boolean(v: Seq<char>) -> bool {
    is_boolean_token(lower_seq(trim_seq(v)))
}

/// Whether a sample value votes for the integer type: not a boolean token,
/// and acceptable to a 64-bit signed integer parse.
pub open spec fn classifies_integer(v: Seq<char>) -> bool {
    !classifies_boolean(v) && parses_as_i64(lower_seq(trim_seq(v)))
}

/// Whether a sample value votes for the float type: neither a boolean token
/// nor integer text, but acceptable to a 64-bit floating-point parse.
pub open spec fn classifies_float(v: Seq<char>) -> bool {
    !classifies_boolean(v) && !parses_as_i64(lower_seq(trim_seq(v))) && parses_as_f64(
        lower_seq(trim_seq(v)),
    )
}

/// How many sample values vote for the boolean type.
pub open spec fn boolean_vote_count(vs: Seq<Seq<char>>) -> nat
    decreases vs.len(),
{
    if vs.len() == 0 {
        0
    } else {
        boolean_vote_count(vs.drop_last()) + (if classifies_boolean(vs.last()) {
            1nat
        } else {
            0nat
        })
    }
}

/// How many sample values vote for the integer type.
pub open spec fn integer_vote_count(vs: Seq<Seq<char>>) -> nat
    decreases vs.len(),
{
    if vs.len() == 0 {
        0
    } else {
        integer_vote_count(vs.drop_last()) + (if classifies_integer(vs.last()) {
            1nat
        } else {
            0nat
        })
    }
}

/// How many sample values vote for the float type.
pub open spec fn float_vote_count(vs: Seq<Seq<char>>) -> nat
    decreases vs.len(),
{
    if vs.len() == 0 {
        0
    } else {
        float_vote_count(vs.drop_last()) + (if classifies_float(vs.last()) {
            1nat
        } else {
            0nat
        })
    }
}

/// The vote count a type must reach: seventy percent of the sample count,
/// rounded down.
pub open spec fn classification_threshold(total: nat) -> nat {
    (total * 7) / 10
}

/// The data type classified from a column's sample values: the first of
/// boolean, integer and float whose vote count reaches the threshold, with
/// string as the fallback.  An empty sample is string.
pub open spec fn data_type_of_samples(vs: Seq<Seq<char>>) -> CsvColumnDataType {
    if vs.len() == 0 {
        CsvColumnDataType::String
    } else {
        let threshold = classification_threshold(vs.len());
        if boolean_vote_count(vs) >= threshold {
            CsvColumnDataType::Boolean
        } else if integer_vote_count(vs) >= threshold {
            CsvColumnDataType::Integer
        } else if float_vote_count(vs) >= threshold {
            CsvColumnDataType::Float
        } else {
            CsvColumnDataType::String
        }
    }
}

/// Classifies a column's data type from its sample values.
pub fn detect_column_data_type(sample_values: &Vec<String>) -> (r: CsvColumnDataType)
    requires
        sample_values@.len() * 7 <= usize::MAX,
    ensures
        r == data_type_of_samples(sample_values.deep_view()),
{
    let ghost vs = sample_values.deep_view();
    let total = sample_values.len();
    if total == 0 {
        return CsvColumnDataType::String;
    }
    let mut boolean_count: usize = 0;
    let mut integer_count: usize = 0;
    let mut float_count: usize = 0;
    let mut i: usize = 0;
    proof {
        assert(vs.take(0) =~= Seq::<Seq<char>>::empty());
    }
    while i < total
        invariant
            0 <= i <= total,
            vs == sample_values.deep_view(),
            total == vs.len(),
            total == sample_values@.len(),
            boolean_count <= i,
            integer_count <= i,
            float_count <= i,
            boolean_count == boolean_vote_count(vs.take(i as int)),
            integer_count == integer_vote_count(vs.take(i as int)),
            float_count == float_vote_count(vs.take(i as int)),
        decreases total - i,
    {
        let trimmed = trim_of(sample_values[i].as_str());
        proof {
            assert(vs[i as int] == sample_values@[i as int]@);
            reveal_strlit("true");
            reveal_strlit("false");
            reveal_strlit("yes");
            reveal_strlit("no");
            reveal_strlit("1");
            reveal_strlit("0");
            reveal_strlit("t");
            reveal_strlit("f");
            reveal_strlit("y");
            reveal_strlit("n");
            assert(lower_seq("true"@) =~= "true"@);
            assert(lower_seq("false"@) =~= "false"@);
            assert(lower_seq("yes"@) =~= "yes"@);
            assert(lower_seq("no"@) =~= "no"@);
            assert(lower_seq("1"@) =~= "1"@);
            assert(lower_seq("0"@) =~= "0"@);
            assert(lower_seq("t"@) =~= "t"@);
            assert(lower_seq("f"@) =~= "f"@);
            assert(lower_seq("y"@) =~= "y"@);
            assert(lower_seq("n"@) =~= "n"@);
        }
        let is_bool = eq_ignore_case(trimmed, "true") || eq_ignore_case(trimmed, "false")
            || eq_ignore_case(trimmed, "yes") || eq_ignore_case(trimmed, "no") || eq_ignore_case(
            trimmed,
            "1",
        ) || eq_ignore_case(trimmed, "0") || eq_ignore_case(trimmed, "t") || eq_ignore_case(
            trimmed,
            "f",
        ) || eq_ignore_case(trimmed, "y") || eq_ignore_case(trimmed, "n");
        proof {
            assert(is_bool == classifies_boolean(vs[i as int]));
        }
        if is_bool {
            boolean_count = boolean_count + 1;
        } else {
            let is_int = is_integer_literal(trimmed);
            proof {
                lemma_parses_as_i64_lower(trimmed@);
            }
            if is_int {
                integer_count = integer_count + 1;
            } else {
                let is_flt = is_float_literal(trimmed);
                proof {
                    lemma_parses_as_f64_lower(trimmed@);
                }
                if is_flt {
                    float_count = float_count + 1;
                }
            }
        }
        proof {
            assert(vs.take(i as int + 1).drop_last() =~= vs.take(i as int));
            assert(vs.take(i as int + 1).last() == vs[i as int]);
        }
        i = i + 1;
    }
    proof {
        assert(vs.take(total as int) =~= vs);
    }
    let threshold = (total * 7) / 10;
    if boolean_count >= threshold {
        CsvColumnDataType::Boolean
    } else if integer_count >= threshold {
        CsvColumnDataType::Integer
    } else if float_count >= threshold {
        CsvColumnDataType::Float
    } else {
        CsvColumnDataType::String
    }
}

/// The data rows inspected for typing: the lines after the header (or all
/// lines when there is none), capped at the sample window.
pub open spec fn sampled_data_rows(lines: Seq<Seq<char>>, has_header_row: bool) -> Seq<Seq<char>> {
    let data = if has_header_row {
        lines.drop_first()
    } else {
        lines
    };
    if data.len() <= CSV_SAMPLE_ROWS_FOR_TYPE_DETECTION {
        data
    } else {
        data.take(CSV_SAMPLE_ROWS_FOR_TYPE_DETECTION as int)
    }
}

/// Whether a row supplies a field for column `j`.  A row shorter than the
/// column list supplies nothing for its missing trailing columns.
pub open spec fn row_reaches_column(row: Seq<char>, j: int) -> bool {
    0 <= j < fields_of(row).len()
}

/// The trimmed text a row holds in column `j`.
pub open spec fn row_field_trimmed(row: Seq<char>, j: int) -> Seq<char> {
    trim_seq(fields_of(row)[j])
}

/// How many of the rows hold a non-empty trimmed value in column `j`.
pub open spec fn non_empty_count_in(rows: Seq<Seq<char>>, j: int) -> nat
    decreases rows.len(),
{
    if rows.len() == 0 {
        0
    } else {
        non_empty_count_in(rows.drop_last(), j) + (if row_reaches_column(rows.last(), j)
            && row_field_trimmed(rows.last(), j).len() > 0 {
            1nat
        } else {
            0nat
        })
    }
}

/// How many of the rows hold an empty trimmed value in column `j`.
pub open spec fn empty_count_in(rows: Seq<Seq<char>>, j: int) -> nat
    decreases rows.len(),
{
    if rows.len() == 0 {
        0
    } else {
        empty_count_in(rows.drop_last(), j) + (if row_reaches_column(rows.last(), j)
            && row_field_trimmed(rows.last(), j).len() == 0 {
            1nat
        } else {
            0nat
        })
    }
}

/// The sample values kept for column `j`: the first non-empty trimmed
/// values in row order, up to the per-column cap.
pub open spec fn sample_values_in(rows: Seq<Seq<char>>, j: int) -> Seq<Seq<char>>
    decreases rows.len(),
{
    if rows.len() == 0 {
        Seq::empty()
    } else {
        let prev = sample_values_in(rows.drop_last(), j);
        if row_reaches_column(rows.last(), j) && row_field_trimmed(rows.last(), j).len() > 0
            && prev.len() < CSV_SAMPLE_VALUES_PER_COLUMN {
            prev.push(row_field_trimmed(rows.last(), j))
        } else {
            prev
        }
    }
}

/// No more than five sample values are ever kept for a column, whatever the
/// rows hold.
pub proof fn lemma_sample_values_capped(rows: Seq<Seq<char>>, j: int)
    ensures
        sample_values_in(rows, j).len() <= CSV_SAMPLE_VALUES_PER_COLUMN,
    decreases rows.len(),
{
    if rows.len() > 0 {
        lemma_sample_values_capped(rows.drop_last(), j);
    }
}

/// A column's two value counts together never exceed the number of sampled
/// rows: each sampled row is counted at most once per column.
pub proof fn lemma_value_counts_bounded(rows: Seq<Seq<char>>, j: int)
    ensures
        non_empty_count_in(rows, j) + empty_count_in(rows, j) <= rows.len(),
    decreases rows.len(),
{
    if rows.len() > 0 {
        lemma_value_counts_bounded(rows.drop_last(), j);
    }
}

/// No more rows than the sample window are ever inspected for typing.
pub proof fn lemma_sample_window_capped(lines: Seq<Seq<char>>, has_header_row: bool)
    ensures
        sampled_data_rows(lines, has_header_row).len() <= CSV_SAMPLE_ROWS_FOR_TYPE_DETECTION,
{
}

/// A column's two value counts together never exceed the sample window, nor
/// the number of data rows the file has.
pub proof fn lemma_counts_within_window(
    lines: Seq<Seq<char>>,
    has_header_row: bool,
    j: int,
)
    requires
        has_header_row ==> lines.len() >= 1,
    ensures
        non_empty_count_in(sampled_data_rows(lines, has_header_row), j) + empty_count_in(
            sampled_data_rows(lines, has_header_row),
            j,
        ) <= CSV_SAMPLE_ROWS_FOR_TYPE_DETECTION,
        non_empty_count_in(sampled_data_rows(lines, has_header_row), j) + empty_count_in(
            sampled_data_rows(lines, has_header_row),
            j,
        ) <= lines.len() - (if has_header_row {
            1int
        } else {
            0int
        }),
{
    lemma_value_counts_bounded(sampled_data_rows(lines, has_header_row), j);
}

/// The generated placeholder name for column `j`.
pub open spec fn generated_column_name(j: int) -> Seq<char> {
    "column_"@ + dec_str((j + 1) as nat)
}

/// The name of column `j`: the header's field when the header supplies one,
/// else the generated placeholder.
pub open spec fn column_name_spec(lines: Seq<Seq<char>>, has_header_row: bool, j: int) -> Seq<
    char,
> {
    if has_header_row && 0 <= j < fields_of(lines[0]).len() {
        fields_of(lines[0])[j]
    } else {
        generated_column_name(j)
    }
}

/// What the analysis promises of one column's record.
pub open spec fn column_info_matches(
    col: CsvColumnInformation,
    lines: Seq<Seq<char>>,
    has_header_row: bool,
    j: int,
) -> bool {
    let rows = sampled_data_rows(lines, has_header_row);
    &&& col.column_index == j
    &&& col.column_name@ == column_name_spec(lines, has_header_row, j)
    &&& col.detected_data_type == data_type_of_samples(sample_values_in(rows, j))
    &&& col.non_empty_value_count == non_empty_count_in(rows, j)
    &&& col.empty_value_count == empty_count_in(rows, j)
    &&& col.sample_values.deep_view() == sample_values_in(rows, j)
}

/// What the analysis promises of the whole column list.
pub open spec fn column_list_matches(
    cols: Seq<CsvColumnInformation>,
    lines: Seq<Seq<char>>,
    has_header_row: bool,
    column_count: int,
) -> bool {
    &&& cols.len() == column_count
    &&& forall|j: int|
        0 <= j < column_count ==> column_info_matches(#[trigger] cols[j], lines, has_header_row, j)
}

/// Second pass: samples up to the window of data rows and assembles one
/// record per column, with names from the header when present.  When a
/// header is expected but the file has no lines, the run is rejected as a
/// structural anomaly.
pub fn analyze_csv_column_types_and_content(
    lines: &Vec<String>,
    has_header_row: bool,
    column_count: usize,
) -> (r: RowsAndColumnsResult<Vec<CsvColumnInformation>>)
    ensures
        (has_header_row && lines@.len() == 0) <==> r is Err,
        r matches Err(e) ==> e matches RowsAndColumnsError::CsvProcessingError {
            message: m,
            line_number: l,
            column_index: c,
        } && m@ == "CSV file appears empty when trying to read header"@ && l == Some(1usize) && c
            == None::<usize>,
        r matches Ok(cols) ==> column_list_matches(
            cols@,
            lines.deep_view(),
            has_header_row,
            column_count as int,
        ),
{
    let ghost ls = lines.deep_view();
    let ghost rows = sampled_data_rows(ls, has_header_row);
    if has_header_row && lines.len() == 0 {
        return Err(
            create_csv_processing_error(
                "CSV file appears empty when trying to read header",
                Some(1),
                None,
            ),
        );
    }
    let header_fields: Vec<String> = if has_header_row {
        parse_csv_line_into_fields(lines[0].as_str())
    } else {
        Vec::new()
    };
    let start: usize = if has_header_row {
        1
    } else {
        0
    };
    let available = lines.len() - start;
    let sample_row_count = if available <= CSV_SAMPLE_ROWS_FOR_TYPE_DETECTION {
        available
    } else {
        CSV_SAMPLE_ROWS_FOR_TYPE_DETECTION
    };
    proof {
        if lines@.len() > 0 {
            assert(ls[0] == lines@[0]@);
        }
        assert(rows.len() == sample_row_count);
        assert forall|q: int| 0 <= q < rows.len() implies rows[q] == ls[q + start] by {}
        if has_header_row {
            assert(header_fields.deep_view() == fields_of(ls[0]));
        }
    }
    let line_count = lines.len();
    let mut column_info_list: Vec<CsvColumnInformation> = Vec::new();
    let mut j: usize = 0;
    while j < column_count
        invariant
            0 <= j <= column_count,
            ls == lines.deep_view(),
            rows == sampled_data_rows(ls, has_header_row),
            rows.len() == sample_row_count,
            line_count == lines@.len(),
            start == (if has_header_row {
                1int
            } else {
                0int
            }),
            start + sample_row_count <= lines@.len(),
            forall|q: int| 0 <= q < rows.len() ==> rows[q] == ls[q + start],
            has_header_row ==> ls.len() > 0 && header_fields.deep_view() == fields_of(ls[0]),
            !has_header_row ==> header_fields@.len() == 0,
            column_info_list@.len() == j,
            forall|q: int|
                0 <= q < j ==> column_info_matches(
                    #[trigger] column_info_list@[q],
                    ls,
                    has_header_row,
                    q,
                ),
        decreases column_count - j,
    {
        let column_name: String = if has_header_row && j < header_fields.len() {
            let name = header_fields[j].clone();
            proof {
                assert(header_fields.deep_view()[j as int] == header_fields@[j as int]@);
            }
            name
        } else {
            let number_text = usize_to_dec_string(j + 1);
            let name = String::from_str("column_").concat(number_text.as_str());
            proof {
                assert(name@ == generated_column_name(j as int));
            }
            name
        };
        let mut non_empty: usize = 0;
        let mut empty: usize = 0;
        let mut samples: Vec<String> = Vec::new();
        let mut k: usize = 0;
        proof {
            assert(rows.take(0) =~= Seq::<Seq<char>>::empty());
        }
        while k < sample_row_count
            invariant
                0 <= k <= sample_row_count,
                ls == lines.deep_view(),
                rows.len() == sample_row_count,
                line_count == lines@.len(),
                start + sample_row_count <= lines@.len(),
                forall|q: int| 0 <= q < rows.len() ==> rows[q] == ls[q + start],
                non_empty <= k,
                empty <= k,
                non_empty == non_empty_count_in(rows.take(k as int), j as int),
                empty == empty_count_in(rows.take(k as int), j as int),
                samples.deep_view() == sample_values_in(rows.take(k as int), j as int),
            decreases sample_row_count - k,
        {
            let row_fields = parse_csv_line_into_fields(lines[start + k].as_str());
            proof {
                assert(ls[start + k as int] == lines@[start + k as int]@);
                assert(row_fields.deep_view() == fields_of(rows[k as int]));
                assert(rows.take(k as int + 1).drop_last() =~= rows.take(k as int));
                assert(rows.take(k as int + 1).last() == rows[k as int]);
            }
            let ghost prev_samples = samples.deep_view();
            if j < row_fields.len() {
                let trimmed = trim_of(row_fields[j].as_str());
                proof {
                    assert(row_fields.deep_view()[j as int] == row_fields@[j as int]@);
                    assert(trimmed@ == row_field_trimmed(rows[k as int], j as int));
                }
                if trimmed.unicode_len() == 0 {
                    empty = empty + 1;
                } else {
                    non_empty = non_empty + 1;
                    if samples.len() < CSV_SAMPLE_VALUES_PER_COLUMN {
                        samples.push(trimmed.to_owned());
                        proof {
                            assert(samples.deep_view() =~= prev_samples.push(
                                row_field_trimmed(rows[k as int], j as int),
                            ));
                        }
                    }
                }
            }
            k = k + 1;
        }
        proof {
            assert(rows.take(rows.len() as int) =~= rows);
            lemma_sample_values_capped(rows, j as int);
        }
        let detected_data_type = detect_column_data_type(&samples);
        let info = CsvColumnInformation {
            column_index: j,
            column_name,
            detected_data_type,
            non_empty_value_count: non_empty,
            empty_value_count: empty,
            sample_values: samples,
        };
        proof {
            assert(column_info_matches(info, ls, has_header_row, j as int));
        }
        column_info_list.push(info);
        j = j + 1;
    }
    Ok(column_info_list)
}

/// The file-name part of a path: everything after the last slash.
pub open spec fn path_file_name(p: Seq<char>) -> Seq<char> {
    p.subrange(last_index_of(p, '/') + 1, p.len() as int)
}

/// The directory part of a path, trailing slash included; empty for a bare
/// file name.
pub open spec fn path_directory_prefix(p: Seq<char>) -> Seq<char> {
    p.subrange(0, last_index_of(p, '/') + 1)
}

/// Whether a file-name stem can be derived from the path: its file-name
/// part is neither empty nor one of the two relative directory names.
pub open spec fn path_has_usable_file_name(p: Seq<char>) -> bool {
    let name = path_file_name(p);
    name.len() > 0 && name != "."@ && name != ".."@
}

/// The file-name stem: the name up to its last dot, or the whole name when
/// there is no dot or the only dot leads the name.
pub open spec fn path_file_stem(p: Seq<char>) -> Seq<char> {
    let name = path_file_name(p);
    let d = last_index_of(name, '.');
    if d <= 0 {
        name
    } else {
        name.subrange(0, d)
    }
}

/// The sidecar metadata path: the stem with the metadata suffix appended,
/// in the same directory as the source file.
pub open spec fn metadata_path_of(p: Seq<char>) -> Seq<char> {
    path_directory_prefix(p) + path_file_stem(p) + "."@ + "csv_metadata.toml"@
}

/// Scans for the position one past the last occurrence of `c`, or zero when
/// `c` does not occur.
fn find_last_index_plus_one(s: &str, c: char) -> (r: usize)
    ensures
        r == last_index_of(s@, c) + 1,
        r <= s@.len(),
{
    let n = s.unicode_len();
    let mut q: usize = 0;
    let mut cut: usize = 0;
    while q < n
        invariant
            0 <= cut <= q <= n,
            n == s@.len(),
            cut >= 1 ==> s@[cut - 1] == c,
            forall|k: int| cut <= k < q ==> s@[k] != c,
        decreases n - q,
    {
        if s.get_char(q) == c {
            cut = q + 1;
        }
        q = q + 1;
    }
    proof {
        lemma_last_index_of(s@, c);
        let li = last_index_of(s@, c);
        if cut >= 1 {
            assert(s@[cut - 1] == c);
            if li < cut - 1 {
                assert(s@[cut - 1] != c);
            }
            if li > cut - 1 {
                assert(s@[li] != c);
            }
        } else {
            if li >= 0 {
                assert(s@[li] != c);
            }
        }
    }
    cut
}

/// Derives the deterministic sidecar metadata path from the source file's
/// path: the file-name stem with the metadata suffix, in the source file's
/// directory.  A path without a usable file name is rejected as a
/// configuration failure.
pub fn determine_metadata_file_path(csv_file_path: &String) -> (r: RowsAndColumnsResult<String>)
    ensures
        path_has_usable_file_name(csv_file_path@) <==> r is Ok,
        r matches Ok(p) ==> p@ == metadata_path_of(csv_file_path@),
        r matches Err(e) ==> e matches RowsAndColumnsError::ConfigurationError { message: m }
            && m@ == "Cannot determine filename from CSV path: "@ + csv_file_path@,
{
    let s = csv_file_path.as_str();
    let n = s.unicode_len();
    let cut = find_last_index_plus_one(s, '/');
    let name = s.substring_char(cut, n);
    proof {
        assert(name@ =~= path_file_name(csv_file_path@));
    }
    if name.unicode_len() == 0 || str_eq_str(name, ".") || str_eq_str(name, "..") {
        let message = String::from_str("Cannot determine filename from CSV path: ").concat(
            csv_file_path.as_str(),
        );
        return Err(RowsAndColumnsError::ConfigurationError { message });
    }
    let dot_cut = find_last_index_plus_one(name, '.');
    let stem = if dot_cut <= 1 {
        name
    } else {
        name.substring_char(0, dot_cut - 1)
    };
    proof {
        assert(stem@ =~= path_file_stem(csv_file_path@));
    }
    let prefix = s.substring_char(0, cut);
    proof {
        assert(prefix@ =~= path_directory_prefix(csv_file_path@));
    }
    let mut metadata_file_path = prefix.to_owned();
    metadata_file_path.append(stem);
    metadata_file_path.append(".");
    metadata_file_path.append("csv_metadata.toml");
    proof {
        assert(metadata_file_path@ =~= metadata_path_of(csv_file_path@));
    }
    Ok(metadata_file_path)
}

/// The text of one column's block in the metadata record.
pub open spec fn metadata_block_text(col: CsvColumnInformation) -> Seq<char> {
    "["@ + generated_column_name(col.column_index as int) + "]\n"@ + "name = \""@
        + col.column_name@ + "\"\n"@ + "data_type = \""@ + toml_tag_text(col.detected_data_type)
        + "\"\n"@ + "column_index = "@ + dec_str(col.column_index as nat) + "\n"@
        + "non_empty_values = "@ + dec_str(col.non_empty_value_count as nat) + "\n"@
        + "empty_values = "@ + dec_str(col.empty_value_count as nat) + "\n\n"@
}

/// The concatenated blocks of all columns, in column order.
pub open spec fn metadata_blocks_text(cols: Seq<CsvColumnInformation>) -> Seq<char>
    decreases cols.len(),
{
    if cols.len() == 0 {
        Seq::empty()
    } else {
        metadata_blocks_text(cols.drop_last()) + metadata_block_text(cols.last())
    }
}

/// The full text of the metadata record: a comment head, the column total,
/// and one block per column.
pub open spec fn metadata_toml_text(cols: Seq<CsvColumnInformation>) -> Seq<char> {
    "# CSV Metadata File\n"@ + "# Generated by rows_and_columns\n\n"@ + "total_columns = "@
        + dec_str(cols.len()) + "\n"@ + "\n"@ + metadata_blocks_text(cols)
}

/// Column lists whose blocks render to the same text render to the same
/// record body.
proof fn lemma_blocks_text_pointwise(c1: Seq<CsvColumnInformation>, c2: Seq<CsvColumnInformation>)
    requires
        c1.len() == c2.len(),
        forall|j: int|
            0 <= j < c1.len() ==> metadata_block_text(#[trigger] c1[j]) == metadata_block_text(
                c2[j],
            ),
    ensures
        metadata_blocks_text(c1) == metadata_blocks_text(c2),
    decreases c1.len(),
{
    if c1.len() > 0 {
        assert forall|j: int|
            0 <= j < c1.drop_last().len() implies metadata_block_text(
            #[trigger] c1.drop_last()[j],
        ) == metadata_block_text(c2.drop_last()[j]) by {
            assert(c1.drop_last()[j] == c1[j]);
            assert(c2.drop_last()[j] == c2[j]);
        }
        lemma_blocks_text_pointwise(c1.drop_last(), c2.drop_last());
        assert(metadata_block_text(c1.last()) == metadata_block_text(c2.last()));
    }
}

/// Running the analysis twice on unchanged lines yields byte-identical
/// metadata text: any two column lists that match the same lines render to
/// the same record.
pub proof fn lemma_metadata_text_deterministic(
    c1: Seq<CsvColumnInformation>,
    c2: Seq<CsvColumnInformation>,
    lines: Seq<Seq<char>>,
    has_header_row: bool,
    column_count: int,
)
    requires
        column_list_matches(c1, lines, has_header_row, column_count),
        column_list_matches(c2, lines, has_header_row, column_count),
    ensures
        metadata_toml_text(c1) == metadata_toml_text(c2),
{
    assert forall|j: int|
        0 <= j < c1.len() implies metadata_block_text(#[trigger] c1[j]) == metadata_block_text(
        c2[j],
    ) by {
        assert(column_info_matches(c1[j], lines, has_header_row, j));
        assert(column_info_matches(c2[j], lines, has_header_row, j));
        assert(c1[j].column_index == c2[j].column_index);
        assert(c1[j].column_name@ == c2[j].column_name@);
        assert(c1[j].detected_data_type == c2[j].detected_data_type);
        assert(c1[j].non_empty_value_count == c2[j].non_empty_value_count);
        assert(c1[j].empty_value_count == c2[j].empty_value_count);
    }
    lemma_blocks_text_pointwise(c1, c2);
}

/// Renders one column's block.
fn build_metadata_block(col: &CsvColumnInformation) -> (r: String)
    requires
        col.column_index < usize::MAX,
    ensures
        r@ == metadata_block_text(*col),
{
    let mut block = String::new();
    block.append("[");
    block.append("column_");
    let section_number = usize_to_dec_string(col.column_index + 1);
    block.append(section_number.as_str());
    block.append("]\n");
    block.append("name = \"");
    block.append(col.column_name.as_str());
    block.append("\"\n");
    block.append("data_type = \"");
    block.append(col.detected_data_type.to_toml_string());
    block.append("\"\n");
    block.append("column_index = ");
    let index_text = usize_to_dec_string(col.column_index);
    block.append(index_text.as_str());
    block.append("\n");
    block.append("non_empty_values = ");
    let non_empty_text = usize_to_dec_string(col.non_empty_value_count);
    block.append(non_empty_text.as_str());
    block.append("\n");
    block.append("empty_values = ");
    let empty_text = usize_to_dec_string(col.empty_value_count);
    block.append(empty_text.as_str());
    block.append("\n\n");
    proof {
        assert(block@ =~= metadata_block_text(*col));
    }
    block
}

/// Renders the full metadata record for the given column list.
pub fn build_metadata_toml_content(column_information_list: &Vec<CsvColumnInformation>) -> (r:
    String)
    requires
        forall|i: int|
            0 <= i < column_information_list@.len() ==> (
            #[trigger] column_information_list@[i]).column_index < usize::MAX,
    ensures
        r@ == metadata_toml_text(column_information_list@),
{
    let ghost cols = column_information_list@;
    let mut content = String::new();
    content.append("# CSV Metadata File\n");
    content.append("# Generated by rows_and_columns\n\n");
    content.append("total_columns = ");
    let count_text = usize_to_dec_string(column_information_list.len());
    content.append(count_text.as_str());
    content.append("\n");
    content.append("\n");
    let ghost head = content@;
    proof {
        assert(metadata_blocks_text(cols.take(0)) =~= Seq::<char>::empty());
        assert(content@ =~= head + metadata_blocks_text(cols.take(0)));
    }
    let mut i: usize = 0;
    while i < column_information_list.len()
        invariant
            0 <= i <= cols.len(),
            cols == column_information_list@,
            forall|q: int| 0 <= q < cols.len() ==> (#[trigger] cols[q]).column_index < usize::MAX,
            content@ == head + metadata_blocks_text(cols.take(i as int)),
        decreases cols.len() - i,
    {
        let block = build_metadata_block(&column_information_list[i]);
        content.append(block.as_str());
        proof {
            assert(cols.take(i as int + 1).drop_last() =~= cols.take(i as int));
            assert(cols.take(i as int + 1).last() == cols[i as int]);
            assert(content@ =~= head + metadata_blocks_text(cols.take(i as int + 1)));
        }
        i = i + 1;
    }
    proof {
        assert(cols.take(cols.len() as int) =~= cols);
        assert(content@ =~= metadata_toml_text(cols));
    }
    content
}

/// Runs the whole analysis on the lines of a file: the structural pass, the
/// typing pass and the metadata-path derivation, stopping at the first
/// failure.  Whether a metadata record already existed is handed in by the
/// caller, who checked before this run; writing the record from
/// `build_metadata_toml_content` is likewise the caller's step.
pub fn analyze_csv_file_structure_and_types(
    lines: &Vec<String>,
    csv_file_path: &String,
    metadata_file_already_existed: bool,
) -> (r: RowsAndColumnsResult<CsvAnalysisResults>)
    ensures
        (lines@.len() > 0 && path_has_usable_file_name(csv_file_path@)) <==> r is Ok,
        lines@.len() == 0 ==> (r matches Err(e) && e matches
            RowsAndColumnsError::CsvProcessingError {
            message: m,
            line_number: l,
            column_index: c,
        } && m@ == "CSV file appears to be empty"@ && l == Some(1usize) && c == None::<usize>),
        lines@.len() > 0 && !path_has_usable_file_name(csv_file_path@) ==> (r matches Err(e)
            && e matches RowsAndColumnsError::ConfigurationError { message: m } && m@
            == "Cannot determine filename from CSV path: "@ + csv_file_path@),
        r matches Ok(res) ==> {
            let ls = lines.deep_view();
            &&& res.csv_file_path@ == csv_file_path@
            &&& res.has_header_row == has_header_of(ls)
            &&& res.total_column_count == column_count_of(ls)
            &&& res.total_data_row_count == data_row_count_of(ls)
            &&& column_list_matches(
                res.column_information_list@,
                ls,
                has_header_of(ls),
                column_count_of(ls) as int,
            )
            &&& res.metadata_file_path@ == metadata_path_of(csv_file_path@)
            &&& res.metadata_file_already_existed == metadata_file_already_existed
        },
{
    let structure = analyze_csv_basic_structure(lines);
    let (has_header_row, column_count, data_row_count) = match structure {
        Ok(t) => t,
        Err(e) => {
            return Err(e);
        },
    };
    let typing = analyze_csv_column_types_and_content(lines, has_header_row, column_count);
    let column_information_list = match typing {
        Ok(c) => c,
        Err(e) => {
            return Err(e);
        },
    };
    let path = determine_metadata_file_path(csv_file_path);
    let metadata_file_path = match path {
        Ok(p) => p,
        Err(e) => {
            return Err(e);
        },
    };
    Ok(
        CsvAnalysisResults {
            csv_file_path: csv_file_path.clone(),
            has_header_row,
            total_column_count: column_count,
            total_data_row_count: data_row_count,
            column_information_list,
            metadata_file_path,
            metadata_file_already_existed,
        },
    )
}

} // verus!
