use duckdb_slt::driver::{
    collect_rows, contains_str, map_arrow_type, map_duckdb_type, normalize_duckdb_error_message,
    validate_query_column_count, ArrowType, ColumnType, DuckdbType,
};
use duckdb_slt::temporal::TimeUnit;
use duckdb_slt::values::CellValue;

#[test]
fn normalize_duckdb_error_message_table() {
    let cases: &[(&str, Option<&str>)] = &[
        (
            "Invalid Input Error: Failed to open file 'x': The system cannot find the file specified. (os error 2)",
            Some("Failed to open file"),
        ),
        (
            "IO Error: Failed to open file 'x': Permission denied",
            Some("Failed to open file"),
        ),
        ("Catalog Error: Table with name t does not exist", None),
    ];

    for (input, expected) in cases {
        let actual = normalize_duckdb_error_message(input);
        assert_eq!(actual.as_deref(), *expected);
    }
}

#[test]
fn map_duckdb_types() {
    assert_eq!(map_duckdb_type(&DuckdbType::Int), ColumnType::Integer);
    assert_eq!(map_duckdb_type(&DuckdbType::Double), ColumnType::FloatingPoint);
    assert_eq!(map_duckdb_type(&DuckdbType::Text), ColumnType::Text);
    assert_eq!(map_duckdb_type(&DuckdbType::Date32), ColumnType::Text);
    assert_eq!(map_duckdb_type(&DuckdbType::Time64), ColumnType::Text);
    assert_eq!(map_duckdb_type(&DuckdbType::Timestamp), ColumnType::Text);
    assert_eq!(map_duckdb_type(&DuckdbType::Interval), ColumnType::Text);
    assert_eq!(
        map_duckdb_type(&DuckdbType::List(Box::new(DuckdbType::Int))),
        ColumnType::Text
    );
    assert_eq!(
        map_duckdb_type(&DuckdbType::Struct(vec![("x".to_string(), DuckdbType::Int)])),
        ColumnType::Text
    );
    assert_eq!(
        map_duckdb_type(&DuckdbType::MapOf(
            Box::new(DuckdbType::Text),
            Box::new(DuckdbType::Int)
        )),
        ColumnType::Text
    );
    assert_eq!(map_duckdb_type(&DuckdbType::Boolean), ColumnType::Any);
    assert_eq!(map_duckdb_type(&DuckdbType::Blob), ColumnType::Any);
}

#[test]
fn map_arrow_types() {
    assert_eq!(map_arrow_type(&ArrowType::Int32), ColumnType::Integer);
    assert_eq!(map_arrow_type(&ArrowType::UInt64), ColumnType::Integer);
    assert_eq!(map_arrow_type(&ArrowType::Float64), ColumnType::FloatingPoint);
    assert_eq!(map_arrow_type(&ArrowType::Utf8), ColumnType::Text);
    assert_eq!(map_arrow_type(&ArrowType::Date32), ColumnType::Text);
    assert_eq!(
        map_arrow_type(&ArrowType::Time64(TimeUnit::Microsecond)),
        ColumnType::Text
    );
    assert_eq!(
        map_arrow_type(&ArrowType::Timestamp(TimeUnit::Microsecond, None)),
        ColumnType::Text
    );
    assert_eq!(map_arrow_type(&ArrowType::Boolean), ColumnType::Any);
}

#[test]
fn arrow_decimals_and_lists() {
    assert_eq!(map_arrow_type(&ArrowType::Decimal128(4, 2)), ColumnType::FloatingPoint);
    assert_eq!(map_arrow_type(&ArrowType::LargeList), ColumnType::Text);
    assert_eq!(map_arrow_type(&ArrowType::Other), ColumnType::Any);
    assert_eq!(map_duckdb_type(&DuckdbType::HugeInt), ColumnType::Integer);
    assert_eq!(map_duckdb_type(&DuckdbType::Enum), ColumnType::Any);
}

#[test]
fn any_columns_take_the_type_of_the_first_row() {
    let arrow = vec![ArrowType::Boolean, ArrowType::Int32, ArrowType::Other];
    let first = vec![DuckdbType::Boolean, DuckdbType::Int, DuckdbType::Double];
    let rows = vec![
        vec![CellValue::Boolean(true), CellValue::Int(1), CellValue::Rendered("1.5".to_string())],
        vec![CellValue::Null, CellValue::Int(-2), CellValue::Rendered("2".to_string())],
    ];
    let out = collect_rows(&arrow, &first, &rows);
    assert_eq!(
        out.types,
        vec![ColumnType::Any, ColumnType::Integer, ColumnType::FloatingPoint]
    );
    assert_eq!(
        out.rows,
        vec![vec!["true", "1", "1.5"], vec!["NULL", "-2", "2"]]
    );

    let empty = collect_rows(&arrow, &Vec::new(), &Vec::new());
    assert_eq!(
        empty.types,
        vec![ColumnType::Any, ColumnType::Integer, ColumnType::Any]
    );
    assert!(empty.rows.is_empty());
}

#[test]
fn column_count_validation() {
    assert!(validate_query_column_count(&vec![1, 2], &vec![3, 4]));
    assert!(!validate_query_column_count(&vec![1], &vec![3, 4]));
}

#[test]
fn substring_search() {
    assert!(contains_str("abc", ""));
    assert!(contains_str("abc", "bc"));
    assert!(!contains_str("ab", "abc"));
    assert!(!contains_str("Failed to open fil", "Failed to open file"));
    assert_eq!(
        normalize_duckdb_error_message("Failed to open file").as_deref(),
        Some("Failed to open file")
    );
}
