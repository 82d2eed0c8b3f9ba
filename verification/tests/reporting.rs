use duckdb_slt::reporting::{
    format_error, format_failed, format_ok, render_failure_report, render_report, FailureKind,
    RecordId, RecordMetadataCache, RecordSummary, TestFailure,
};

#[test]
fn status_formatters_plain_text() {
    assert_eq!(format_ok(false), "ok");
    assert_eq!(format_failed(false), "FAILED");
    assert_eq!(format_error(false), "ERROR");
}

#[test]
fn status_formatters_colored_text() {
    assert!(format_ok(true).contains("ok"));
    assert!(format_failed(true).contains("FAILED"));
    assert!(format_error(true).contains("ERROR"));
}

fn fixture_records(file: &str) -> Vec<RecordSummary> {
    vec![
        RecordSummary::Query {
            file: file.to_string(),
            line: 1,
            label: Some("first".to_string()),
        },
        RecordSummary::Other,
        RecordSummary::Query {
            file: file.to_string(),
            line: 6,
            label: Some("second".to_string()),
        },
    ]
}

#[test]
fn metadata_cache_supports_repeated_lookups_for_same_file() {
    let path = "duckdb-slt-reporting.slt";
    let cache = RecordMetadataCache::build(&fixture_records(path));

    let first = cache.find(path, 1).expect("first record metadata should exist");
    assert_eq!(first.index_1_based, 1);
    assert_eq!(first.name.as_deref(), Some("first"));

    let second = cache.find(path, 6).expect("second record metadata should exist");
    assert_eq!(second.index_1_based, 2);
    assert_eq!(second.name.as_deref(), Some("second"));

    let repeated_first = cache
        .find(path, 1)
        .expect("repeated lookup should return same metadata");
    assert_eq!(repeated_first, first);
}

#[test]
fn metadata_counts_statements_and_system_records() {
    let records = vec![
        RecordSummary::Statement { file: "a".to_string(), line: 1 },
        RecordSummary::System { file: "a".to_string(), line: 3 },
        RecordSummary::Query { file: "b".to_string(), line: 3, label: None },
        RecordSummary::Statement { file: "a".to_string(), line: 3 },
    ];
    let cache = RecordMetadataCache::build(&records);
    assert_eq!(
        cache.find("a", 3),
        Some(RecordId { index_1_based: 4, name: None })
    );
    assert_eq!(
        cache.find("b", 3),
        Some(RecordId { index_1_based: 3, name: None })
    );
    assert_eq!(cache.find("a", 2), None);
    assert_eq!(cache.find("c", 1), None);
}

#[test]
fn report_of_a_query_mismatch() {
    let failure = TestFailure {
        kind: FailureKind::QueryResultMismatch {
            sql: "SELECT 1;".to_string(),
            expected: "2".to_string(),
            actual: "1".to_string(),
        },
        file: "t.slt".to_string(),
        line: 3,
    };
    let record = Some(RecordId { index_1_based: 2, name: Some("my_record".to_string()) });
    assert_eq!(
        render_report("t.slt", &failure, &record),
        "  at: t.slt:3\n  record: 2 name=my_record\nsql:\nSELECT 1;\nexpected: 2\nactual: 1"
    );
}

#[test]
fn report_of_a_column_count_mismatch() {
    let failure = TestFailure {
        kind: FailureKind::QueryResultColumnsMismatch {
            sql: "SELECT 1;".to_string(),
            expected: "III".to_string(),
            actual: "I".to_string(),
        },
        file: "t.slt".to_string(),
        line: 7,
    };
    let report = render_report("t.slt", &failure, &None);
    assert_eq!(
        report,
        "  at: t.slt:7\nsql:\nSELECT 1;\ndetails: Expected 3 columns, but got 1 columns\nexpected_columns: III\nactual_columns: I"
    );
}

#[test]
fn report_of_errors_and_statements() {
    let failure = TestFailure {
        kind: FailureKind::ErrorMismatch {
            sql: "SELECT x;".to_string(),
            expected_err: "boom".to_string(),
            err: "bang".to_string(),
            actual_sqlstate: Some("42000".to_string()),
        },
        file: "t.slt".to_string(),
        line: 1,
    };
    assert_eq!(
        render_report("t.slt", &failure, &None),
        "  at: t.slt:1\nsql:\nSELECT x;\nexpected_error: boom\nactual_sqlstate: 42000\nactual_error: bang"
    );
    let failure = TestFailure {
        kind: FailureKind::StatementResultMismatch {
            sql: "DELETE FROM t;\n".to_string(),
            expected: 3,
            actual: "2".to_string(),
        },
        file: "t.slt".to_string(),
        line: 9,
    };
    assert_eq!(
        render_report("x", &failure, &None),
        "  at: x:9\nsql:\nDELETE FROM t;\n\nexpected_rows: 3\nactual_rows: 2"
    );
    let failure = TestFailure {
        kind: FailureKind::SystemFail { details: "it broke\n\n".to_string() },
        file: "t.slt".to_string(),
        line: 2,
    };
    assert_eq!(
        render_report("x", &failure, &None),
        "  at: x:2\ndetails: it broke"
    );
}

#[test]
fn failure_in_the_preprocessed_copy_names_the_script() {
    let failure = TestFailure {
        kind: FailureKind::Fail { sql: "SELECT 1;".to_string(), details: "failed".to_string() },
        file: "dir/t.slt.pre".to_string(),
        line: 3,
    };
    let cache = RecordMetadataCache::build(&vec![
        RecordSummary::Statement { file: "dir/t.slt.pre".to_string(), line: 1 },
        RecordSummary::Statement { file: "dir/t.slt.pre".to_string(), line: 3 },
    ]);
    let report = render_failure_report("dir/t.slt", "dir/t.slt.pre", "/base", &failure, Some(&cache));
    let sep = std::path::MAIN_SEPARATOR;
    assert_eq!(
        report,
        format!("  at: dir{sep}t.slt:3\n  record: 2\nsql:\nSELECT 1;\ndetails: failed")
    );
}
