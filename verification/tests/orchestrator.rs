use duckdb_slt::orchestrator::{
    classify_failure, replace_str, FileOutcome, FileRunError, RunTally, EXIT_OK,
    EXIT_RUNTIME_ERROR, EXIT_TEST_FAIL,
};
use duckdb_slt::reporting::{FailureKind, TestFailure};

#[test]
fn all_passed_exits_0() {
    let mut tally = RunTally::new();
    assert!(tally.record("a.slt".to_string(), FileOutcome::Passed, false));
    assert!(tally.record("b.slt".to_string(), FileOutcome::Passed, true));
    assert_eq!(tally.exit_code(), EXIT_OK);
    assert!(tally.all_passed());
    assert_eq!(tally.files_passed, 2);
    assert!(tally.failure_listing().is_empty());
}

#[test]
fn a_failure_exits_2_and_the_run_goes_on() {
    let mut tally = RunTally::new();
    assert!(tally.record("a.slt".to_string(), FileOutcome::Failed, false));
    assert!(tally.record("b.slt".to_string(), FileOutcome::Passed, false));
    assert!(tally.record("c.slt".to_string(), FileOutcome::Failed, false));
    assert_eq!(tally.exit_code(), EXIT_TEST_FAIL);
    assert!(!tally.all_passed());
    assert_eq!(tally.failure_listing(), vec!["a.slt", "c.slt"]);
}

#[test]
fn fail_fast_stops_after_the_first_failure() {
    let mut tally = RunTally::new();
    assert!(!tally.record("a.slt".to_string(), FileOutcome::Failed, true));
    assert_eq!(tally.exit_code(), EXIT_TEST_FAIL);
}

#[test]
fn a_runtime_error_stops_the_run_and_exits_1() {
    let mut tally = RunTally::new();
    assert!(tally.record("a.slt".to_string(), FileOutcome::Failed, false));
    assert!(!tally.record("b.slt".to_string(), FileOutcome::Errored, false));
    assert_eq!(tally.exit_code(), EXIT_RUNTIME_ERROR);
    assert_eq!(tally.files_failed, 1);
    assert_eq!(tally.files_errored, 1);
    assert_eq!(tally.failure_listing(), vec!["a.slt", "b.slt"]);
}

#[test]
fn replacing_text() {
    assert_eq!(replace_str("a.pre: a.pre", "a.pre", "a"), "a: a");
    assert_eq!(replace_str("aaa", "aa", "b"), "ba");
    assert_eq!(replace_str("ab", "", "-"), "-a-b-");
    assert_eq!(replace_str("", "x", "y"), "");
}

#[test]
fn parse_errors_are_runtime_errors_naming_the_script() {
    let failure = TestFailure {
        kind: FailureKind::ParseError {
            details: "bad record at dir/t.slt.pre:4".to_string(),
        },
        file: "dir/t.slt.pre".to_string(),
        line: 4,
    };
    match classify_failure("dir/t.slt", Some("dir/t.slt.pre"), "/", &failure, None) {
        FileRunError::Runtime(msg) => {
            assert_eq!(msg, "parse error in dir/t.slt: bad record at dir/t.slt:4")
        }
        FileRunError::TestFailure(_) => panic!("a parse error is a runtime error"),
    }
}

#[test]
fn other_failures_are_test_failures() {
    let failure = TestFailure {
        kind: FailureKind::Other { details: "let failed".to_string() },
        file: "t.slt".to_string(),
        line: 4,
    };
    match classify_failure("t.slt", None, "/", &failure, None) {
        FileRunError::TestFailure(report) => assert_eq!(report, "  at: t.slt:4\ndetails: let failed"),
        FileRunError::Runtime(_) => panic!("a mismatch is a test failure"),
    }
}
