use duckdb_slt::preprocessor::{
    parse_single_token_name, preprocess_script, preprocessed_copy_name, run_directive_pipeline,
    split_line_with_eol, DirectiveHandler, PreprocessDirectives, PreprocessRun,
    RequireDirectiveHandler,
};

#[test]
fn require_handler_matches_and_rewrites_basic_require() {
    let handler = RequireDirectiveHandler;
    let output = handler.handle_line("require httpfs").unwrap();

    assert_eq!(output.rewritten_line, "# require httpfs");
    assert_eq!(output.required_extension.as_deref(), Some("httpfs"));
}

#[test]
fn require_handler_rewrite_drops_leading_whitespace() {
    let handler = RequireDirectiveHandler;
    let output = handler.handle_line("   require httpfs").unwrap();

    assert_eq!(output.rewritten_line, "# require httpfs");
    assert_eq!(output.required_extension.as_deref(), Some("httpfs"));
}

#[test]
fn require_handler_parses_quoted_extension_token() {
    let handler = RequireDirectiveHandler;
    let output = handler.handle_line("require 'httpfs'").unwrap();

    assert_eq!(output.rewritten_line, "# require 'httpfs'");
    assert_eq!(output.required_extension.as_deref(), Some("httpfs"));
}

#[test]
fn require_handler_parses_token_with_single_leading_quote() {
    let handler = RequireDirectiveHandler;
    let output = handler.handle_line("require 'httpfs").unwrap();

    assert_eq!(output.rewritten_line, "# require 'httpfs");
    assert_eq!(output.required_extension.as_deref(), Some("httpfs"));
}

#[test]
fn require_handler_rewrites_even_without_extension_token() {
    let handler = RequireDirectiveHandler;
    let output = handler.handle_line("require   ").unwrap();

    assert_eq!(output.rewritten_line, "# require   ");
    assert!(output.required_extension.is_none());
}

#[test]
fn require_handler_does_not_match_non_require_lines() {
    let handler = RequireDirectiveHandler;

    assert!(handler.handle_line("require").is_none());
    assert!(handler.handle_line("load httpfs").is_none());
}

#[test]
fn preprocess_file_preserves_line_count_and_content_mapping() {
    let script = "statement ok\nSELECT 1;\r\nrequire httpfs\r\n# require ignored\nquery I\nSELECT 2;\n----\n2\n";
    let expected = "statement ok\nSELECT 1;\r\n# require httpfs\r\n# require ignored\nquery I\nSELECT 2;\n----\n2\n";

    let (output, directives) =
        preprocess_script(script).expect("require directive should trigger preprocessing");

    assert_eq!(output, expected);
    assert_eq!(
        script.split_inclusive('\n').count(),
        output.split_inclusive('\n').count()
    );
    assert_eq!(directives.required_extensions, vec!["httpfs"]);
}

#[test]
fn preprocess_file_preserves_newline_style_per_line() {
    let script = "require httpfs\r\nrequire parquet\nstatement ok\r\nSELECT 1;\n";

    let (output, directives) =
        preprocess_script(script).expect("require directives should trigger preprocessing");

    assert_eq!(
        output,
        "# require httpfs\r\n# require parquet\nstatement ok\r\nSELECT 1;\n"
    );
    assert_eq!(directives.required_extensions, vec!["httpfs", "parquet"]);
}

#[test]
fn preprocess_file_skips_commented_require_and_returns_none() {
    let script = "# require httpfs\nstatement ok\nSELECT 1;\n";

    assert!(preprocess_script(script).is_none());
}

#[test]
fn preprocess_last_line_without_newline() {
    let (output, directives) = preprocess_script("statement ok\n  require 'json'").unwrap();
    assert_eq!(output, "statement ok\n# require 'json'");
    assert_eq!(directives.required_extensions, vec!["json"]);
}

#[test]
fn preprocess_require_without_name_is_rewritten_but_requires_nothing() {
    let (output, directives) = preprocess_script("require ''\nrequire\tx y\n").unwrap();
    assert_eq!(output, "# require ''\n# require\tx y\n");
    assert_eq!(directives.required_extensions, vec!["x"]);
}

#[test]
fn preprocess_leaves_scripts_without_directives_alone() {
    assert!(preprocess_script("").is_none());
    assert!(preprocess_script("requirex y\nrequire\n  # require z\n").is_none());
}

#[test]
fn split_line_keeps_the_line_ending() {
    assert_eq!(split_line_with_eol("abc\r\n"), ("abc", "\r\n"));
    assert_eq!(split_line_with_eol("abc\n"), ("abc", "\n"));
    assert_eq!(split_line_with_eol("abc\r"), ("abc\r", ""));
    assert_eq!(split_line_with_eol(""), ("", ""));
}

#[test]
fn pipeline_collects_the_required_extension() {
    let mut directives = PreprocessDirectives::default();
    let handlers = [RequireDirectiveHandler];
    assert_eq!(
        run_directive_pipeline("require a", &mut directives, &handlers).as_deref(),
        Some("# require a")
    );
    assert_eq!(run_directive_pipeline("query I", &mut directives, &handlers), None);
    assert_eq!(directives.required_extensions, vec!["a"]);
}

#[test]
fn token_names() {
    assert_eq!(parse_single_token_name("'httpfs'").as_deref(), Some("httpfs"));
    assert_eq!(parse_single_token_name("  httpfs extra").as_deref(), Some("httpfs"));
    assert_eq!(parse_single_token_name("'httpfs").as_deref(), Some("httpfs"));
    assert_eq!(parse_single_token_name("httpfs'").as_deref(), Some("httpfs"));
    assert_eq!(parse_single_token_name("'"), None);
    assert_eq!(parse_single_token_name("''"), None);
    assert_eq!(parse_single_token_name("  "), None);
    assert_eq!(parse_single_token_name(""), None);
}

#[test]
fn preprocessed_copy_lives_beside_the_script() {
    let name = preprocessed_copy_name("require_fail.slt", 42, 1_700_000_000_123);
    assert_eq!(name, "require_fail.slt.duckdb-slt-preprocessed-42-1700000000123");
    let run = PreprocessRun::new(
        format!("tests/{name}"),
        PreprocessDirectives { required_extensions: vec!["httpfs".to_string()] },
    );
    assert_eq!(run.preprocessed_path(), format!("tests/{name}"));
    assert_eq!(run.directives.required_extensions, vec!["httpfs".to_string()]);
}

#[test]
fn preprocessing_twice_changes_nothing_more() {
    let script = "require httpfs\r\nrequire 'parquet'\nstatement ok\nSELECT 1;";
    let (once, directives) = preprocess_script(script).unwrap();
    assert_eq!(once, "# require httpfs\r\n# require 'parquet'\nstatement ok\nSELECT 1;");
    assert_eq!(directives.required_extensions, vec!["httpfs", "parquet"]);
    assert!(preprocess_script(&once).is_none());
}
