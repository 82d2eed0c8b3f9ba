use duckdb_slt::extensions::{
    compile_extension_actions, escape_sql_string_literal, format_repository_expression,
    is_path_spec, parse_extension_spec, sql_for_extension_spec, ExtensionSpec, ExtensionSpecError,
};
use duckdb_slt::runtime::{compile_extensions, setup_statements};

#[test]
fn parse_name() {
    assert_eq!(
        parse_extension_spec("json").unwrap(),
        ExtensionSpec::Name("json".into())
    );
}

#[test]
fn parse_community() {
    assert_eq!(
        parse_extension_spec("spatial@community").unwrap(),
        ExtensionSpec::RepositoryName {
            name: "spatial".into(),
            repository: "community".into()
        }
    );
}

#[test]
fn parse_custom_repository_url() {
    assert_eq!(
        parse_extension_spec("custom_extension@https://my-custom-extension-repository").unwrap(),
        ExtensionSpec::RepositoryName {
            name: "custom_extension".into(),
            repository: "https://my-custom-extension-repository".into()
        }
    );
}

#[test]
fn parse_path() {
    assert_eq!(
        parse_extension_spec("path/to/ext.duckdb_extension").unwrap(),
        ExtensionSpec::Path("path/to/ext.duckdb_extension".into())
    );
}

#[test]
fn reject_malformed_spec() {
    assert!(parse_extension_spec("").is_err());
    assert!(parse_extension_spec("@community").is_err());
    assert!(parse_extension_spec("spatial@").is_err());
    assert!(parse_extension_spec("a@b@community").is_err());
}

#[test]
fn sql_for_name() {
    let (install, load) = sql_for_extension_spec(&ExtensionSpec::Name("json".into()));
    assert_eq!(install, "INSTALL 'json';");
    assert_eq!(load, "LOAD 'json';");
}

#[test]
fn sql_for_community() {
    let (install, load) = sql_for_extension_spec(&ExtensionSpec::RepositoryName {
        name: "spatial".into(),
        repository: "community".into(),
    });
    assert_eq!(install, "INSTALL 'spatial' FROM community;");
    assert_eq!(load, "LOAD 'spatial';");
}

#[test]
fn sql_for_custom_repository_url() {
    let (install, load) = sql_for_extension_spec(&ExtensionSpec::RepositoryName {
        name: "custom_extension".into(),
        repository: "https://my-custom-extension-repository".into(),
    });
    assert_eq!(
        install,
        "INSTALL 'custom_extension' FROM 'https://my-custom-extension-repository';"
    );
    assert_eq!(load, "LOAD 'custom_extension';");
}

#[test]
fn sql_for_path() {
    let (install, load) =
        sql_for_extension_spec(&ExtensionSpec::Path("path/to/ext.duckdb_extension".into()));
    assert_eq!(install, "INSTALL 'path/to/ext.duckdb_extension';");
    assert_eq!(load, "LOAD 'path/to/ext.duckdb_extension';");
}

#[test]
fn escape_single_quotes_in_path() {
    let (install, load) = sql_for_extension_spec(&ExtensionSpec::Path(
        "path/with'quote/ext.duckdb_extension".into(),
    ));
    assert_eq!(install, "INSTALL 'path/with''quote/ext.duckdb_extension';");
    assert_eq!(load, "LOAD 'path/with''quote/ext.duckdb_extension';");
}

#[test]
fn parse_trims_surrounding_white_space() {
    assert_eq!(
        parse_extension_spec("  json\t").unwrap(),
        ExtensionSpec::Name("json".into())
    );
    assert_eq!(
        parse_extension_spec(" \u{3000}spatial@community\n").unwrap(),
        ExtensionSpec::RepositoryName {
            name: "spatial".into(),
            repository: "community".into()
        }
    );
}

#[test]
fn parse_errors_name_the_spec() {
    assert_eq!(parse_extension_spec("   ").unwrap_err(), ExtensionSpecError::Empty);
    assert_eq!(
        parse_extension_spec(" a@b@c ").unwrap_err(),
        ExtensionSpecError::Invalid("a@b@c".to_string())
    );
    assert_eq!(
        ExtensionSpecError::Invalid("a@".to_string()).message(),
        "invalid extension spec: 'a@'"
    );
    assert_eq!(ExtensionSpecError::Empty.message(), "extension spec is empty");
}

#[test]
fn path_specs_are_recognised() {
    assert!(is_path_spec("ext.duckdb_extension"));
    assert!(is_path_spec("dir\\ext"));
    assert!(is_path_spec("./ext"));
    assert!(!is_path_spec("json"));
    assert!(!is_path_spec("duckdb_extension"));
    assert_eq!(
        parse_extension_spec("dir\\quack").unwrap(),
        ExtensionSpec::Path("dir\\quack".into())
    );
}

#[test]
fn repository_expressions() {
    assert_eq!(format_repository_expression("core_nightly"), "core_nightly");
    assert_eq!(format_repository_expression("_x9"), "_x9");
    assert_eq!(format_repository_expression("9x"), "'9x'");
    assert_eq!(format_repository_expression("it's"), "'it''s'");
    assert_eq!(format_repository_expression(""), "''");
}

#[test]
fn escaping_doubles_every_quote() {
    assert_eq!(escape_sql_string_literal(""), "");
    assert_eq!(escape_sql_string_literal("'"), "''");
    assert_eq!(escape_sql_string_literal("a''b"), "a''''b");
    assert_eq!(escape_sql_string_literal("ünï'côdé"), "ünï''côdé");
}

#[test]
fn compile_keeps_the_raw_spec_for_display() {
    let actions = compile_extension_actions(" httpfs@core ").unwrap();
    assert_eq!(actions.display, " httpfs@core ");
    assert_eq!(actions.install_sql, "INSTALL 'httpfs' FROM core;");
    assert_eq!(actions.load_sql, "LOAD 'httpfs';");
    assert_eq!(
        compile_extension_actions("@x").unwrap_err(),
        ExtensionSpecError::Invalid("@x".to_string())
    );
}

#[test]
fn compile_extensions_keeps_command_line_order() {
    let specs = vec!["json".to_string(), "spatial@community".to_string()];
    let actions = compile_extensions(&specs).unwrap();
    assert_eq!(actions.len(), 2);
    assert_eq!(actions[0].install_sql, "INSTALL 'json';");
    assert_eq!(actions[1].install_sql, "INSTALL 'spatial' FROM community;");

    let setup = setup_statements(&actions, &["quack".to_string(), "o'k".to_string()]);
    assert_eq!(
        setup.required,
        vec![
            ("INSTALL 'json';".to_string(), "LOAD 'json';".to_string()),
            (
                "INSTALL 'spatial' FROM community;".to_string(),
                "LOAD 'spatial';".to_string()
            ),
        ]
    );
    assert_eq!(setup.best_effort, vec!["LOAD 'quack';", "LOAD 'o''k';"]);
}

#[test]
fn compile_extensions_stops_at_the_first_bad_spec() {
    let specs = vec!["json".to_string(), " ".to_string(), "x@".to_string()];
    assert_eq!(compile_extensions(&specs).unwrap_err(), ExtensionSpecError::Empty);
}

#[test]
fn escaping_adds_one_character_per_quote() {
    let s = "it's a ''test''";
    let e = escape_sql_string_literal(s);
    assert_eq!(e.chars().count(), s.chars().count() + s.matches('\'').count());
    assert_eq!(e.replace("''", "'"), s);
    assert_eq!(e, "it''s a ''''test''''");
}
