use duckdb_slt::ordering::stable_sort_order;
use duckdb_slt::pathing::{
    expand_file_list, format_user_path, format_user_path_str, glob_pattern_text,
    looks_like_glob_pattern, normalize_glob_pattern, order_glob_matches, user_path_text,
};
use std::path::Path;

#[test]
fn strips_base_dir_from_display_path() {
    let base_dir = Path::new("workspace");
    let path = base_dir.join("tests").join("pass.slt");

    assert_eq!(
        format_user_path(&base_dir.to_string_lossy(), &path.to_string_lossy()),
        Path::new("tests").join("pass.slt").display().to_string()
    );
}

#[test]
fn absolute_raw_path_uses_strip_prefix_rules() {
    let base_dir = Path::new("/tmp").join("duckdb-slt-pathing-tests");
    let path = base_dir.join("fixtures").join("pass.slt");
    let raw = path.to_string_lossy();

    assert_eq!(
        format_user_path_str(&base_dir.to_string_lossy(), raw.as_ref()),
        Path::new("fixtures").join("pass.slt").display().to_string()
    );
}

#[test]
fn relative_raw_path_normalizes_slashes() {
    let raw = "fixtures/pass\\pass.slt";
    let expected = format!(
        "fixtures{sep}pass{sep}pass.slt",
        sep = std::path::MAIN_SEPARATOR
    );

    assert_eq!(format_user_path_str(".", raw), expected);
}

#[test]
fn paths_outside_the_base_are_kept() {
    assert_eq!(format_user_path("/a/b", "/c/d.slt"), "/c/d.slt");
    assert_eq!(format_user_path("/a", "/a"), "");
    assert_eq!(user_path_text("x/y\\z", false, None, '\\'), "x\\y\\z");
    assert_eq!(user_path_text("x/y\\z", false, Some("z".to_string()), '/'), "x/y/z");
    assert_eq!(user_path_text("/base/q", true, Some("q".to_string()), '/'), "q");
    assert_eq!(user_path_text("/other/q", true, None, '/'), "/other/q");
}

#[test]
fn glob_patterns() {
    assert!(looks_like_glob_pattern("tests/pass*.slt"));
    assert!(looks_like_glob_pattern("a?.slt"));
    assert!(looks_like_glob_pattern("[ab].slt"));
    assert!(looks_like_glob_pattern("{a,b}.slt"));
    assert!(!looks_like_glob_pattern("tests/pass.slt"));
    let normalized = normalize_glob_pattern("a\\b*.slt");
    if std::path::MAIN_SEPARATOR == '\\' {
        assert_eq!(normalized, "a/b*.slt");
    } else {
        assert_eq!(normalized, "a\\b*.slt");
    }
}

#[test]
fn glob_matches_run_in_path_order() {
    let matches = vec![
        "b.slt".to_string(),
        "a2.slt".to_string(),
        "a10.slt".to_string(),
        "b.slt".to_string(),
        "A.slt".to_string(),
    ];
    assert_eq!(order_glob_matches("*.slt", &matches).unwrap(), vec![4, 2, 1, 0, 3]);
    assert_eq!(
        order_glob_matches("none*.slt", &Vec::new()).unwrap_err(),
        "glob pattern matched no files: none*.slt"
    );
    assert_eq!(stable_sort_order(&vec!["é".to_string(), "z".to_string()]), vec![1, 0]);
}

#[test]
fn paths_under_the_base_are_shown_by_name() {
    assert_eq!(format_user_path("/work/suite", "/work/suite"), "");
    assert_eq!(format_user_path("/work/suite", "/work/suite/a.slt"), "a.slt");
    let shown = format_user_path_str("/work/suite", "/work/suite/a.slt");
    if std::path::MAIN_SEPARATOR == '/' {
        assert_eq!(shown, "a.slt");
    } else {
        assert_eq!(shown, "\\work\\suite\\a.slt");
    }
}

#[test]
fn nested_paths_under_the_base_are_shown_relative() {
    assert_eq!(format_user_path("/work", "/work/tests/fixtures/x.slt"), "tests/fixtures/x.slt");
    assert_eq!(format_user_path("/work", "/other/x.slt"), "/other/x.slt");
    assert_eq!(format_user_path("/work", "/workshop/x.slt"), "/workshop/x.slt");
    let nested = format_user_path_str("/work", "/work/tests/x.slt");
    let outside = format_user_path_str("/work", "/elsewhere/x.slt");
    if std::path::MAIN_SEPARATOR == '/' {
        assert_eq!(nested, "tests/x.slt");
        assert_eq!(outside, "/elsewhere/x.slt");
    } else {
        assert_eq!(nested, "\\work\\tests\\x.slt");
        assert_eq!(outside, "\\elsewhere\\x.slt");
    }
}

#[test]
fn glob_patterns_per_platform() {
    assert_eq!(glob_pattern_text("a\\b*.slt", '\\'), "a/b*.slt");
    assert_eq!(glob_pattern_text("a\\b*.slt", '/'), "a\\b*.slt");
}

#[test]
fn expanded_file_list_keeps_argument_order() {
    let args = vec!["z.slt".to_string(), "t/*.slt".to_string(), "a.slt".to_string()];
    let matches = vec![
        Vec::new(),
        vec!["t/b.slt".to_string(), "t/a.slt".to_string()],
        Vec::new(),
    ];
    assert_eq!(
        expand_file_list(&args, '/', &matches).unwrap(),
        vec![(0, None), (1, Some(1)), (1, Some(0)), (2, None)]
    );

    let args = vec!["a.slt".to_string(), "none\\*.slt".to_string(), "x*.slt".to_string()];
    let matches = vec![Vec::new(), Vec::new(), Vec::new()];
    assert_eq!(
        expand_file_list(&args, '\\', &matches).unwrap_err(),
        "glob pattern matched no files: none/*.slt"
    );
}
