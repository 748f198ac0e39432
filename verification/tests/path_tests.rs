use model_manager::errors::ModelError;
use model_manager::path::{
    is_valid_path, normalize_path, parse_path, split_path, validate_path_for_setting,
    validate_path_for_setting_strict,
};

fn invalid_data_message(r: Result<(), ModelError>) -> String {
    match r {
        Err(ModelError::InvalidData(m)) => m,
        other => panic!("expected an invalid-data error, got {:?}", other),
    }
}

#[test]
fn parse_path_splits_on_dots() {
    assert_eq!(parse_path("user.address.city"), vec!["user", "address", "city"]);
}

#[test]
fn parse_path_of_empty_path_has_no_segments() {
    assert!(parse_path("").is_empty());
}

#[test]
fn parse_path_keeps_empty_segments() {
    assert_eq!(parse_path("a..b."), vec!["a", "", "b", ""]);
}

#[test]
fn split_path_of_empty_path_is_one_empty_piece() {
    assert_eq!(split_path(""), vec![""]);
    assert_eq!(split_path("x.y"), vec!["x", "y"]);
}

#[test]
fn normalize_path_trims_and_drops_empty_segments() {
    assert_eq!(normalize_path("  .a..b. "), "a.b");
    assert_eq!(normalize_path("\t user.name \n"), "user.name");
    assert_eq!(normalize_path("plain"), "plain");
}

#[test]
fn normalize_path_of_blank_path_is_empty() {
    assert_eq!(normalize_path("   "), "");
    assert_eq!(normalize_path("..."), "");
}

#[test]
fn is_valid_path_rejects_empty_paths_and_segments() {
    assert!(is_valid_path("a.b"));
    assert!(is_valid_path("a"));
    assert!(!is_valid_path(""));
    assert!(!is_valid_path("a..b"));
    assert!(!is_valid_path(".a"));
    assert!(!is_valid_path("a."));
}

#[test]
fn validate_path_for_setting_accepts_plain_paths() {
    assert!(validate_path_for_setting("a.b.c").is_ok());
    assert!(validate_path_for_setting("items[0].name").is_ok());
}

#[test]
fn validate_path_for_setting_refuses_empty_path() {
    assert_eq!(invalid_data_message(validate_path_for_setting("")), "Empty path not allowed");
}

#[test]
fn validate_path_for_setting_names_first_empty_segment() {
    assert_eq!(
        invalid_data_message(validate_path_for_setting("a..b")),
        "Invalid path 'a..b': empty segment at position 1"
    );
    assert_eq!(
        invalid_data_message(validate_path_for_setting(".a")),
        "Invalid path '.a': empty segment at position 0"
    );
}

#[test]
fn strict_validation_refuses_array_notation() {
    assert_eq!(
        invalid_data_message(validate_path_for_setting_strict("items[0].name")),
        "Invalid path 'items[0].name': array notation not supported in paths"
    );
    assert_eq!(
        invalid_data_message(validate_path_for_setting_strict("a]")),
        "Invalid path 'a]': array notation not supported in paths"
    );
    assert!(validate_path_for_setting_strict("a.b").is_ok());
}

#[test]
fn strict_validation_reports_empty_segment_before_brackets() {
    assert_eq!(
        invalid_data_message(validate_path_for_setting_strict("a[..b")),
        "Invalid path 'a[..b': empty segment at position 1"
    );
}
