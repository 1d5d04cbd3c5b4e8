use privguide::error::{ConversionError, DataLoadError};
use privguide::string_map::StringMap;
use privguide::workspace::{
    equal_ignoring_ascii_case, extract_placeholder_from_path, file_extension, file_prefix_for,
    file_stem, format_of_path, is_query_extension, placeholder_from_stem, query_subdirectories,
    Format, QueryKind,
};

#[test]
fn placeholder_is_after_the_last_underscore_of_the_stem() {
    assert_eq!(extract_placeholder_from_path("desc/system_db.json"), Some("db".to_string()));
    assert_eq!(extract_placeholder_from_path("desc/a_b_c.yaml"), Some("c".to_string()));
    assert_eq!(extract_placeholder_from_path("desc/system_.json"), None);
    assert_eq!(extract_placeholder_from_path("desc/system.json"), None);
    assert_eq!(extract_placeholder_from_path("desc/x_y.tar.gz"), Some("y.tar".to_string()));
    assert_eq!(placeholder_from_stem("only"), None);
}

#[test]
fn stems_and_extensions_follow_the_last_dot() {
    assert_eq!(file_stem("a.b.c"), "a.b");
    assert_eq!(file_stem(".hidden"), ".hidden");
    assert_eq!(file_stem("plain"), "plain");
    assert_eq!(file_extension("a.b.c"), Some("c".to_string()));
    assert_eq!(file_extension(".hidden"), None);
    assert_eq!(file_extension("a."), Some("".to_string()));
}

#[test]
fn formats_by_extension() {
    assert_eq!(format_of_path("d/x_a.json").unwrap(), Format::JSON);
    assert_eq!(format_of_path("d/x_a.yml").unwrap(), Format::YAML);
    assert_eq!(format_of_path("d/x_a.yaml").unwrap(), Format::YAML);
    match format_of_path("d/x_a.toml") {
        Err(ConversionError::UnsupportedExtensionError(e)) => assert_eq!(e, "toml"),
        other => panic!("unexpected {other:?}"),
    }
    match format_of_path("d/noext") {
        Err(ConversionError::UnsupportedExtensionError(e)) => assert_eq!(e, ""),
        other => panic!("unexpected {other:?}"),
    }
}

#[test]
fn query_extensions_ignore_ascii_case() {
    assert!(is_query_extension("rq"));
    assert!(is_query_extension("SpArQl"));
    assert!(!is_query_extension("sql"));
    assert!(equal_ignoring_ascii_case("ABC", "abc"));
    assert!(!equal_ignoring_ascii_case("abc", "abcd"));
}

#[test]
fn file_prefix_errors_name_what_is_missing() {
    let mut prefixes = StringMap::new();
    prefixes.insert("db".to_string(), "ex".to_string());
    assert_eq!(file_prefix_for(&prefixes, "d/system_db.json").unwrap(), "ex");
    match file_prefix_for(&prefixes, "d/system_net.json") {
        Err(DataLoadError::FileExtensionHasNoPrefixError(p)) => assert_eq!(p, "net"),
        other => panic!("unexpected {other:?}"),
    }
    match file_prefix_for(&prefixes, "d/system.json") {
        Err(DataLoadError::FileWithNoExtensionError(p)) => assert_eq!(p, "d/system.json"),
        other => panic!("unexpected {other:?}"),
    }
}

#[test]
fn query_subdirectories_name_their_kinds() {
    let dirs = query_subdirectories();
    let names: Vec<&str> = dirs.iter().map(|(d, _)| d.as_str()).collect();
    assert_eq!(names, vec!["attack_trees", "reasoner", "regulations", "report_data", "requirements"]);
    assert_eq!(dirs[3].1, QueryKind::ExtraData);
}
