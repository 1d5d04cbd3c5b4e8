use privguide::query::QueryMetadata;

#[test]
fn test_basic_key_value_pairs() {
    let content = r#"# key: and its value
# some number: 42
# multiline: strings with multiple lines can be encoded in the 
#  value if the comment starts with more than 2 spaces.
SELECT * WHERE { ?s ?p ?o }"#;

    let metadata = QueryMetadata::from_query(content);

    assert_eq!(metadata.get("key"), Some(&"and its value".to_string()));
    assert_eq!(metadata.get("some number"), Some(&"42".to_string()));
    assert_eq!(metadata.get("multiline"), Some(&"strings with multiple lines can be encoded in the value if the comment starts with more than 2 spaces.".to_string()));
    assert_eq!(metadata.len(), 3);
}

#[test]
fn test_mixed_comments() {
    let content = r#"# This is a regular comment
# key: value
# Another comment
# second key: another value
SELECT * WHERE { ?s ?p ?o }"#;

    let metadata = QueryMetadata::from_query(content);

    assert_eq!(metadata.get("key"), Some(&"value".to_string()));
    assert_eq!(
        metadata.get("second key"),
        Some(&"another value".to_string())
    );
    assert_eq!(metadata.len(), 2);
}

#[test]
fn test_empty_lines() {
    let content = "# \n# key: value\n#\n# another: test\nSELECT * WHERE { ?s ?p ?o }";

    let metadata = QueryMetadata::from_query(content);

    assert_eq!(metadata.get("key"), Some(&"value".to_string()));
    assert_eq!(metadata.get("another"), Some(&"test".to_string()));
    assert_eq!(metadata.len(), 2);
}

#[test]
fn test_multiline_with_multiple_continuations() {
    let content = r#"# description: This is a multi-line
#   description that spans
#   multiple continuation lines
#   and should be concatenated
# tags: sparql, query, test
SELECT * WHERE { ?s ?p ?o }"#;

    let metadata = QueryMetadata::from_query(content);

    assert_eq!(metadata.get("description"), Some(&"This is a multi-line description that spans multiple continuation lines and should be concatenated".to_string()));
    assert_eq!(
        metadata.get("tags"),
        Some(&"sparql, query, test".to_string())
    );
    assert_eq!(metadata.len(), 2);
}

#[test]
fn test_no_key_value_pairs() {
    let content = "# Just a regular comment\n# Another comment\nSELECT * WHERE { ?s ?p ?o }";

    let metadata = QueryMetadata::from_query(content);

    assert_eq!(metadata.len(), 0);
}

#[test]
fn test_exactly_two_spaces() {
    let content = r#"# multiline: first line
#  second line with exactly two spaces
#   third line with three spaces
SELECT * WHERE { ?s ?p ?o }"#;

    let metadata = QueryMetadata::from_query(content);

    assert_eq!(
        metadata.get("multiline"),
        Some(
            &"first line second line with exactly two spaces third line with three spaces"
                .to_string()
        )
    );
    assert_eq!(metadata.len(), 1);
}

#[test]
fn test_multiline_with_gap() {
    let content = r#"# multiline: first part
#  continuation
#
#  another continuation after empty line
SELECT * WHERE { ?s ?p ?o }"#;

    let metadata = QueryMetadata::from_query(content);

    assert_eq!(
        metadata.get("multiline"),
        Some(&"first part continuation another continuation after empty line".to_string())
    );
    assert_eq!(metadata.len(), 1);
}

#[test]
fn test_from_file_string() {
    let content = r#"# title: Example Query
# author: John Doe
# description: This query finds all subjects
SELECT ?s WHERE { ?s ?p ?o }"#;

    let metadata = QueryMetadata::from_query(content);

    assert_eq!(metadata.get("title"), Some(&"Example Query".to_string()));
    assert_eq!(metadata.get("author"), Some(&"John Doe".to_string()));
    assert_eq!(
        metadata.get("description"),
        Some(&"This query finds all subjects".to_string())
    );
    assert_eq!(metadata.len(), 3);
}

#[test]
fn metadata_stops_at_first_content_line() {
    let content = "# a: 1\nSELECT ?s\n# b: 2\n";
    let metadata = QueryMetadata::from_query(content);
    assert_eq!(metadata.get("a"), Some(&"1".to_string()));
    assert_eq!(metadata.get("b"), None);
    assert_eq!(metadata.len(), 1);
}

#[test]
fn metadata_skips_blank_lines_before_comment() {
    let content = "\n   \n# a: 1\n\n# b: 2\n";
    let metadata = QueryMetadata::from_query(content);
    assert_eq!(metadata.get("a"), Some(&"1".to_string()));
    assert_eq!(metadata.get("b"), None);
}

#[test]
fn metadata_later_key_replaces_earlier() {
    let content = "# a: 1\n# a: 2\r\n# c:\n#  x\n";
    let metadata = QueryMetadata::from_query(content);
    assert_eq!(metadata.get("a"), Some(&"2".to_string()));
    assert_eq!(metadata.get("c"), Some(&"x".to_string()));
    assert_eq!(metadata.len(), 2);
}

#[test]
fn metadata_value_splits_at_first_colon() {
    let content = "# url: http://example.com/x\n";
    let metadata = QueryMetadata::from_query(content);
    assert_eq!(metadata.get("url"), Some(&"http://example.com/x".to_string()));
}

#[test]
fn metadata_of_empty_query() {
    let metadata = QueryMetadata::from_query("");
    assert_eq!(metadata.len(), 0);
}

#[test]
fn keys_and_values_are_trimmed() {
    let metadata = QueryMetadata::from_query("#   key  :   value  \nSELECT 1");
    assert_eq!(metadata.get("key"), Some(&"value".to_string()));
    assert_eq!(metadata.len(), 1);
}

#[test]
fn only_the_top_block_counts_and_a_leading_newline_is_skipped() {
    let head = "# title: first\n# owner: me";
    let full = format!("{head}\nSELECT * WHERE {{ ?s ?p ?o }}\n# later: ignored\n");
    let a = QueryMetadata::from_query(&full);
    let b = QueryMetadata::from_query(head);
    assert_eq!(a.len(), 2);
    assert_eq!(b.len(), 2);
    assert_eq!(a.get("title"), b.get("title"));
    assert_eq!(a.get("owner"), Some(&"me".to_string()));
    assert_eq!(a.get("later"), None);
    let c = QueryMetadata::from_query(&format!("\n{head}"));
    assert_eq!(c.len(), 2);
    assert_eq!(c.get("title"), Some(&"first".to_string()));
}
