use privguide::export::uri_to_json_var;
use privguide::string_map::StringMap;

fn map(pairs: &[(&str, &str)]) -> StringMap {
    let mut m = StringMap::new();
    for (k, v) in pairs {
        m.insert(k.to_string(), v.to_string());
    }
    m
}

#[test]
fn test_uri_conversion() {
    let prefixes = map(&[("http://example.com", "ex")]);
    let s = "<http://example.com/prop1>".to_string();

    let expected = "ex_prop1".to_string();
    let actual = uri_to_json_var(&prefixes, s).unwrap();
    assert_eq!(expected, actual);
}

#[test]
fn uri_without_brackets_is_converted() {
    let prefixes = map(&[("http://example.com", "ex")]);
    assert_eq!(uri_to_json_var(&prefixes, "http://example.com/a".to_string()), Some("ex_a".to_string()));
}

#[test]
fn uri_with_unknown_base_has_no_name() {
    let prefixes = map(&[("http://example.com", "ex")]);
    assert_eq!(uri_to_json_var(&prefixes, "<http://other.org/a>".to_string()), None);
    assert_eq!(uri_to_json_var(&prefixes, "noslash".to_string()), None);
}

#[test]
fn uri_base_is_before_last_slash() {
    let prefixes = map(&[("http://example.com/a", "ea")]);
    assert_eq!(uri_to_json_var(&prefixes, "<<http://example.com/a/b>>".to_string()), Some("ea_b".to_string()));
}
