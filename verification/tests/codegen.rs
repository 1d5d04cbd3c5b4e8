use privguide::codegen::{load_templates, render_all};
use privguide::json::JsonValue;

fn s(text: &str) -> JsonValue {
    JsonValue::String(text.to_string())
}

fn entry(file: &str, tpl: &str, who: &str) -> JsonValue {
    JsonValue::Object(vec![
        ("ex_f_name".to_string(), JsonValue::Array(vec![s(file)])),
        ("ex_f_tpl".to_string(), JsonValue::Array(vec![s(tpl)])),
        ("who".to_string(), s(who)),
    ])
}

fn templates(pairs: &[(&str, &str)]) -> Vec<(String, String)> {
    pairs.iter().map(|(n, t)| (n.to_string(), t.to_string())).collect()
}

#[test]
fn each_entry_is_rendered_with_the_template_it_names() {
    let engine = load_templates(&templates(&[("hello.tpl", "Hello {{ who }}!"), ("bye.tpl", "Bye {{ who }}.")])).unwrap();
    let entries = vec![entry("out/a.txt", "hello.tpl", "world"), entry("b.txt", "bye.tpl", "<all>")];
    let files = render_all(&engine, &entries);
    assert_eq!(files.len(), 2);
    assert_eq!(files[0].file_name, "out/a.txt");
    assert_eq!(files[0].template, "hello.tpl");
    assert_eq!(files[0].content.as_ref().unwrap(), "Hello world!");
    assert_eq!(files[1].file_name, "b.txt");
    assert_eq!(files[1].content.as_ref().unwrap(), "Bye <all>.");
}

#[test]
fn unknown_template_is_a_render_error() {
    let engine = load_templates(&templates(&[("hello.tpl", "Hello {{ who }}!")])).unwrap();
    let files = render_all(&engine, &vec![entry("x.txt", "missing.tpl", "w")]);
    assert_eq!(files[0].template, "missing.tpl");
    assert!(files[0].content.is_err());
}

#[test]
fn entry_without_fields_names_none() {
    let engine = load_templates(&templates(&[("NONE", "plain")])).unwrap();
    let files = render_all(&engine, &vec![JsonValue::Object(Vec::new())]);
    assert_eq!(files[0].file_name, "NONE");
    assert_eq!(files[0].template, "NONE");
    assert_eq!(files[0].content.as_ref().unwrap(), "plain");
}

#[test]
fn template_that_does_not_parse_fails_to_load() {
    assert!(load_templates(&templates(&[("bad.tpl", "{{ unclosed")])).is_err());
}

#[test]
fn no_entries_give_no_files() {
    let engine = load_templates(&Vec::new()).unwrap();
    assert!(render_all(&engine, &Vec::new()).is_empty());
}
