use privguide::analysis::{codegen_entries, codegen_field};
use privguide::database::MemDatabase;
use privguide::export::{inverse_prefix_map, triples_to_json, triples_to_json_with};
use privguide::json::JsonValue;
use privguide::rdf::{Literal, NamedOrBlankNode, Quad, Term};
use privguide::string_map::StringMap;

fn map(pairs: &[(&str, &str)]) -> StringMap {
    let mut m = StringMap::new();
    for (k, v) in pairs {
        m.insert(k.to_string(), v.to_string());
    }
    m
}

fn named(iri: &str) -> NamedOrBlankNode {
    NamedOrBlankNode::NamedNode(iri.to_string())
}

fn blank(id: &str) -> NamedOrBlankNode {
    NamedOrBlankNode::BlankNode(id.to_string())
}

fn lit(v: &str) -> Term {
    Term::Literal(Literal {
        value: v.to_string(),
        datatype: "http://www.w3.org/2001/XMLSchema#string".to_string(),
        language: None,
    })
}

fn quad(s: NamedOrBlankNode, p: &str, o: Term) -> Quad {
    Quad { subject: s, predicate: p.to_string(), object: o }
}

fn render(v: &JsonValue) -> String {
    match v {
        JsonValue::Null => "null".to_string(),
        JsonValue::Bool(b) => b.to_string(),
        JsonValue::Number(n) => n.text.clone(),
        JsonValue::String(s) => format!("{s:?}"),
        JsonValue::Array(items) => {
            format!("[{}]", items.iter().map(render).collect::<Vec<_>>().join(","))
        },
        JsonValue::Object(entries) => format!(
            "{{{}}}",
            entries.iter().map(|(k, v)| format!("{k:?}:{}", render(v))).collect::<Vec<_>>().join(",")
        ),
    }
}

const ROOT: &str = "http://example.com/ROOT";

fn codegen_graph() -> Vec<Quad> {
    vec![
        quad(named(ROOT), "http://example.com/all", Term::BlankNode("e1".to_string())),
        quad(blank("e1"), "http://example.com/f_name", lit("a.txt")),
        quad(blank("e1"), "http://example.com/f_tpl", lit("t.tera")),
        quad(named(ROOT), "http://example.com/all", Term::BlankNode("e2".to_string())),
        quad(blank("e2"), "http://example.com/f_name", lit("b.txt")),
        quad(blank("e2"), "http://other.org/x", Term::NamedNode("http://other.org/y".to_string())),
    ]
}

#[test]
fn graph_becomes_nested_json() {
    let inv = map(&[("http://example.com", "ex")]);
    let json = triples_to_json_with(&inv, &codegen_graph());
    assert_eq!(
        render(&json),
        r#"{"ex_all":[{"ex_f_name":["a.txt"],"ex_f_tpl":["t.tera"]},{"ex_f_name":["b.txt"],"http://other.org/x":["http://other.org/y"]}]}"#
    );
}

#[test]
fn codegen_entries_and_fields_are_read_from_the_tree() {
    let inv = map(&[("http://example.com", "ex")]);
    let json = triples_to_json_with(&inv, &codegen_graph());
    let entries = codegen_entries(&json).unwrap();
    assert_eq!(entries.len(), 2);
    assert_eq!(codegen_field(&entries[0], "ex_f_name"), "a.txt");
    assert_eq!(codegen_field(&entries[0], "ex_f_tpl"), "t.tera");
    assert_eq!(codegen_field(&entries[1], "ex_f_tpl"), "NONE");
    assert_eq!(codegen_field(&JsonValue::Null, "ex_f_name"), "NONE");
}

#[test]
fn graph_without_root_edges_is_the_root_iri() {
    let inv = map(&[]);
    let json = triples_to_json_with(&inv, &vec![quad(blank("x"), "http://example.com/p", lit("v"))]);
    assert_eq!(render(&json), format!("{ROOT:?}"));
    assert!(codegen_entries(&json).is_none());
}

#[test]
fn cycles_are_walked_once() {
    let inv = map(&[("http://example.com", "ex")]);
    let triples = vec![
        quad(named(ROOT), "http://example.com/q", Term::BlankNode("x".to_string())),
        quad(blank("x"), "http://example.com/p", Term::BlankNode("y".to_string())),
        quad(blank("y"), "http://example.com/p", Term::BlankNode("x".to_string())),
    ];
    let json = triples_to_json_with(&inv, &triples);
    assert_eq!(render(&json), r#"{"ex_q":[{"ex_p":[{"ex_p":["x"]}]}]}"#);
}

#[test]
fn inverse_prefix_map_drops_trailing_slashes() {
    let inv = inverse_prefix_map(&map(&[("ex", "http://example.com//"), ("o", "http://other.org")]));
    assert_eq!(inv.get("http://example.com"), Some(&"ex".to_string()));
    assert_eq!(inv.get("http://other.org"), Some(&"o".to_string()));
    assert_eq!(inv.len(), 2);
}

#[test]
fn database_prefixes_name_the_keys() {
    let db = MemDatabase::new(map(&[("ex", "http://example.com/")]), map(&[])).unwrap();
    let rows: Vec<Result<Quad, oxigraph::sparql::QueryEvaluationError>> =
        codegen_graph().into_iter().map(Ok).collect();
    let json = triples_to_json(&db, rows);
    let entries = codegen_entries(&json).unwrap();
    assert_eq!(codegen_field(&entries[1], "ex_f_name"), "b.txt");
}

#[test]
fn labelled_graph_has_a_node_per_subject_and_per_other_object() {
    let triples = vec![
        quad(named(ROOT), "http://example.com/all", Term::BlankNode("e1".to_string())),
        quad(blank("e1"), "http://example.com/f_name", lit("a.txt")),
        quad(named(ROOT), "http://example.com/all", lit("x")),
    ];
    let g = privguide::graph::generate_graph(&triples);
    assert_eq!(
        g.nodes,
        vec![
            format!("<{ROOT}>"),
            "_:e1".to_string(),
            "\"x\"".to_string(),
            "\"a.txt\"".to_string(),
        ]
    );
    assert_eq!(
        g.edges,
        vec![
            (0, 1, "<http://example.com/all>".to_string()),
            (0, 2, "<http://example.com/all>".to_string()),
            (1, 3, "<http://example.com/f_name>".to_string()),
        ]
    );
}
