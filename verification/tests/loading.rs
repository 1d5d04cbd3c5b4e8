use privguide::database::{Database, MemDatabase};
use privguide::error::DatabaseLoadError;
use privguide::json::{JsonNumber, JsonValue};
use privguide::loader::{file_quads, rdf_object_from_value};
use privguide::rdf::{NamedOrBlankNode, Quad, Term};
use privguide::string_map::StringMap;

fn map(pairs: &[(&str, &str)]) -> StringMap {
    let mut m = StringMap::new();
    for (k, v) in pairs {
        m.insert(k.to_string(), v.to_string());
    }
    m
}

fn s(text: &str) -> JsonValue {
    JsonValue::String(text.to_string())
}

fn obj(entries: Vec<(&str, JsonValue)>) -> JsonValue {
    JsonValue::Object(entries.into_iter().map(|(k, v)| (k.to_string(), v)).collect())
}

fn term_text(t: &Term) -> String {
    match t {
        Term::NamedNode(iri) => format!("<{iri}>"),
        Term::BlankNode(id) => format!("_:{id}"),
        Term::Literal(l) => format!("\"{}\"^^<{}>", l.value, l.datatype),
    }
}

fn quad_text(q: &Quad) -> String {
    let subject = match &q.subject {
        NamedOrBlankNode::NamedNode(iri) => format!("<{iri}>"),
        NamedOrBlankNode::BlankNode(id) => format!("_:{id}"),
    };
    format!("{} <{}> {}", subject, q.predicate, term_text(&q.object))
}

fn texts(quads: &[Quad]) -> Vec<String> {
    quads.iter().map(quad_text).collect()
}

const XSD: &str = "http://www.w3.org/2001/XMLSchema#";

#[test]
fn nested_object_with_id_becomes_named_subject() {
    let prefixes = map(&[("ex", "http://example.com")]);
    let value = obj(vec![
        ("name", s("svc")),
        ("owner", obj(vec![("id", s("alice")), ("role", s("admin"))])),
    ]);
    let mut next: u128 = 0;
    let quads = file_quads(&prefixes, &value, "ex", &mut next).unwrap();
    assert_eq!(
        texts(&quads),
        vec![
            "<http://example.com/ROOT> <http://example.com/owner> <http://example.com/alice>".to_string(),
            format!("<http://example.com/ROOT> <http://example.com/name> \"svc\"^^<{XSD}string>"),
            format!("<http://example.com/alice> <http://example.com/role> \"admin\"^^<{XSD}string>"),
        ]
    );
    assert_eq!(next, 0);
}

#[test]
fn nested_objects_without_id_get_numbered_blank_nodes() {
    let prefixes = map(&[("ex", "http://example.com")]);
    let value = obj(vec![
        ("a", obj(vec![("x", s("1"))])),
        ("b", JsonValue::Array(vec![obj(vec![("y", s("2"))]), s("plain")])),
    ]);
    let mut next: u128 = 10;
    let quads = file_quads(&prefixes, &value, "ex", &mut next).unwrap();
    assert_eq!(
        texts(&quads),
        vec![
            format!("<http://example.com/ROOT> <http://example.com/b> \"plain\"^^<{XSD}string>"),
            "<http://example.com/ROOT> <http://example.com/b> _:a".to_string(),
            "<http://example.com/ROOT> <http://example.com/a> _:b".to_string(),
            format!("_:b <http://example.com/x> \"1\"^^<{XSD}string>"),
            format!("_:a <http://example.com/y> \"2\"^^<{XSD}string>"),
        ]
    );
    assert_eq!(next, 12);
}

#[test]
fn scalar_document_gives_value_quad() {
    let prefixes = map(&[("ex", "http://example.com")]);
    let value = JsonValue::Number(JsonNumber { text: "42".to_string(), is_float: false });
    let mut next: u128 = 0;
    let quads = file_quads(&prefixes, &value, "ex", &mut next).unwrap();
    assert_eq!(
        texts(&quads),
        vec![format!("<http://example.com/ROOT> <http://example.com/value> \"42\"^^<{XSD}integer>")]
    );
}

#[test]
fn unknown_default_prefix_is_refused() {
    let prefixes = map(&[("ex", "http://example.com")]);
    let mut next: u128 = 0;
    match file_quads(&prefixes, &s("x"), "nope", &mut next) {
        Err(DatabaseLoadError::PrefixNotFoundError(p)) => assert_eq!(p, "nope"),
        other => panic!("unexpected {other:?}"),
    }
}

#[test]
fn non_string_id_is_unparseable() {
    let prefixes = map(&[("ex", "http://example.com")]);
    let value = obj(vec![("owner", obj(vec![("id", JsonValue::Bool(true))]))]);
    let mut next: u128 = 0;
    assert!(matches!(
        file_quads(&prefixes, &value, "ex", &mut next),
        Err(DatabaseLoadError::UnparseableObjectError)
    ));
}

#[test]
fn null_value_is_unparseable() {
    let prefixes = map(&[("ex", "http://example.com")]);
    let value = obj(vec![("x", JsonValue::Null)]);
    let mut next: u128 = 0;
    assert!(matches!(
        file_quads(&prefixes, &value, "ex", &mut next),
        Err(DatabaseLoadError::UnparseableObjectError)
    ));
}

#[test]
fn invalid_iri_is_refused() {
    let prefixes = map(&[("ex", "http://example.com")]);
    let value = obj(vec![("bad key", s("x"))]);
    let mut next: u128 = 0;
    assert!(matches!(
        file_quads(&prefixes, &value, "ex", &mut next),
        Err(DatabaseLoadError::IRIParseError(_))
    ));
}

#[test]
fn prefixed_string_becomes_named_node() {
    let prefixes = map(&[("ex", "http://example.com"), ("foaf", "http://xmlns.com/foaf/0.1")]);
    let t = rdf_object_from_value(&prefixes, &s("foaf:Person")).unwrap();
    assert_eq!(term_text(&t), "<http://xmlns.com/foaf/0.1/Person>");
}

#[test]
fn unknown_prefix_in_value_is_refused() {
    let prefixes = map(&[("ex", "http://example.com")]);
    match rdf_object_from_value(&prefixes, &s("zz:thing")) {
        Err(DatabaseLoadError::PrefixNotFoundError(p)) => assert_eq!(p, "zz"),
        other => panic!("unexpected {other:?}"),
    }
}

#[test]
fn numbers_and_booleans_are_typed_literals() {
    let prefixes = map(&[]);
    let int = JsonValue::Number(JsonNumber { text: "7".to_string(), is_float: false });
    let float = JsonValue::Number(JsonNumber { text: "1.5".to_string(), is_float: true });
    assert_eq!(term_text(&rdf_object_from_value(&prefixes, &int).unwrap()), format!("\"7\"^^<{XSD}integer>"));
    assert_eq!(term_text(&rdf_object_from_value(&prefixes, &float).unwrap()), format!("\"1.5\"^^<{XSD}decimal>"));
    assert_eq!(
        term_text(&rdf_object_from_value(&prefixes, &JsonValue::Bool(false)).unwrap()),
        format!("\"false\"^^<{XSD}boolean>")
    );
    assert_eq!(term_text(&rdf_object_from_value(&prefixes, &s("text with: colon")).unwrap()), format!("\"text with: colon\"^^<{XSD}string>"));
}

#[test]
fn database_numbers_blank_nodes_across_files() {
    let mut db = MemDatabase::new(map(&[("ex", "http://example.com")]), map(&[])).unwrap();
    let value = obj(vec![("a", obj(vec![("x", s("1"))]))]);
    let first = db.file_data_quads(&value, "ex").unwrap();
    let second = db.file_data_quads(&value, "ex").unwrap();
    assert_eq!(texts(&first)[0], "<http://example.com/ROOT> <http://example.com/a> _:0");
    assert_eq!(texts(&second)[0], "<http://example.com/ROOT> <http://example.com/a> _:1");
}

#[test]
fn prefix_pattern_needs_leading_letters_and_stops_at_a_line_feed() {
    let prefixes = map(&[("ex", "http://example.com")]);
    assert_eq!(term_text(&rdf_object_from_value(&prefixes, &s("ex:a")).unwrap()), "<http://example.com/a>");
    assert_eq!(term_text(&rdf_object_from_value(&prefixes, &s("e1:x")).unwrap()), format!("\"e1:x\"^^<{XSD}string>"));
    assert_eq!(term_text(&rdf_object_from_value(&prefixes, &s(":x")).unwrap()), format!("\":x\"^^<{XSD}string>"));
    assert!(matches!(
        rdf_object_from_value(&prefixes, &s("ex:a\nb")),
        Ok(Term::NamedNode(iri)) if iri == "http://example.com/a"
    ));
}

fn store_rows(db: &mut MemDatabase) -> Vec<String> {
    db.load_query("all".to_string(), privguide::query::Query::from_string("SELECT ?s ?p ?o WHERE { ?s ?p ?o }".to_string()));
    let mut rows: Vec<String> = db
        .execute_query("all")
        .unwrap()
        .into_iter()
        .map(|row| row.into_iter().map(|(_, v)| v).collect::<Vec<_>>().join(" "))
        .collect();
    rows.sort();
    rows
}

fn loaded(value: JsonValue) -> Vec<String> {
    let mut db = MemDatabase::new(map(&[("ex", "http://example.com")]), map(&[])).unwrap();
    db.load_file_data(&value, "ex").unwrap();
    store_rows(&mut db)
}

#[test]
fn loaded_object_with_id_is_in_the_store() {
    let value = obj(vec![(
        "user",
        obj(vec![("id", s("u1")), ("age", JsonValue::Number(JsonNumber { text: "30".to_string(), is_float: false }))]),
    )]);
    assert_eq!(
        loaded(value),
        vec![
            "<http://example.com/ROOT> <http://example.com/user> <http://example.com/u1>".to_string(),
            "<http://example.com/u1> <http://example.com/age> 30".to_string(),
        ]
    );
}

#[test]
fn loaded_top_level_array_gives_value_quads() {
    let value = JsonValue::Array(vec![
        JsonValue::Number(JsonNumber { text: "5".to_string(), is_float: false }),
        JsonValue::Bool(true),
    ]);
    assert_eq!(
        loaded(value),
        vec![
            "<http://example.com/ROOT> <http://example.com/value> 5".to_string(),
            "<http://example.com/ROOT> <http://example.com/value> true".to_string(),
        ]
    );
}

#[test]
fn loaded_array_under_a_key_gives_one_quad_per_item() {
    let value = obj(vec![(
        "tags",
        JsonValue::Array(vec![s("a"), JsonValue::Number(JsonNumber { text: "2.5".to_string(), is_float: true })]),
    )]);
    assert_eq!(
        loaded(value),
        vec![
            "<http://example.com/ROOT> <http://example.com/tags> 2.5".to_string(),
            "<http://example.com/ROOT> <http://example.com/tags> a".to_string(),
        ]
    );
}

#[test]
fn loaded_object_without_id_hangs_from_a_blank_node() {
    let value = obj(vec![("addr", obj(vec![("city", s("Oslo"))]))]);
    assert_eq!(
        loaded(value),
        vec![
            "<http://example.com/ROOT> <http://example.com/addr> _:0".to_string(),
            "_:0 <http://example.com/city> Oslo".to_string(),
        ]
    );
}

#[test]
fn failed_load_leaves_the_store_unchanged() {
    let mut db = MemDatabase::new(map(&[("ex", "http://example.com")]), map(&[])).unwrap();
    let value = obj(vec![("a", s("x")), ("b", JsonValue::Null)]);
    assert!(matches!(db.load_file_data(&value, "ex"), Err(DatabaseLoadError::UnparseableObjectError)));
    assert!(matches!(db.load_file_data(&value, "nope"), Err(DatabaseLoadError::PrefixNotFoundError(_))));
    assert!(store_rows(&mut db).is_empty());
}
