use privguide::database::MemDatabase;
use privguide::error::DatabaseLoadError;
use privguide::json::JsonValue;
use privguide::string_map::StringMap;
use privguide::rdf::{NamedOrBlankNode, Quad, Term};
use privguide::source_code::{code_quads, Language, SyntaxNode};

fn leaf(kind: &str, text: &str) -> SyntaxNode {
    SyntaxNode { kind: kind.to_string(), child_count: 0, text: text.to_string(), named_children: Vec::new() }
}

fn node(kind: &str, children: Vec<(Option<&str>, SyntaxNode)>) -> SyntaxNode {
    let n = children.len();
    SyntaxNode {
        kind: kind.to_string(),
        child_count: n,
        text: String::new(),
        named_children: children.into_iter().map(|(f, c)| (f.map(|s| s.to_string()), c)).collect(),
    }
}

fn quad_text(q: &Quad) -> String {
    let subject = match &q.subject {
        NamedOrBlankNode::NamedNode(iri) => format!("<{iri}>"),
        NamedOrBlankNode::BlankNode(id) => format!("_:{id}"),
    };
    let object = match &q.object {
        Term::NamedNode(iri) => format!("<{iri}>"),
        Term::BlankNode(id) => format!("_:{id}"),
        Term::Literal(l) => format!("{}", l.value),
    };
    format!("{} <{}> {}", subject, q.predicate, object)
}

#[test]
fn syntax_tree_becomes_quads() {
    let tree = node(
        "chunk",
        vec![(
            None,
            node("call", vec![(Some("name"), leaf("identifier", "print")), (None, leaf("string", "hi"))]),
        )],
    );
    let mut next: u128 = 0;
    let quads = code_quads(&tree, &mut next).unwrap();
    let texts: Vec<String> = quads.iter().map(quad_text).collect();
    assert_eq!(
        texts,
        vec![
            "<http://exmaple.com/ROOT> <http://example.com/chunk> _:0".to_string(),
            "_:0 <http://example.com/call> _:1".to_string(),
            "_:1 <http://example.com/string> \"hi\"".to_string(),
            "_:1 <http://example.com/name> \"print\"".to_string(),
        ]
    );
    assert_eq!(next, 2);
}

#[test]
fn kind_that_is_no_iri_is_refused() {
    let tree = node("bad kind", vec![]);
    let mut next: u128 = 0;
    assert!(matches!(code_quads(&tree, &mut next), Err(DatabaseLoadError::IRIParseError(_))));
}

#[test]
fn language_keeps_its_parts() {
    let l = Language::with_grammar("lua".to_string(), vec![0, 97, 115, 109], vec!["lua".to_string()], "g/lua.wasm".to_string());
    assert_eq!(l.language(), "lua");
    assert_eq!(l.grammar(), &vec![0u8, 97, 115, 109]);
    assert_eq!(l.file_extensions(), &vec!["lua".to_string()]);
    assert_eq!(l.grammar_file(), "g/lua.wasm");
}

#[test]
fn descriptions_and_source_files_share_the_blank_node_counter() {
    let mut prefixes = StringMap::new();
    prefixes.insert("ex".to_string(), "http://example.com".to_string());
    let mut db = MemDatabase::new(prefixes, StringMap::new()).unwrap();
    let value = JsonValue::Object(vec![(
        "a".to_string(),
        JsonValue::Object(vec![("x".to_string(), JsonValue::String("1".to_string()))]),
    )]);
    let first = db.file_data_quads(&value, "ex").unwrap();
    let tree = node("chunk", vec![(None, node("call", vec![(None, leaf("name", "f"))]))]);
    let second = db.source_code_quads(&tree).unwrap();
    assert_eq!(quad_text(&first[0]), "<http://example.com/ROOT> <http://example.com/a> _:0");
    assert_eq!(quad_text(&second[0]), "<http://exmaple.com/ROOT> <http://example.com/chunk> _:1");
    assert_eq!(quad_text(&second[1]), "_:1 <http://example.com/call> _:2");
}
