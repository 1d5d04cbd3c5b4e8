use privguide::analysis::{
    load_description, load_queries_of_kind, query_files, query_outcomes, report_from_outcomes,
    results_file_for, run_attack_trees, run_reasoner, QueryIndex,
};
use privguide::database::{Database, MemDatabase};
use privguide::error::{DataLoadError, ExecuteQueryError};
use privguide::json::JsonValue;
use privguide::query::AttackTree;
use privguide::string_map::StringMap;
use privguide::workspace::QueryKind;

fn map(pairs: &[(&str, &str)]) -> StringMap {
    let mut m = StringMap::new();
    for (k, v) in pairs {
        m.insert(k.to_string(), v.to_string());
    }
    m
}

fn strings(v: &[&str]) -> Vec<String> {
    v.iter().map(|s| s.to_string()).collect()
}

fn description() -> JsonValue {
    JsonValue::Object(vec![("name".to_string(), JsonValue::String("svc".to_string()))])
}

fn database() -> MemDatabase {
    let mut db = MemDatabase::new(map(&[("ex", "http://example.com")]), map(&[("svc", "ex")])).unwrap();
    load_description(&mut db, "descriptions/system_svc.json", &description()).unwrap();
    db
}

const SELECT_NAME: &str =
    "# title: name\nSELECT ?n WHERE { <http://example.com/ROOT> <http://example.com/name> ?n }";
const SELECT_NOTHING: &str = "SELECT ?x WHERE { ?x <http://example.com/none> ?y }";
const INSERT: &str = "INSERT DATA { <http://example.com/a> <http://example.com/b> <http://example.com/c> }";
const SELECT_INSERTED: &str = "SELECT ?c WHERE { <http://example.com/a> <http://example.com/b> ?c }";

fn load(db: &mut MemDatabase, index: &mut QueryIndex, kind: QueryKind, files: &[(&str, &str)]) {
    let files = files.iter().map(|(p, t)| (p.to_string(), t.to_string())).collect();
    load_queries_of_kind(db, index, kind, files);
}

#[test]
fn query_files_keep_rq_and_sparql_in_any_case() {
    let paths = strings(&["a/x.rq", "a/y.SPARQL", "a/z.txt", "a/.rq", "a/w.Rq", "a/noext"]);
    assert_eq!(query_files(&paths), strings(&["a/x.rq", "a/y.SPARQL", "a/w.Rq"]));
}

#[test]
fn loaded_queries_are_indexed_and_stored() {
    let mut db = database();
    let mut index = QueryIndex::new();
    load(&mut db, &mut index, QueryKind::Regulation, &[("reg/a.rq", SELECT_NAME), ("reg/b.rq", SELECT_NOTHING)]);
    assert_eq!(index.get(QueryKind::Regulation), Some(&strings(&["reg/a.rq", "reg/b.rq"])));
    assert_eq!(index.get(QueryKind::Attack), None);
    let rows = db.execute_query("reg/a.rq").unwrap();
    assert_eq!(rows, vec![vec![("?n".to_string(), "svc".to_string())]]);
    assert!(db.execute_query("reg/b.rq").unwrap().is_empty());
}

#[test]
fn missing_query_is_reported_by_name() {
    let db = database();
    match db.execute_query("nowhere.rq") {
        Err(ExecuteQueryError::QueryNotFound(q)) => assert_eq!(q, "nowhere.rq"),
        other => panic!("unexpected {other:?}"),
    }
}

#[test]
fn reasoner_updates_the_store_and_stops_at_a_missing_query() {
    let mut db = database();
    let mut index = QueryIndex::new();
    load(&mut db, &mut index, QueryKind::Reasoner, &[("r/insert.rq", INSERT)]);
    load(&mut db, &mut index, QueryKind::ExtraData, &[("x/read.rq", SELECT_INSERTED)]);
    assert!(run_reasoner(&mut db, index.get(QueryKind::Reasoner).unwrap()).is_ok());
    let rows = db.execute_query("x/read.rq").unwrap();
    assert_eq!(rows, vec![vec![("?c".to_string(), "<http://example.com/c>".to_string())]]);
    match run_reasoner(&mut db, &strings(&["r/insert.rq", "r/missing.rq", "r/insert.rq"])) {
        Err((q, ExecuteQueryError::QueryNotFound(_))) => assert_eq!(q, "r/missing.rq"),
        other => panic!("unexpected {other:?}"),
    }
}

#[test]
fn report_collects_outcomes() {
    let mut db = database();
    let mut index = QueryIndex::new();
    load(&mut db, &mut index, QueryKind::Regulation, &[("reg/a.rq", SELECT_NAME)]);
    load(&mut db, &mut index, QueryKind::Requirement, &[("req/none.rq", SELECT_NOTHING), ("req/some.rq", SELECT_NAME)]);
    let regulations = query_outcomes(&db, &strings(&["reg/a.rq", "reg/missing.rq"]));
    let requirements = query_outcomes(&db, index.get(QueryKind::Requirement).unwrap());
    let extra = query_outcomes(&db, &strings(&[]));
    let (report, failed) = report_from_outcomes(regulations, Vec::new(), requirements, extra);
    assert_eq!(report.violations().len(), 1);
    assert_eq!(report.violations().get("reg/a.rq").unwrap().len(), 1);
    assert_eq!(report.unmet_requirements(), &strings(&["req/none.rq"]));
    assert_eq!(report.extra_data().len(), 0);
    assert_eq!(failed.len(), 1);
    assert_eq!(failed[0].0, "reg/missing.rq");
    assert!(matches!(failed[0].1, ExecuteQueryError::QueryNotFound(_)));
}

#[test]
fn attack_trees_run_until_a_child_is_possible() {
    let mut db = database();
    let mut index = QueryIndex::new();
    load(
        &mut db,
        &mut index,
        QueryKind::Attack,
        &[("atk/root.rq", SELECT_NAME), ("atk/no.rq", SELECT_NOTHING), ("atk/yes.rq", SELECT_NAME)],
    );
    let tree = AttackTree::from_parts(
        "atk/root.rq".to_string(),
        vec![
            AttackTree::new("atk/no.rq".to_string()),
            AttackTree::new("atk/yes.rq".to_string()),
            AttackTree::new("atk/later.rq".to_string()),
        ],
    );
    let done = run_attack_trees(&db, vec![tree]).unwrap();
    let root = &done[0];
    assert!(root.is_possible());
    assert!(root.children()[0].has_executed());
    assert!(!root.children()[0].is_possible());
    assert!(root.children()[1].is_possible());
    assert!(!root.children()[2].has_executed());
}

#[test]
fn attack_tree_without_possible_child_is_not_run() {
    let mut db = database();
    let mut index = QueryIndex::new();
    load(&mut db, &mut index, QueryKind::Attack, &[("atk/root.rq", SELECT_NAME), ("atk/no.rq", SELECT_NOTHING)]);
    let tree = AttackTree::from_parts("atk/root.rq".to_string(), vec![AttackTree::new("atk/no.rq".to_string())]);
    let done = run_attack_trees(&db, vec![tree]).unwrap();
    assert!(!done[0].has_executed());
    assert!(!done[0].is_possible());
}

#[test]
fn attack_tree_with_missing_query_fails() {
    let db = database();
    let tree = AttackTree::new("atk/missing.rq".to_string());
    assert!(matches!(run_attack_trees(&db, vec![tree]), Err(ExecuteQueryError::QueryNotFound(_))));
}

#[test]
fn description_needs_a_placeholder_with_a_prefix() {
    let mut db = MemDatabase::new(map(&[("ex", "http://example.com")]), map(&[("svc", "ex"), ("bad", "zz")])).unwrap();
    match load_description(&mut db, "descriptions/system.json", &description()) {
        Err(DataLoadError::FileWithNoExtensionError(p)) => assert_eq!(p, "descriptions/system.json"),
        other => panic!("unexpected {other:?}"),
    }
    match load_description(&mut db, "descriptions/system_db.json", &description()) {
        Err(DataLoadError::FileExtensionHasNoPrefixError(p)) => assert_eq!(p, "db"),
        other => panic!("unexpected {other:?}"),
    }
    assert!(matches!(
        load_description(&mut db, "descriptions/system_bad.json", &description()),
        Err(DataLoadError::DatabaseError(_))
    ));
    assert!(load_description(&mut db, "descriptions/system_svc.yaml", &description()).is_ok());
}

#[test]
fn results_file_uses_the_stem_without_its_extension() {
    assert_eq!(results_file_for("queries/source/check.rq"), Some("check.json".to_string()));
    assert_eq!(results_file_for("queries/a.b.rq"), Some("a.json".to_string()));
    assert_eq!(results_file_for("queries/.hidden"), Some(".hidden.json".to_string()));
    assert_eq!(results_file_for("/"), None);
}

#[test]
fn graph_queries_need_construct_or_describe() {
    let mut db = database();
    let mut index = QueryIndex::new();
    load(
        &mut db,
        &mut index,
        QueryKind::CodeGenData,
        &[
            ("g/c.rq", "CONSTRUCT { ?s ?p ?o } WHERE { ?s ?p ?o }"),
            ("g/s.rq", SELECT_NAME),
            ("g/bad.rq", "SELEKT nothing"),
        ],
    );
    assert_eq!(db.execute_graph_query("g/c.rq").unwrap().len(), 1);
    match db.execute_graph_query("g/s.rq") {
        Err(ExecuteQueryError::WrongQueryType(q, kinds)) => {
            assert_eq!(q, "g/s.rq");
            assert_eq!(kinds, "Describe,Construct");
        },
        other => panic!("unexpected {other:?}"),
    }
    assert!(matches!(db.execute_graph_query("g/bad.rq"), Err(ExecuteQueryError::SyntaxError(_))));
    assert!(matches!(db.execute_query("g/bad.rq"), Err(ExecuteQueryError::SyntaxError(_))));
}

#[test]
fn ask_queries_give_no_rows_and_construct_queries_give_triple_rows() {
    let mut db = database();
    let mut index = QueryIndex::new();
    load(
        &mut db,
        &mut index,
        QueryKind::ExtraData,
        &[("x/ask.rq", "ASK { ?s ?p ?o }"), ("x/c.rq", "CONSTRUCT { ?s ?p ?o } WHERE { ?s ?p ?o }")],
    );
    assert!(db.execute_query("x/ask.rq").unwrap().is_empty());
    let rows = db.execute_query("x/c.rq").unwrap();
    assert_eq!(rows.len(), 1);
    assert_eq!(rows[0][0], ("?s".to_string(), "<http://example.com/ROOT>".to_string()));
    assert_eq!(rows[0][1], ("?p".to_string(), "<http://example.com/name>".to_string()));
}

#[test]
fn update_that_does_not_parse_is_a_syntax_error() {
    let mut db = database();
    let mut index = QueryIndex::new();
    load(&mut db, &mut index, QueryKind::Reasoner, &[("r/bad.rq", "INSERT garbage")]);
    match run_reasoner(&mut db, index.get(QueryKind::Reasoner).unwrap()) {
        Err((q, ExecuteQueryError::SyntaxError(_))) => assert_eq!(q, "r/bad.rq"),
        other => panic!("unexpected {other:?}"),
    }
}

#[test]
fn failing_child_names_its_query_and_keeps_earlier_results() {
    let mut db = database();
    let mut index = QueryIndex::new();
    load(&mut db, &mut index, QueryKind::Attack, &[("a/none.rq", SELECT_NOTHING), ("a/root.rq", SELECT_NAME)]);
    let mut tree = AttackTree::from_parts(
        "a/root.rq".to_string(),
        vec![
            AttackTree::new("a/none.rq".to_string()),
            AttackTree::new("a/missing.rq".to_string()),
            AttackTree::new("a/later.rq".to_string()),
        ],
    );
    match db.run_attack_tree(&mut tree) {
        Err(ExecuteQueryError::QueryNotFound(q)) => assert_eq!(q, "a/missing.rq"),
        other => panic!("unexpected {other:?}"),
    }
    assert!(tree.children()[0].has_executed());
    assert!(tree.children()[0].get_results().is_empty());
    assert!(!tree.children()[1].has_executed());
    assert!(!tree.children()[2].has_executed());
    assert!(!tree.has_executed());
}

#[test]
fn failed_update_leaves_the_store_as_it_was() {
    let mut db = database();
    let mut index = QueryIndex::new();
    load(
        &mut db,
        &mut index,
        QueryKind::Reasoner,
        &[("r/insert.rq", INSERT), ("r/bad.rq", "INSERT garbage")],
    );
    load(&mut db, &mut index, QueryKind::ExtraData, &[("x/read.rq", SELECT_INSERTED)]);
    assert!(matches!(db.execute_update("r/bad.rq"), Err(ExecuteQueryError::SyntaxError(_))));
    assert!(db.execute_query("x/read.rq").unwrap().is_empty());
    assert!(db.execute_update("r/insert.rq").is_ok());
    assert_eq!(db.execute_query("x/read.rq").unwrap().len(), 1);
}
