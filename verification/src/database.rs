//! The database: an oxigraph store with the prefix maps, the loaded queries,
//! and the translation of descriptions and source code into its quads.
use vstd::prelude::*;
use oxigraph::model::{
    BlankNode, GraphName, Literal as OxLiteral, NamedNode, NamedOrBlankNode as OxSubject,
    Quad as OxQuad, Term as OxTerm,
};
use oxigraph::sparql::{
    QueryEvaluationError, QueryResults,
    QuerySolutionIter, QueryTripleIter, SparqlEvaluator, SparqlSyntaxError,
    UpdateEvaluationError,
};
use oxigraph::store::{StorageError, Store};
use crate::error::{load_error_is, DatabaseLoadError, ExecuteQueryError};
use crate::json::JsonValue;
use crate::loader::{description_quads, file_quads, object_term, term_outcome};
use crate::query::{AttackTree, Query, QueryResultsMap, evaluated, same_shape};
use crate::rdf::{quads_view, term_text, term_to_string, Literal, NamedOrBlankNode, Quad, QuadView, Term, TermView};
use crate::source_code::{code_quads, source_code_quads, SyntaxNode};
use crate::string_map::{KeyMap, StringMap};

verus! {

/// `oxigraph::store::Store`, held opaque.
#[verifier::external_type_specification]
#[verifier::external_body]
pub struct ExStore(Store);

/// `oxigraph::model::Quad`, held opaque.
#[verifier::external_type_specification]
#[verifier::external_body]
pub struct ExOxQuad(OxQuad);

/// `oxigraph::model::Term`, held opaque.
#[verifier::external_type_specification]
#[verifier::external_body]
pub struct ExOxTerm(OxTerm);

/// `oxigraph::model::Triple`, held opaque: what a `QueryTripleIter` yields.
#[verifier::external_type_specification]
#[verifier::external_body]
pub struct ExOxTriple(oxigraph::model::Triple);

/// `oxigraph::sparql::QuerySolution`, held opaque: what a
/// `QuerySolutionIter` yields.
#[verifier::external_type_specification]
#[verifier::external_body]
pub struct ExQuerySolution(oxigraph::sparql::QuerySolution);

/// `oxigraph::sparql::QuerySolutionIter`, held opaque.
#[verifier::external_type_specification]
#[verifier::external_body]
pub struct ExQuerySolutionIter<'a>(QuerySolutionIter<'a>);

/// `oxigraph::sparql::QueryTripleIter`, held opaque.
#[verifier::external_type_specification]
#[verifier::external_body]
pub struct ExQueryTripleIter<'a>(QueryTripleIter<'a>);

/// `oxigraph::store::Store::new`: a new, empty in-memory store. Claimed: it
/// succeeds (`Store::new` wraps `Storage::new`, which always makes a memory
/// store and returns `Ok`), and the store is empty.
#[verifier::external_body]
fn new_store() -> (r: Result<Store, StorageError>)
    ensures
        r is Ok,
        r matches Ok(store) ==> store_contents(store) == Set::<QuadView>::empty(),
{
    Store::new()
}

/// `oxigraph::model::Term` from a term of the library, one variant for one.
#[verifier::external_body]
fn to_store_term(t: &Term) -> (r: OxTerm) {
    match t {
        Term::NamedNode(iri) => OxTerm::NamedNode(NamedNode::new_unchecked(iri.clone())),
        Term::BlankNode(id) => OxTerm::BlankNode(BlankNode::new_unchecked(id.clone())),
        Term::Literal(l) => OxTerm::Literal(match &l.language {
            Some(lang) => OxLiteral::new_language_tagged_literal_unchecked(l.value.clone(), lang.clone()),
            None => OxLiteral::new_typed_literal(l.value.clone(), NamedNode::new_unchecked(l.datatype.clone())),
        }),
    }
}

/// `oxigraph::model::Quad` of the default graph from a quad of the library.
#[verifier::external_body]
fn to_store_quad(q: &Quad) -> (r: OxQuad) {
    let subject = match &q.subject {
        NamedOrBlankNode::NamedNode(iri) => OxSubject::NamedNode(NamedNode::new_unchecked(iri.clone())),
        NamedOrBlankNode::BlankNode(id) => OxSubject::BlankNode(BlankNode::new_unchecked(id.clone())),
    };
    let predicate = NamedNode::new_unchecked(q.predicate.clone());
    OxQuad::new(subject, predicate, to_store_term(&q.object), GraphName::DefaultGraph)
}

/// The quads of the default graph of a store, each as `term_from_store`
/// reads its terms back.
pub uninterp spec fn store_contents(store: Store) -> Set<QuadView>;

/// A literal of a known datatype as the store keeps it and gives it back:
/// oxigraph encodes such a literal by its value, and it may come back in
/// its canonical form.
pub uninterp spec fn canonical_literal(t: TermView) -> TermView;

/// Whether the store gives a term back as it was given: a named node, a
/// blank node, or a string literal with no language.
pub open spec fn keeps_form(t: TermView) -> bool {
    match t {
        TermView::Literal(_, datatype, language) => datatype == "http://www.w3.org/2001/XMLSchema#string"@
            && language is None,
        _ => true,
    }
}

/// A term as the store keeps it.
pub open spec fn stored_term(t: TermView) -> TermView {
    if keeps_form(t) {
        t
    } else {
        canonical_literal(t)
    }
}

/// A quad as the store keeps it: its subject and predicate as given, its
/// object as the store keeps it.
pub open spec fn stored_quad(q: QuadView) -> QuadView {
    QuadView { subject: q.subject, predicate: q.predicate, object: stored_term(q.object) }
}

/// The quads as the store keeps them.
pub open spec fn stored_set(quads: Seq<QuadView>) -> Set<QuadView> {
    Set::new(|x: QuadView| exists|i: int| 0 <= i < quads.len() && x == #[trigger] stored_quad(quads[i]))
}

/// `Store::bulk_loader`, `BulkLoader::load_quads` and `BulkLoader::commit`,
/// with each quad turned into an oxigraph quad of the default graph.
/// Claimed: it succeeds (the memory store's bulk loader and its commit
/// always return `Ok`), and the default graph then holds what it held and
/// the quads, each with its subject and predicate as given and its object
/// as the store keeps it (oxigraph gives back named nodes, blank nodes and
/// string literals as given, and other literals by `canonical_literal`).
#[verifier::external_body]
fn bulk_load(store: &mut Store, quads: &Vec<Quad>) -> (r: Result<(), StorageError>)
    ensures
        r is Ok,
        store_contents(*final(store)) == store_contents(*old(store)).union(stored_set(quads_view(quads@))),
        forall|i: int|
            0 <= i < quads@.len() ==> store_contents(*final(store)).contains(
                QuadView {
                    subject: (#[trigger] quads@[i])@.subject,
                    predicate: quads@[i]@.predicate,
                    object: if keeps_form(quads@[i]@.object) {
                        quads@[i]@.object
                    } else {
                        canonical_literal(quads@[i]@.object)
                    },
                },
            ),
{
    let converted: Vec<OxQuad> = quads.iter().map(to_store_quad).collect();
    let mut loader = store.bulk_loader();
    loader.load_quads(converted)?;
    loader.commit()
}

/// Whether `SparqlEvaluator::parse_update` reads an update from a text.
pub uninterp spec fn update_parses(text: Seq<char>) -> bool;

/// Holds where `after` is a store that executing the SPARQL update `text`
/// on the store `before` can leave behind. Several stores can be such an
/// outcome: an update may read the time or chance (`NOW()`, `RAND()`,
/// `UUID()`) and make fresh blank nodes.
pub uninterp spec fn update_leaves(before: Store, text: Seq<char>, after: Store) -> bool;

/// Why an update text was not applied: it did not parse, or it failed to
/// evaluate.
pub enum UpdateFailure {
    Syntax(SparqlSyntaxError),
    Evaluation(UpdateEvaluationError),
}

/// `SparqlEvaluator::new().parse_update(text)`, then `on_store(store)` and
/// `execute()`. Claimed: parsing fails exactly where `update_parses` does
/// not hold of the text (the parser reads the text alone), and then the
/// store is not touched; an update that fails to evaluate leaves the default
/// graph as it was (it runs in a memory transaction, which is rolled back
/// when dropped without a commit); an update that succeeds leaves a store
/// that `update_leaves` relates to the store before and the text.
#[verifier::external_body]
fn apply_update(text: &str, store: &mut Store) -> (r: Result<(), UpdateFailure>)
    ensures
        r matches Err(UpdateFailure::Syntax(_)) <==> !update_parses(text@),
        r is Err ==> store_contents(*final(store)) == store_contents(*old(store)),
        r is Ok ==> update_leaves(*old(store), text@, *final(store)),
{
    let prepared = match SparqlEvaluator::new().parse_update(text) {
        Ok(p) => p,
        Err(e) => return Err(UpdateFailure::Syntax(e)),
    };
    prepared.on_store(store).execute().map_err(UpdateFailure::Evaluation)
}

/// The results of a query, each solution or triple that failed to evaluate
/// kept as its error.
pub enum QueryOutcome {
    Solutions(Vec<Result<Vec<(String, Term)>, QueryEvaluationError>>),
    Boolean(bool),
    Graph(Vec<Result<Quad, QueryEvaluationError>>),
}

/// The results of a query as plain values: each solution as its bindings,
/// each triple as a quad, and `None` for one that failed to evaluate.
pub enum AnswerView {
    Solutions(Seq<Option<Seq<(Seq<char>, TermView)>>>),
    Boolean(bool),
    Graph(Seq<Option<QuadView>>),
}

/// Solutions as plain values.
pub open spec fn solutions_answer(sols: Seq<Result<Vec<(String, Term)>, QueryEvaluationError>>) -> Seq<
    Option<Seq<(Seq<char>, TermView)>>,
> {
    sols.map_values(
        |row: Result<Vec<(String, Term)>, QueryEvaluationError>|
            match row {
                Ok(b) => Some(b@.map_values(|p: (String, Term)| (p.0@, p.1@))),
                Err(_) => None,
            },
    )
}

/// Triples as plain values.
pub open spec fn triples_answer(ts: Seq<Result<Quad, QueryEvaluationError>>) -> Seq<Option<QuadView>> {
    ts.map_values(
        |row: Result<Quad, QueryEvaluationError>|
            match row {
                Ok(q) => Some(q@),
                Err(_) => None,
            },
    )
}

/// The results of a query as plain values.
pub open spec fn outcome_answer(o: QueryOutcome) -> AnswerView {
    match o {
        QueryOutcome::Solutions(sols) => AnswerView::Solutions(solutions_answer(sols@)),
        QueryOutcome::Boolean(b) => AnswerView::Boolean(b),
        QueryOutcome::Graph(ts) => AnswerView::Graph(triples_answer(ts@)),
    }
}

/// Holds where `answer` is what evaluating the SPARQL query `text` on the
/// store `store`, and iterating its results to their end, can give. Several
/// answers can be such an outcome: a query may read the time or chance
/// (`NOW()`, `RAND()`, `UUID()`), make fresh blank nodes, or call a service.
pub uninterp spec fn query_gives(store: Store, text: Seq<char>, answer: AnswerView) -> bool;

/// The forms of SPARQL queries.
pub enum QueryForm {
    Select,
    Construct,
    Describe,
    Ask,
}

/// The form of the query that `SparqlEvaluator::parse_query` reads from a
/// text; `None` where the text does not parse.
pub uninterp spec fn parsed_query_form(text: Seq<char>) -> Option<QueryForm>;

/// Why a query text gave no results: it did not parse, or it failed to
/// evaluate.
pub enum QueryFailure {
    Syntax(SparqlSyntaxError),
    Evaluation(QueryEvaluationError),
}

/// The kind of results that a query of a form gives: solutions for a
/// select query, a boolean for an ask query, triples for a construct or
/// describe query.
pub open spec fn outcome_fits(o: QueryOutcome, form: QueryForm) -> bool {
    match o {
        QueryOutcome::Solutions(_) => form is Select,
        QueryOutcome::Boolean(_) => form is Ask,
        QueryOutcome::Graph(_) => form is Construct || form is Describe,
    }
}

/// `SparqlEvaluator::new().parse_query(text)`, then `on_store(store)` and
/// `execute()`, with the variants of `QueryResults` told apart and the
/// solutions or triples iterated to their end. Claimed: parsing fails
/// exactly where `parsed_query_form` of the text is `None` (the parser reads
/// the text alone); the results that evaluation gives fit the form, as
/// spareval's evaluator builds them (`QueryResults::Solutions` for select,
/// `Boolean` for ask, `Graph` for construct and describe), and are an
/// answer that `query_gives` relates to the store and the text. Whether
/// evaluation fails is not claimed.
#[verifier::external_body]
fn evaluate_query(text: &str, store: &Store) -> (r: Result<QueryOutcome, QueryFailure>)
    ensures
        r matches Err(QueryFailure::Syntax(_)) <==> parsed_query_form(text@) is None,
        r matches Ok(o) ==> parsed_query_form(text@) matches Some(f) && outcome_fits(o, f),
        r matches Ok(o) ==> query_gives(*store, text@, outcome_answer(o)),
{
    let prepared = match SparqlEvaluator::new().parse_query(text) {
        Ok(p) => p,
        Err(e) => return Err(QueryFailure::Syntax(e)),
    };
    match prepared.on_store(store).execute() {
        Ok(QueryResults::Solutions(s)) => Ok(QueryOutcome::Solutions(collect_solutions(s))),
        Ok(QueryResults::Boolean(b)) => Ok(QueryOutcome::Boolean(b)),
        Ok(QueryResults::Graph(g)) => Ok(QueryOutcome::Graph(collect_triples(g))),
        Err(e) => Err(QueryFailure::Evaluation(e)),
    }
}

/// The triples of the results of a construct or describe query; results of
/// another kind are refused, with the key of the query.
pub fn graph_of_outcome(o: QueryOutcome, query_k: &str) -> (r: Result<
    Vec<Result<Quad, QueryEvaluationError>>,
    ExecuteQueryError,
>)
    ensures
        r is Ok <==> o is Graph,
        r matches Ok(ts) ==> o == QueryOutcome::Graph(ts),
        !(o is Graph) ==> (r matches Err(ExecuteQueryError::WrongQueryType(k, kinds)) && k@ == query_k@
            && kinds@ == "Describe,Construct"@),
{
    match o {
        QueryOutcome::Graph(ts) => Ok(ts),
        _ => Err(
            ExecuteQueryError::WrongQueryType(
                String::from_str(query_k),
                String::from_str("Describe,Construct"),
            ),
        ),
    }
}

/// A term of the library from an `oxigraph::model::Term`, one variant for one.
#[verifier::external_body]
fn term_from_store(t: &OxTerm) -> (r: Term) {
    match t {
        OxTerm::NamedNode(n) => Term::NamedNode(n.as_str().to_owned()),
        OxTerm::BlankNode(b) => Term::BlankNode(b.as_str().to_owned()),
        OxTerm::Literal(l) => Term::Literal(Literal {
            value: l.value().to_owned(),
            datatype: l.datatype().as_str().to_owned(),
            language: l.language().map(|s| s.to_owned()),
        }),
    }
}

/// Iterates a `QuerySolutionIter` to its end: each solution with its
/// bindings as pairs of the variable's text (`?name`) and the bound term.
#[verifier::external_body]
fn collect_solutions(it: QuerySolutionIter<'static>) -> (r: Vec<
    Result<Vec<(String, Term)>, QueryEvaluationError>,
>) {
    it.map(|row| row.map(|sol| sol.iter().map(|(v, t)| (v.to_string(), term_from_store(t))).collect()))
        .collect()
}

/// Iterates a `QueryTripleIter` to its end: each triple as a quad of the
/// library.
#[verifier::external_body]
fn collect_triples(it: QueryTripleIter<'static>) -> (r: Vec<Result<Quad, QueryEvaluationError>>) {
    it.map(|row| row.map(|t| Quad {
        subject: match t.subject {
            OxSubject::NamedNode(n) => NamedOrBlankNode::NamedNode(n.into_string()),
            OxSubject::BlankNode(b) => NamedOrBlankNode::BlankNode(b.into_string()),
        },
        predicate: t.predicate.into_string(),
        object: term_from_store(&t.object),
    })).collect()
}

/// The text that oxigraph's `Display` gives a term.
pub uninterp spec fn term_display(t: TermView) -> Seq<char>;

/// `to_string` of the `oxigraph::model::Term` that a term of the library is:
/// its N-Triples form. Claimed: the result is `term_display` of the term; a
/// named node is written `<iri>` and a blank node `_:id` (oxrdf's `Display`
/// for `NamedNodeRef` and `BlankNodeRef`; a blank node id made by
/// `new_unchecked` reads back as given).
#[verifier::external_body]
pub(crate) fn display_term(t: &Term) -> (r: String)
    ensures
        r@ == term_display(t@),
        t@ matches TermView::NamedNode(iri) ==> r@ == seq!['<'] + iri + seq!['>'],
        t@ matches TermView::BlankNode(id) ==> r@ == seq!['_', ':'] + id,
{
    to_store_term(t).to_string()
}

/// The bindings of one solution, each term as its text in query results.
pub open spec fn solution_row(bindings: Seq<(String, Term)>) -> Seq<(Seq<char>, Seq<char>)> {
    bindings.map_values(|b: (String, Term)| (b.0@, term_text(b.1@)))
}

/// Pairs of strings, as text.
pub open spec fn pairs_view(row: Seq<(String, String)>) -> Seq<(Seq<char>, Seq<char>)> {
    row.map_values(|b: (String, String)| (b.0@, b.1@))
}

/// A row of results, as text.
pub open spec fn row_view(row: Vec<(String, String)>) -> Seq<(Seq<char>, Seq<char>)> {
    pairs_view(row@)
}

/// Results, as text.
pub open spec fn results_view(rows: Seq<Vec<(String, String)>>) -> Seq<Seq<(Seq<char>, Seq<char>)>> {
    rows.map_values(|r: Vec<(String, String)>| row_view(r))
}

/// The rows of the solutions that evaluated without error, in order.
pub open spec fn solution_rows(sols: Seq<Result<Vec<(String, Term)>, QueryEvaluationError>>) -> Seq<
    Seq<(Seq<char>, Seq<char>)>,
>
    decreases sols.len(),
{
    if sols.len() == 0 {
        seq![]
    } else {
        let rest = solution_rows(sols.drop_last());
        match sols.last() {
            Ok(b) => rest.push(solution_row(b@)),
            Err(_) => rest,
        }
    }
}

/// The row for a triple of a graph result: `?s`, `?p`, `?o` bound to the
/// N-Triples text of its parts.
pub open spec fn triple_row(t: Quad) -> Seq<(Seq<char>, Seq<char>)> {
    seq![
        ("?s"@, term_text(crate::rdf::term_of_subject(t.subject@))),
        ("?p"@, term_text(TermView::NamedNode(t.predicate@))),
        ("?o"@, term_display(t.object@)),
    ]
}

/// The rows of the triples that evaluated without error, in order.
pub open spec fn triple_rows(rows: Seq<Result<Quad, QueryEvaluationError>>) -> Seq<
    Seq<(Seq<char>, Seq<char>)>,
>
    decreases rows.len(),
{
    if rows.len() == 0 {
        seq![]
    } else {
        let rest = triple_rows(rows.drop_last());
        match rows.last() {
            Ok(t) => rest.push(triple_row(t)),
            Err(_) => rest,
        }
    }
}

/// Law: the row made for a triple of a graph result binds `?s`, `?p` and
/// `?o`, in that order, to the text of the triple's subject, predicate and
/// object; the `?o` binding is the text of the object term and depends on
/// nothing else of the triple.
pub proof fn lemma_triple_row_binds_parts(t: Quad, u: Quad)
    ensures
        triple_row(t).len() == 3,
        triple_row(t)[0] == ("?s"@, term_text(crate::rdf::term_of_subject(t.subject@))),
        triple_row(t)[1] == ("?p"@, term_text(TermView::NamedNode(t.predicate@))),
        triple_row(t)[2] == ("?o"@, term_display(t.object@)),
        t.object@ == u.object@ ==> triple_row(t)[2] == triple_row(u)[2],
{
}

/// Law: the rows of a graph result whose triples all evaluated are one row
/// per triple, in the order of the triples.
pub proof fn lemma_triple_rows_in_order(ts: Seq<Result<Quad, QueryEvaluationError>>)
    requires
        forall|i: int| 0 <= i < ts.len() ==> (#[trigger] ts[i]) is Ok,
    ensures
        triple_rows(ts).len() == ts.len(),
        forall|i: int| 0 <= i < ts.len() ==> #[trigger] triple_rows(ts)[i] == triple_row(ts[i]->Ok_0),
    decreases ts.len(),
{
    if ts.len() > 0 {
        let init = ts.drop_last();
        assert forall|i: int| 0 <= i < init.len() implies (#[trigger] init[i]) is Ok by {
            assert(init[i] == ts[i]);
        }
        lemma_triple_rows_in_order(init);
        assert forall|i: int| 0 <= i < ts.len() implies #[trigger] triple_rows(ts)[i] == triple_row(
            ts[i]->Ok_0,
        ) by {
            if i < ts.len() - 1 {
                assert(init[i] == ts[i]);
                assert(triple_rows(init)[i] == triple_row(init[i]->Ok_0));
            }
        }
    }
}

/// One solution as a row of results.
fn row_of_solution(bindings: &Vec<(String, Term)>) -> (r: Vec<(String, String)>)
    ensures
        row_view(r) == solution_row(bindings@),
{
    let mut row: Vec<(String, String)> = Vec::new();
    let n = bindings.len();
    let mut i: usize = 0;
    while i < n
        invariant
            n == bindings@.len(),
            i <= n,
            row_view(row) == solution_row(bindings@.take(i as int)),
        decreases n - i,
    {
        let (v, t) = &bindings[i];
        let ghost before = row@;
        let name = v.clone();
        let text = term_to_string(t);
        row.push((name, text));
        proof {
            assert(pairs_view(row@) =~= pairs_view(before).push((v@, term_text(t@))));
            assert(bindings@.take(i + 1) =~= bindings@.take(i as int).push(bindings@[i as int]));
            assert(row_view(row) =~= solution_row(bindings@.take(i + 1)));
        }
        i = i + 1;
    }
    proof {
        assert(bindings@.take(n as int) =~= bindings@);
    }
    row
}

/// The results of a select query from its solutions: the solutions that
/// failed to evaluate are left out, each other becomes the row of its
/// bindings with the terms as text.
pub fn rows_from_solutions(sols: &Vec<Result<Vec<(String, Term)>, QueryEvaluationError>>) -> (r:
    QueryResultsMap)
    ensures
        results_view(r@) == solution_rows(sols@),
{
    let mut rows: QueryResultsMap = Vec::new();
    let n = sols.len();
    let mut i: usize = 0;
    while i < n
        invariant
            n == sols@.len(),
            i <= n,
            results_view(rows@) == solution_rows(sols@.take(i as int)),
        decreases n - i,
    {
        proof {
            assert(sols@.take(i + 1).drop_last() =~= sols@.take(i as int));
        }
        match &sols[i] {
            Ok(b) => {
                let row = row_of_solution(b);
                let ghost before = rows@;
                let ghost rv = row_view(row);
                rows.push(row);
                proof {
                    assert(results_view(rows@) =~= results_view(before).push(rv));
                }
            },
            Err(_) => {},
        }
        i = i + 1;
    }
    proof {
        assert(sols@.take(n as int) =~= sols@);
    }
    rows
}

/// One triple of a graph result as a row of results.
fn row_of_triple(t: &Quad) -> (r: Vec<(String, String)>)
    ensures
        row_view(r) == triple_row(*t),
{
    let s = term_to_string(&crate::rdf::term_from_subject(t.subject.duplicate()));
    let p = term_to_string(&Term::NamedNode(t.predicate.clone()));
    let o = display_term(&t.object);
    let mut row: Vec<(String, String)> = Vec::new();
    row.push((String::from_str("?s"), s));
    row.push((String::from_str("?p"), p));
    row.push((String::from_str("?o"), o));
    proof {
        assert(row_view(row) =~= triple_row(*t));
    }
    row
}

/// The results of a construct or describe query from its triples: the
/// triples that failed to evaluate are left out, each other becomes the row
/// binding `?s`, `?p`, `?o` to the text of its parts.
pub fn rows_from_triples(triples: &Vec<Result<Quad, QueryEvaluationError>>) -> (r: QueryResultsMap)
    ensures
        results_view(r@) == triple_rows(triples@),
{
    let mut rows: QueryResultsMap = Vec::new();
    let n = triples.len();
    let mut i: usize = 0;
    while i < n
        invariant
            n == triples@.len(),
            i <= n,
            results_view(rows@) == triple_rows(triples@.take(i as int)),
        decreases n - i,
    {
        proof {
            assert(triples@.take(i + 1).drop_last() =~= triples@.take(i as int));
        }
        match &triples[i] {
            Ok(t) => {
                let row = row_of_triple(t);
                let ghost before = rows@;
                let ghost rv = row_view(row);
                rows.push(row);
                proof {
                    assert(results_view(rows@) =~= results_view(before).push(rv));
                }
            },
            Err(_) => {},
        }
        i = i + 1;
    }
    proof {
        assert(triples@.take(n as int) =~= triples@);
    }
    rows
}

/// What a database of descriptions and queries offers.
pub trait Database {
    /// Runs a stored select, construct or describe query.
    fn execute_query(&self, query_k: &str) -> Result<QueryResultsMap, ExecuteQueryError>;

    /// Runs a stored construct or describe query and gives its triples.
    fn execute_graph_query(&self, query_k: &str) -> Result<
        Vec<Result<Quad, QueryEvaluationError>>,
        ExecuteQueryError,
    >;

    /// Runs a stored update.
    fn execute_update(&mut self, query_k: &str) -> Result<(), ExecuteQueryError>;

    /// Stores a query under a key.
    fn load_query(&mut self, file: String, query: Query);

    /// Evaluates an attack tree against the stored queries.
    fn run_attack_tree(&self, tree: &mut AttackTree) -> Result<(), ExecuteQueryError>;

    /// Loads a JSON description with the given default prefix.
    fn load_file_data(&mut self, value: &JsonValue, default_predicate: &str) -> Result<
        (),
        DatabaseLoadError,
    >;

    /// Loads the syntax tree of a source file.
    fn load_source_code(&mut self, tree: &SyntaxNode) -> Result<(), DatabaseLoadError>;

    /// The map from prefixes to their URIs.
    fn get_prefix_map(&self) -> &StringMap;

    /// The map from file placeholders to prefixes.
    fn get_file_prefixes(&self) -> &StringMap;
}

/// A database held in memory.
pub struct MemDatabase {
    store: Store,
    prefixes: StringMap,
    file_prefixes: StringMap,
    queries: KeyMap<Query>,
    blank_counter: u128,
}

impl MemDatabase {
    /// The URI of each prefix.
    pub closed spec fn prefix_map(&self) -> Map<Seq<char>, Seq<char>> {
        self.prefixes@
    }

    /// The prefix of each file placeholder.
    pub closed spec fn file_prefix_map(&self) -> Map<Seq<char>, Seq<char>> {
        self.file_prefixes@
    }

    /// The stored queries by key: their text and metadata.
    pub closed spec fn stored_queries(&self) -> Map<Seq<char>, (Seq<char>, Map<Seq<char>, Seq<char>>)> {
        self.queries@
    }

    /// The number of the next blank node the database creates.
    pub closed spec fn next_blank_node(&self) -> u128 {
        self.blank_counter
    }

    /// The quads of the default graph of the store.
    pub closed spec fn contents(&self) -> Set<QuadView> {
        store_contents(self.store)
    }

    /// An empty database with the given prefix maps.
    pub fn new(prefixes: StringMap, file_prefixes: StringMap) -> (r: Result<Self, StorageError>)
        ensures
            r is Ok,
            r matches Ok(db) ==> {
                &&& db.prefix_map() == prefixes@
                &&& db.file_prefix_map() == file_prefixes@
                &&& db.stored_queries() == Map::<
                    Seq<char>,
                    (Seq<char>, Map<Seq<char>, Seq<char>>),
                >::empty()
                &&& db.next_blank_node() == 0
                &&& db.contents() == Set::<QuadView>::empty()
            },
    {
        let store = new_store()?;
        Ok(
            MemDatabase {
                store,
                prefixes,
                file_prefixes,
                queries: KeyMap::new(),
                blank_counter: 0,
            },
        )
    }

    /// The term for a value in object position, under this database's prefixes.
    pub fn rdf_object_from_value(&self, o: &JsonValue) -> (r: Result<Term, DatabaseLoadError>)
        ensures
            term_outcome(r, object_term(self.prefix_map(), *o)),
    {
        crate::loader::rdf_object_from_value(&self.prefixes, o)
    }

    /// The quads of a JSON description with the given default prefix; blank
    /// nodes are numbered from the database's counter on.
    pub fn file_data_quads(&mut self, value: &JsonValue, default_url: &str) -> (r: Result<
        Vec<Quad>,
        DatabaseLoadError,
    >)
        ensures
            final(self).prefix_map() == old(self).prefix_map(),
            final(self).file_prefix_map() == old(self).file_prefix_map(),
            final(self).stored_queries() == old(self).stored_queries(),
            final(self).contents() == old(self).contents(),
            match description_quads(
                old(self).prefix_map(),
                default_url@,
                *value,
                old(self).next_blank_node(),
            ) {
                Ok((q, n)) => r matches Ok(v) && crate::rdf::quads_view(v@) == q
                    && final(self).next_blank_node() == n,
                Err(f) => r matches Err(e) && load_error_is(e, f),
            },
    {
        let mut next = self.blank_counter;
        let r = file_quads(&self.prefixes, value, default_url, &mut next);
        self.blank_counter = next;
        r
    }

    /// The quads of the syntax tree of a source file; blank nodes are
    /// numbered from the database's counter on.
    pub fn source_code_quads(&mut self, tree: &SyntaxNode) -> (r: Result<Vec<Quad>, DatabaseLoadError>)
        ensures
            final(self).prefix_map() == old(self).prefix_map(),
            final(self).file_prefix_map() == old(self).file_prefix_map(),
            final(self).stored_queries() == old(self).stored_queries(),
            final(self).contents() == old(self).contents(),
            match source_code_quads(*tree, old(self).next_blank_node()) {
                Ok((q, n)) => r matches Ok(v) && crate::rdf::quads_view(v@) == q
                    && final(self).next_blank_node() == n,
                Err(f) => r matches Err(e) && load_error_is(e, f),
            },
    {
        let mut next = self.blank_counter;
        let r = code_quads(tree, &mut next);
        self.blank_counter = next;
        r
    }

    /// Adds quads to the default graph of the store.
    fn store_quads(&mut self, quads: &Vec<Quad>) -> (r: Result<(), DatabaseLoadError>)
        ensures
            final(self).prefix_map() == old(self).prefix_map(),
            final(self).file_prefix_map() == old(self).file_prefix_map(),
            final(self).stored_queries() == old(self).stored_queries(),
            final(self).next_blank_node() == old(self).next_blank_node(),
            r is Ok,
            final(self).contents() == old(self).contents().union(stored_set(quads_view(quads@))),
    {
        match bulk_load(&mut self.store, quads) {
            Ok(()) => Ok(()),
            Err(e) => Err(DatabaseLoadError::StorageError(e)),
        }
    }

    /// The stored query under a key.
    fn stored_query(&self, query_k: &str) -> (r: Result<&Query, ExecuteQueryError>)
        ensures
            self.stored_queries().contains_key(query_k@) <==> r is Ok,
            r matches Ok(q) ==> q@ == self.stored_queries()[query_k@],
            r matches Err(e) ==> e matches ExecuteQueryError::QueryNotFound(s) && s@ == query_k@,
    {
        match self.queries.get(query_k) {
            Some(q) => Ok(q),
            None => Err(ExecuteQueryError::QueryNotFound(String::from_str(query_k))),
        }
    }

    /// Parses a stored query and evaluates it on the store.
    fn evaluate_stored(&self, query_k: &str) -> (r: Result<QueryOutcome, ExecuteQueryError>)
        ensures
            self.stored_queries().contains_key(query_k@) <==> !(r matches Err(
                ExecuteQueryError::QueryNotFound(_),
            )),
            r matches Err(ExecuteQueryError::QueryNotFound(s)) ==> s@ == query_k@,
            !(r matches Err(ExecuteQueryError::WrongQueryType(..))),
            !(r matches Err(ExecuteQueryError::UpdateEvaluationError(_))),
            self.stored_queries().contains_key(query_k@) ==> (r matches Err(
                ExecuteQueryError::SyntaxError(_),
            ) <==> parsed_query_form(self.stored_text(query_k@)) is None),
            r matches Ok(o) ==> parsed_query_form(self.stored_text(query_k@)) matches Some(f)
                && outcome_fits(o, f),
            r matches Ok(o) ==> query_gives(self.store_state(), self.stored_text(query_k@), outcome_answer(o)),
    {
        let query = self.stored_query(query_k)?;
        proof {
            query.lemma_view();
        }
        match evaluate_query(query.get_query().as_str(), &self.store) {
            Ok(o) => Ok(o),
            Err(QueryFailure::Syntax(e)) => Err(ExecuteQueryError::SyntaxError(e)),
            Err(QueryFailure::Evaluation(e)) => Err(ExecuteQueryError::QueryEvaluationError(e)),
        }
    }

    /// The text of the query stored under a key.
    pub open spec fn stored_text(&self, key: Seq<char>) -> Seq<char> {
        self.stored_queries()[key].0
    }

    /// `after` is this database with the update stored under a key applied
    /// to its store: the update is stored, and executing its text on the
    /// store can leave the store of `after`; all else is as it was.
    pub closed spec fn update_applied(&self, key: Seq<char>, after: MemDatabase) -> bool {
        &&& self.stored_queries().contains_key(key)
        &&& update_leaves(self.store, self.stored_text(key), after.store)
        &&& after.prefixes@ == self.prefixes@
        &&& after.file_prefixes@ == self.file_prefixes@
        &&& after.queries@ == self.queries@
        &&& after.blank_counter == self.blank_counter
    }

    /// The store, as a value that the outside relations speak of.
    pub closed spec fn store_state(&self) -> Store {
        self.store
    }

    /// Rows that a stored query gives: it is stored, its text parses, and
    /// the rows are those of solutions for a select query, none for an ask
    /// query, and those of triples for a construct or describe query, where
    /// the solutions or triples are what evaluating the text on the store
    /// can give.
    pub open spec fn query_answer(&self, key: Seq<char>, rows: Seq<Vec<(String, String)>>) -> bool {
        &&& self.stored_queries().contains_key(key)
        &&& match parsed_query_form(self.stored_text(key)) {
            Some(QueryForm::Select) => exists|sols: Seq<Result<Vec<(String, Term)>, QueryEvaluationError>>|
                query_gives(self.store_state(), self.stored_text(key), AnswerView::Solutions(solutions_answer(sols)))
                    && results_view(rows) == #[trigger] solution_rows(sols),
            Some(QueryForm::Ask) => rows.len() == 0,
            Some(_) => exists|ts: Seq<Result<Quad, QueryEvaluationError>>|
                query_gives(self.store_state(), self.stored_text(key), AnswerView::Graph(triples_answer(ts)))
                    && results_view(rows) == #[trigger] triple_rows(ts),
            None => false,
        }
    }
}

impl MemDatabase {
    /// Runs a stored query: the rows of a select query's solutions, or the
    /// `?s`/`?p`/`?o` rows of a construct or describe query's triples (rows
    /// that fail to evaluate are left out), or no row for an ask query.
    pub fn query_rows(&self, query_k: &str) -> (r: Result<QueryResultsMap, ExecuteQueryError>)
        ensures
            self.stored_queries().contains_key(query_k@) <==> !(r matches Err(
                ExecuteQueryError::QueryNotFound(_),
            )),
            r matches Err(ExecuteQueryError::QueryNotFound(s)) ==> s@ == query_k@,
            !(r matches Err(ExecuteQueryError::WrongQueryType(..))),
            !(r matches Err(ExecuteQueryError::UpdateEvaluationError(_))),
            self.stored_queries().contains_key(query_k@) ==> (r matches Err(
                ExecuteQueryError::SyntaxError(_),
            ) <==> parsed_query_form(self.stored_text(query_k@)) is None),
            self.stored_queries().contains_key(query_k@) && parsed_query_form(
                self.stored_text(query_k@),
            ) is Some ==> (r is Ok || r matches Err(ExecuteQueryError::QueryEvaluationError(_))),
            r matches Ok(rows) ==> self.query_answer(query_k@, rows@),
    {
        let outcome = self.evaluate_stored(query_k)?;
        let ghost answer = outcome_answer(outcome);
        match outcome {
            QueryOutcome::Solutions(sols) => {
                let rows = rows_from_solutions(&sols);
                proof {
                    assert(answer == AnswerView::Solutions(solutions_answer(sols@)));
                    assert(results_view(rows@) == solution_rows(sols@));
                }
                Ok(rows)
            },
            QueryOutcome::Graph(triples) => {
                let rows = rows_from_triples(&triples);
                proof {
                    assert(answer == AnswerView::Graph(triples_answer(triples@)));
                    assert(results_view(rows@) == triple_rows(triples@));
                }
                Ok(rows)
            },
            QueryOutcome::Boolean(_) => Ok(Vec::new()),
        }
    }

}

impl Database for MemDatabase {
    /// Runs a stored query, as `query_rows` does.
    fn execute_query(&self, query_k: &str) -> (r: Result<QueryResultsMap, ExecuteQueryError>)
        ensures
            self.stored_queries().contains_key(query_k@) <==> !(r matches Err(
                ExecuteQueryError::QueryNotFound(_),
            )),
            r matches Err(ExecuteQueryError::QueryNotFound(s)) ==> s@ == query_k@,
            !(r matches Err(ExecuteQueryError::WrongQueryType(..))),
            !(r matches Err(ExecuteQueryError::UpdateEvaluationError(_))),
            self.stored_queries().contains_key(query_k@) ==> (r matches Err(
                ExecuteQueryError::SyntaxError(_),
            ) <==> parsed_query_form(self.stored_text(query_k@)) is None),
            self.stored_queries().contains_key(query_k@) && parsed_query_form(
                self.stored_text(query_k@),
            ) is Some ==> (r is Ok || r matches Err(ExecuteQueryError::QueryEvaluationError(_))),
            r matches Ok(rows) ==> self.query_answer(query_k@, rows@),
    {
        self.query_rows(query_k)
    }

    /// Runs a stored construct or describe query: its triples, those that
    /// failed to evaluate included as errors; another kind of query is refused.
    fn execute_graph_query(&self, query_k: &str) -> (r: Result<
        Vec<Result<Quad, QueryEvaluationError>>,
        ExecuteQueryError,
    >)
        ensures
            self.stored_queries().contains_key(query_k@) <==> !(r matches Err(
                ExecuteQueryError::QueryNotFound(_),
            )),
            r matches Err(ExecuteQueryError::QueryNotFound(s)) ==> s@ == query_k@,
            r matches Err(ExecuteQueryError::WrongQueryType(k, kinds)) ==> k@ == query_k@
                && kinds@ == "Describe,Construct"@,
            !(r matches Err(ExecuteQueryError::UpdateEvaluationError(_))),
            self.stored_queries().contains_key(query_k@) ==> (r matches Err(
                ExecuteQueryError::SyntaxError(_),
            ) <==> parsed_query_form(self.stored_text(query_k@)) is None),
            self.stored_queries().contains_key(query_k@) ==> match parsed_query_form(
                self.stored_text(query_k@),
            ) {
                Some(QueryForm::Construct) | Some(QueryForm::Describe) => r is Ok || r matches Err(
                    ExecuteQueryError::QueryEvaluationError(_),
                ),
                Some(_) => r matches Err(ExecuteQueryError::WrongQueryType(..)) || r matches Err(
                    ExecuteQueryError::QueryEvaluationError(_),
                ),
                None => r matches Err(ExecuteQueryError::SyntaxError(_)),
            },
            r matches Ok(ts) ==> query_gives(
                self.store_state(),
                self.stored_text(query_k@),
                AnswerView::Graph(triples_answer(ts@)),
            ),
    {
        let outcome = self.evaluate_stored(query_k)?;
        graph_of_outcome(outcome, query_k)
    }

    /// Runs a stored update on the store.
    fn execute_update(&mut self, query_k: &str) -> (r: Result<(), ExecuteQueryError>)
        ensures
            final(self).prefix_map() == old(self).prefix_map(),
            final(self).file_prefix_map() == old(self).file_prefix_map(),
            final(self).stored_queries() == old(self).stored_queries(),
            final(self).next_blank_node() == old(self).next_blank_node(),
            old(self).stored_queries().contains_key(query_k@) <==> !(r matches Err(
                ExecuteQueryError::QueryNotFound(_),
            )),
            r matches Err(ExecuteQueryError::QueryNotFound(s)) ==> s@ == query_k@,
            !(r matches Err(ExecuteQueryError::WrongQueryType(..))),
            !(r matches Err(ExecuteQueryError::QueryEvaluationError(_))),
            old(self).stored_queries().contains_key(query_k@) ==> (r matches Err(
                ExecuteQueryError::SyntaxError(_),
            ) <==> !update_parses(old(self).stored_text(query_k@))),
            r is Err ==> final(self).contents() == old(self).contents(),
            r is Ok ==> old(self).update_applied(query_k@, *final(self)),
    {
        let query = self.queries.get(query_k);
        let text = match query {
            Some(q) => {
                proof {
                    q.lemma_view();
                }
                q.get_query().clone()
            },
            None => {
                return Err(ExecuteQueryError::QueryNotFound(String::from_str(query_k)));
            },
        };
        match apply_update(text.as_str(), &mut self.store) {
            Ok(()) => Ok(()),
            Err(UpdateFailure::Syntax(e)) => Err(ExecuteQueryError::SyntaxError(e)),
            Err(UpdateFailure::Evaluation(e)) => Err(ExecuteQueryError::UpdateEvaluationError(e)),
        }
    }

    /// Stores a query under a key, in place of an earlier one.
    fn load_query(&mut self, file: String, query: Query)
        ensures
            final(self).stored_queries() == old(self).stored_queries().insert(file@, query@),
            final(self).prefix_map() == old(self).prefix_map(),
            final(self).file_prefix_map() == old(self).file_prefix_map(),
            final(self).next_blank_node() == old(self).next_blank_node(),
            final(self).contents() == old(self).contents(),
    {
        self.queries.insert(file, query);
    }

    /// Evaluates an attack tree against the stored queries.
    fn run_attack_tree(&self, tree: &mut AttackTree) -> (r: Result<(), ExecuteQueryError>)
        ensures
            same_shape(*old(tree), *final(tree)),
            r is Ok ==> evaluated(self, *old(tree), *final(tree)),
            r matches Err(e) ==> crate::query::eval_failed(self, *old(tree), *final(tree), e),
    {
        tree.evaluate(self)
    }

    /// Loads a JSON description into the store with the given default
    /// prefix: the quads of `file_data_quads`, added to the store at once.
    fn load_file_data(&mut self, value: &JsonValue, default_url: &str) -> (r: Result<
        (),
        DatabaseLoadError,
    >)
        ensures
            final(self).prefix_map() == old(self).prefix_map(),
            final(self).file_prefix_map() == old(self).file_prefix_map(),
            final(self).stored_queries() == old(self).stored_queries(),
            match description_quads(
                old(self).prefix_map(),
                default_url@,
                *value,
                old(self).next_blank_node(),
            ) {
                Ok((q, n)) => {
                    &&& r is Ok
                    &&& final(self).next_blank_node() == n
                    &&& final(self).contents() == old(self).contents().union(stored_set(q))
                },
                Err(f) => {
                    &&& (r matches Err(e) && load_error_is(e, f))
                    &&& final(self).contents() == old(self).contents()
                },
            },
    {
        let quads = self.file_data_quads(value, default_url)?;
        self.store_quads(&quads)
    }

    /// Loads the syntax tree of a source file into the store: the quads of
    /// `source_code_quads`, added to the store at once.
    fn load_source_code(&mut self, tree: &SyntaxNode) -> (r: Result<(), DatabaseLoadError>)
        ensures
            final(self).prefix_map() == old(self).prefix_map(),
            final(self).file_prefix_map() == old(self).file_prefix_map(),
            final(self).stored_queries() == old(self).stored_queries(),
            match source_code_quads(*tree, old(self).next_blank_node()) {
                Ok((q, n)) => {
                    &&& r is Ok
                    &&& final(self).next_blank_node() == n
                    &&& final(self).contents() == old(self).contents().union(stored_set(q))
                },
                Err(f) => {
                    &&& (r matches Err(e) && load_error_is(e, f))
                    &&& final(self).contents() == old(self).contents()
                },
            },
    {
        let quads = self.source_code_quads(tree)?;
        self.store_quads(&quads)
    }

    /// The map from prefixes to their URIs.
    fn get_prefix_map(&self) -> (r: &StringMap)
        ensures
            r@ == self.prefix_map(),
    {
        &self.prefixes
    }

    /// The map from file placeholders to prefixes.
    fn get_file_prefixes(&self) -> (r: &StringMap)
        ensures
            r@ == self.file_prefix_map(),
    {
        &self.file_prefixes
    }
}

} // verus!
