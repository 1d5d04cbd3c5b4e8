//! The decisions of an analysis: which files hold queries, under which
//! prefix a description is loaded, which queries run in which order, and
//! what the report says of their outcomes.
use vstd::prelude::*;
use crate::database::{parsed_query_form, stored_set, update_parses, Database, MemDatabase};
use crate::error::{DataLoadError, ExecuteQueryError};
use crate::json::{entry_index, object_get, JsonValue};
use crate::loader::description_quads;
use crate::query::{eval_failed, evaluated, query_metadata, AttackTree, Query, QueryResultsMap};
use crate::report::Report;
use crate::workspace::{
    eq_ignore_ascii_case, extension_from_path, file_name_of, file_prefix_for, file_stem,
    is_query_extension, path_extension, path_file_name, path_placeholder, stem_of, QueryKind,
};

verus! {

/// Names, as text.
pub open spec fn names_view(names: Seq<String>) -> Seq<Seq<char>> {
    names.map_values(|s: String| s@)
}

/// The queries found for each kind of query, in the order they were found.
#[derive(Debug)]
pub struct QueryIndex {
    regulation: Option<Vec<String>>,
    attack: Option<Vec<String>>,
    requirement: Option<Vec<String>>,
    reasoner: Option<Vec<String>>,
    extra_data: Option<Vec<String>>,
    source_code: Option<Vec<String>>,
    code_gen_data: Option<Vec<String>>,
}

impl QueryIndex {
    /// The queries of a kind, if the kind has an entry.
    pub closed spec fn queries(&self, kind: QueryKind) -> Option<Seq<Seq<char>>> {
        let slot = match kind {
            QueryKind::Regulation => self.regulation,
            QueryKind::Attack => self.attack,
            QueryKind::Requirement => self.requirement,
            QueryKind::Reasoner => self.reasoner,
            QueryKind::ExtraData => self.extra_data,
            QueryKind::SourceCode => self.source_code,
            QueryKind::CodeGenData => self.code_gen_data,
        };
        match slot {
            Some(v) => Some(names_view(v@)),
            None => None,
        }
    }

    /// An index with no entry.
    pub fn new() -> (r: Self)
        ensures
            forall|k: QueryKind| r.queries(k) is None,
    {
        QueryIndex {
            regulation: None,
            attack: None,
            requirement: None,
            reasoner: None,
            extra_data: None,
            source_code: None,
            code_gen_data: None,
        }
    }

    /// Sets the queries of a kind, in place of earlier ones.
    pub fn insert(&mut self, kind: QueryKind, names: Vec<String>)
        ensures
            final(self).queries(kind) == Some(names_view(names@)),
            forall|k: QueryKind| k != kind ==> final(self).queries(k) == old(self).queries(k),
    {
        match kind {
            QueryKind::Regulation => self.regulation = Some(names),
            QueryKind::Attack => self.attack = Some(names),
            QueryKind::Requirement => self.requirement = Some(names),
            QueryKind::Reasoner => self.reasoner = Some(names),
            QueryKind::ExtraData => self.extra_data = Some(names),
            QueryKind::SourceCode => self.source_code = Some(names),
            QueryKind::CodeGenData => self.code_gen_data = Some(names),
        }
    }

    /// The queries of a kind.
    pub fn get(&self, kind: QueryKind) -> (r: Option<&Vec<String>>)
        ensures
            match r {
                Some(v) => self.queries(kind) == Some(names_view(v@)),
                None => self.queries(kind) is None,
            },
    {
        match kind {
            QueryKind::Regulation => self.regulation.as_ref(),
            QueryKind::Attack => self.attack.as_ref(),
            QueryKind::Requirement => self.requirement.as_ref(),
            QueryKind::Reasoner => self.reasoner.as_ref(),
            QueryKind::ExtraData => self.extra_data.as_ref(),
            QueryKind::SourceCode => self.source_code.as_ref(),
            QueryKind::CodeGenData => self.code_gen_data.as_ref(),
        }
    }
}

/// Whether a path names a query file: its extension is `rq` or `sparql`,
/// in any case.
pub open spec fn is_query_path(path: Seq<char>) -> bool {
    match path_extension(path) {
        Some(e) => eq_ignore_ascii_case("rq"@, e) || eq_ignore_ascii_case("sparql"@, e),
        None => false,
    }
}

/// The paths that name query files, in order.
pub open spec fn query_paths(paths: Seq<Seq<char>>) -> Seq<Seq<char>>
    decreases paths.len(),
{
    if paths.len() == 0 {
        seq![]
    } else if is_query_path(paths.last()) {
        query_paths(paths.drop_last()).push(paths.last())
    } else {
        query_paths(paths.drop_last())
    }
}

/// Whether a path names a query file.
pub fn is_query_file(path: &str) -> (r: bool)
    ensures
        r == is_query_path(path@),
{
    match extension_from_path(path) {
        Some(ext) => is_query_extension(ext.as_str()),
        None => false,
    }
}

/// The paths, among those found in a directory, that name query files.
pub fn query_files(paths: &Vec<String>) -> (r: Vec<String>)
    ensures
        names_view(r@) == query_paths(names_view(paths@)),
{
    let mut r: Vec<String> = Vec::new();
    let n = paths.len();
    let mut i: usize = 0;
    while i < n
        invariant
            n == paths@.len(),
            i <= n,
            names_view(r@) == query_paths(names_view(paths@.take(i as int))),
        decreases n - i,
    {
        proof {
            assert(names_view(paths@.take(i + 1)).drop_last() =~= names_view(paths@.take(i as int)));
            assert(names_view(paths@.take(i + 1)).last() == paths@[i as int]@);
        }
        if is_query_file(paths[i].as_str()) {
            let ghost before = r@;
            r.push(paths[i].clone());
            proof {
                assert(names_view(r@) =~= names_view(before).push(paths@[i as int]@));
            }
        }
        i = i + 1;
    }
    proof {
        assert(paths@.take(n as int) =~= paths@);
    }
    r
}

/// The stored queries after the files `files[..]` (each a path and the
/// query's text) are stored, each under its path.
pub open spec fn with_queries(
    stored: Map<Seq<char>, (Seq<char>, Map<Seq<char>, Seq<char>>)>,
    files: Seq<(String, String)>,
) -> Map<Seq<char>, (Seq<char>, Map<Seq<char>, Seq<char>>)>
    decreases files.len(),
{
    if files.len() == 0 {
        stored
    } else {
        let f = files.last();
        with_queries(stored, files.drop_last()).insert(f.0@, (f.1@, query_metadata(f.1@)))
    }
}

/// Law: after query files are stored, the query under the path of each of
/// them is the text and metadata of the last file with that path, and the
/// queries under other keys are those stored before.
pub proof fn lemma_stored_queries_found(
    stored: Map<Seq<char>, (Seq<char>, Map<Seq<char>, Seq<char>>)>,
    files: Seq<(String, String)>,
)
    ensures
        forall|i: int|
            0 <= i < files.len() && (forall|j: int| i < j < files.len() ==> files[j].0@ != files[i].0@)
                ==> #[trigger] with_queries(stored, files).contains_key(files[i].0@) && with_queries(
                stored,
                files,
            )[files[i].0@] == (files[i].1@, query_metadata(files[i].1@)),
        forall|k: Seq<char>|
            (forall|j: int| 0 <= j < files.len() ==> files[j].0@ != k) ==> (#[trigger] with_queries(
                stored,
                files,
            ).contains_key(k) == stored.contains_key(k) && (stored.contains_key(k) ==> with_queries(
                stored,
                files,
            )[k] == stored[k])),
    decreases files.len(),
{
    if files.len() > 0 {
        let d = files.drop_last();
        let last = files.last();
        lemma_stored_queries_found(stored, d);
        assert(with_queries(stored, files) == with_queries(stored, d).insert(
            last.0@,
            (last.1@, query_metadata(last.1@)),
        ));
        assert forall|i: int|
            0 <= i < files.len() && (forall|j: int| i < j < files.len() ==> files[j].0@ != files[i].0@)
                implies #[trigger] with_queries(stored, files).contains_key(files[i].0@) && with_queries(
            stored,
            files,
        )[files[i].0@] == (files[i].1@, query_metadata(files[i].1@)) by {
            if i < files.len() - 1 {
                assert(files[i] == d[i]);
                assert(files.last().0@ != files[i].0@);
                assert forall|j: int| i < j < d.len() implies d[j].0@ != d[i].0@ by {
                    assert(d[j] == files[j]);
                }
                assert(with_queries(stored, d).contains_key(d[i].0@));
            }
        }
        assert forall|k: Seq<char>|
            (forall|j: int| 0 <= j < files.len() ==> files[j].0@ != k) implies (#[trigger] with_queries(
            stored,
            files,
        ).contains_key(k) == stored.contains_key(k) && (stored.contains_key(k) ==> with_queries(
            stored,
            files,
        )[k] == stored[k])) by {
            assert(files.last().0@ != k);
            assert forall|j: int| 0 <= j < d.len() implies d[j].0@ != k by {
                assert(d[j] == files[j]);
            }
            assert(with_queries(stored, d).contains_key(k) == stored.contains_key(k));
        }
    }
}

/// The paths of files, in order.
pub open spec fn file_paths(files: Seq<(String, String)>) -> Seq<Seq<char>> {
    files.map_values(|f: (String, String)| f.0@)
}

/// Stores the queries of one kind, each under the path of its file, and
/// records their paths, in order, as the queries of the kind.
pub fn load_queries_of_kind(
    db: &mut MemDatabase,
    index: &mut QueryIndex,
    kind: QueryKind,
    files: Vec<(String, String)>,
)
    ensures
        final(db).stored_queries() == with_queries(old(db).stored_queries(), files@),
        final(db).prefix_map() == old(db).prefix_map(),
        final(db).file_prefix_map() == old(db).file_prefix_map(),
        final(db).next_blank_node() == old(db).next_blank_node(),
        final(db).contents() == old(db).contents(),
        final(index).queries(kind) == Some(file_paths(files@)),
        forall|k: QueryKind| k != kind ==> final(index).queries(k) == old(index).queries(k),
{
    let ghost all = files@;
    let mut files = files;
    let mut keys: Vec<String> = Vec::new();
    let ghost mut done: int = 0;
    while files.len() > 0
        invariant
            0 <= done <= all.len(),
            files@ == all.skip(done),
            names_view(keys@) == file_paths(all.take(done)),
            db.stored_queries() == with_queries(old(db).stored_queries(), all.take(done)),
            db.prefix_map() == old(db).prefix_map(),
            db.file_prefix_map() == old(db).file_prefix_map(),
            db.next_blank_node() == old(db).next_blank_node(),
            db.contents() == old(db).contents(),
        decreases files.len(),
    {
        let (path, text) = files.remove(0);
        proof {
            assert(all.take(done + 1).drop_last() =~= all.take(done));
            assert(all.take(done + 1).last() == (path, text));
        }
        let ghost before = keys@;
        let ghost pv = path@;
        keys.push(path.clone());
        let query = Query::from_string(text);
        proof {
            query.lemma_view();
        }
        db.load_query(path, query);
        proof {
            assert(names_view(keys@) =~= names_view(before).push(pv));
            assert(file_paths(all.take(done + 1)) =~= file_paths(all.take(done)).push(pv));
            done = done + 1;
            assert(files@ =~= all.skip(done));
        }
    }
    proof {
        assert(all.take(done) =~= all);
    }
    index.insert(kind, keys);
}

/// Loads a description read from the file at `path` into the database,
/// under the prefix that the file's placeholder maps to.
pub fn load_description(db: &mut MemDatabase, path: &str, value: &JsonValue) -> (r: Result<
    (),
    DataLoadError,
>)
    ensures
        final(db).prefix_map() == old(db).prefix_map(),
        final(db).file_prefix_map() == old(db).file_prefix_map(),
        final(db).stored_queries() == old(db).stored_queries(),
        match path_placeholder(path@) {
            None => r matches Err(DataLoadError::FileWithNoExtensionError(s)) && s@ == path@
                && final(db).next_blank_node() == old(db).next_blank_node()
                && final(db).contents() == old(db).contents(),
            Some(p) => if !old(db).file_prefix_map().contains_key(p) {
                r matches Err(DataLoadError::FileExtensionHasNoPrefixError(s)) && s@ == p
                    && final(db).next_blank_node() == old(db).next_blank_node()
                    && final(db).contents() == old(db).contents()
            } else {
                match description_quads(
                    old(db).prefix_map(),
                    old(db).file_prefix_map()[p],
                    *value,
                    old(db).next_blank_node(),
                ) {
                    Ok((q, n)) => r is Ok && final(db).next_blank_node() == n
                        && final(db).contents() == old(db).contents().union(stored_set(q)),
                    Err(f) => r matches Err(DataLoadError::DatabaseError(e)) && crate::error::load_error_is(e, f)
                        && final(db).contents() == old(db).contents(),
                }
            },
        },
{
    let prefix = match file_prefix_for(db.get_file_prefixes(), path) {
        Ok(prefix) => prefix,
        Err(e) => {
            return Err(e);
        },
    };
    match db.load_file_data(value, prefix.as_str()) {
        Ok(()) => Ok(()),
        Err(e) => Err(DataLoadError::DatabaseError(e)),
    }
}

/// Runs the reasoner's update queries in order, and stops at the first that
/// fails, with its name and its error.
pub fn run_reasoner(db: &mut MemDatabase, queries: &Vec<String>) -> (r: Result<
    (),
    (String, ExecuteQueryError),
>)
    ensures
        final(db).prefix_map() == old(db).prefix_map(),
        final(db).file_prefix_map() == old(db).file_prefix_map(),
        final(db).stored_queries() == old(db).stored_queries(),
        final(db).next_blank_node() == old(db).next_blank_node(),
        r is Ok ==> updates_applied(*old(db), names_view(queries@), *final(db)),
        r matches Err((q, e)) ==> exists|i: int, mid: MemDatabase|
            0 <= i < queries@.len() && queries@[i]@ == q@ && #[trigger] updates_applied(
                *old(db),
                names_view(queries@.take(i)),
                mid,
            ) && final(db).contents() == mid.contents() && update_refused(*old(db), q@, e),
{
    let ghost start = *db;
    let ghost mut states: Seq<MemDatabase> = seq![*db];
    let n = queries.len();
    let mut i: usize = 0;
    while i < n
        invariant
            n == queries@.len(),
            i <= n,
            start == *old(db),
            states.len() == i + 1,
            states[0] == start,
            states[i as int] == *db,
            update_chain(states, names_view(queries@.take(i as int))),
            db.prefix_map() == start.prefix_map(),
            db.file_prefix_map() == start.file_prefix_map(),
            db.stored_queries() == start.stored_queries(),
            db.next_blank_node() == start.next_blank_node(),
        decreases n - i,
    {
        proof {
            assert(updates_applied(start, names_view(queries@.take(i as int)), *db));
        }
        match db.execute_update(queries[i].as_str()) {
            Ok(()) => {
                proof {
                    let keys = names_view(queries@.take(i + 1));
                    let before = names_view(queries@.take(i as int));
                    assert(keys =~= before.push(queries@[i as int]@));
                    states = states.push(*db);
                }
            },
            Err(e) => {
                return Err((queries[i].clone(), e));
            },
        }
        i = i + 1;
    }
    proof {
        assert(queries@.take(n as int) =~= queries@);
        assert(updates_applied(start, names_view(queries@), *db));
    }
    Ok(())
}

/// Each database of `states` is the one before it with the update stored
/// under the matching key applied.
pub open spec fn update_chain(states: Seq<MemDatabase>, keys: Seq<Seq<char>>) -> bool {
    &&& states.len() == keys.len() + 1
    &&& forall|j: int| 0 <= j < keys.len() ==> #[trigger] states[j].update_applied(keys[j], states[j + 1])
}

/// `after` is `before` with the updates stored under the keys applied in
/// order, each to the store that the one before it left.
pub open spec fn updates_applied(before: MemDatabase, keys: Seq<Seq<char>>, after: MemDatabase) -> bool {
    exists|states: Seq<MemDatabase>|
        #[trigger] update_chain(states, keys) && states[0] == before && states.last() == after
}

/// The error with which the update stored under a key is refused: not found
/// where no query is stored under the key, a syntax error where its text
/// does not parse as an update, else an error of its evaluation.
pub open spec fn update_refused(db: MemDatabase, key: Seq<char>, e: ExecuteQueryError) -> bool {
    &&& !db.stored_queries().contains_key(key) <==> e is QueryNotFound
    &&& e matches ExecuteQueryError::QueryNotFound(s) ==> s@ == key
    &&& db.stored_queries().contains_key(key) ==> (e is SyntaxError <==> !update_parses(
        db.stored_text(key),
    ))
    &&& !(e is WrongQueryType)
    &&& !(e is QueryEvaluationError)
}

/// The outcome of each query run on its own, in order: its name with its
/// results or its error.
pub fn query_outcomes(db: &MemDatabase, queries: &Vec<String>) -> (r: Vec<
    (String, Result<QueryResultsMap, ExecuteQueryError>),
>)
    ensures
        r@.len() == queries@.len(),
        forall|i: int|
            0 <= i < r@.len() ==> {
                &&& (#[trigger] r@[i]).0@ == queries@[i]@
                &&& db.stored_queries().contains_key(queries@[i]@) <==> !(r@[i].1 matches Err(
                    ExecuteQueryError::QueryNotFound(_),
                ))
                &&& !(r@[i].1 matches Err(ExecuteQueryError::WrongQueryType(..)))
                &&& !(r@[i].1 matches Err(ExecuteQueryError::UpdateEvaluationError(_)))
                &&& (r@[i].1 matches Ok(rows) ==> db.query_answer(queries@[i]@, rows@))
                &&& (db.stored_queries().contains_key(queries@[i]@) ==> (r@[i].1 matches Err(
                    ExecuteQueryError::SyntaxError(_),
                ) <==> parsed_query_form(db.stored_text(queries@[i]@)) is None))
            },
{
    let mut r: Vec<(String, Result<QueryResultsMap, ExecuteQueryError>)> = Vec::new();
    let n = queries.len();
    let mut i: usize = 0;
    while i < n
        invariant
            n == queries@.len(),
            i <= n,
            r@.len() == i,
            forall|j: int|
                0 <= j < i ==> {
                    &&& (#[trigger] r@[j]).0@ == queries@[j]@
                    &&& db.stored_queries().contains_key(queries@[j]@) <==> !(r@[j].1 matches Err(
                        ExecuteQueryError::QueryNotFound(_),
                    ))
                    &&& !(r@[j].1 matches Err(ExecuteQueryError::WrongQueryType(..)))
                    &&& !(r@[j].1 matches Err(ExecuteQueryError::UpdateEvaluationError(_)))
                    &&& (r@[j].1 matches Ok(rows) ==> db.query_answer(queries@[j]@, rows@))
                    &&& (db.stored_queries().contains_key(queries@[j]@) ==> (r@[j].1 matches Err(
                        ExecuteQueryError::SyntaxError(_),
                    ) <==> parsed_query_form(db.stored_text(queries@[j]@)) is None))
                },
        decreases n - i,
    {
        let outcome = db.execute_query(queries[i].as_str());
        r.push((queries[i].clone(), outcome));
        i = i + 1;
    }
    r
}

/// Evaluates each attack tree in order, and stops at the first error.
pub fn run_attack_trees(db: &MemDatabase, trees: Vec<AttackTree>) -> (r: Result<
    Vec<AttackTree>,
    ExecuteQueryError,
>)
    ensures
        trees@.len() == 0 ==> (r matches Ok(done) && done@.len() == 0),
        r matches Ok(done) ==> done@.len() == trees@.len() && forall|i: int|
            0 <= i < trees@.len() ==> evaluated(db, trees@[i], #[trigger] done@[i]),
        r matches Err(e) ==> exists|i: int, after: AttackTree|
            0 <= i < trees@.len() && #[trigger] eval_failed(db, trees@[i], after, e) && forall|j: int|
                0 <= j < i ==> #[trigger] evaluates(db, trees@[j]),
{
    let ghost all = trees@;
    let mut rest = trees;
    let mut done: Vec<AttackTree> = Vec::new();
    while rest.len() > 0
        invariant
            all == trees@,
            done@.len() + rest@.len() == all.len(),
            rest@ == all.skip(done@.len() as int),
            forall|i: int| 0 <= i < done@.len() ==> evaluated(db, all[i], #[trigger] done@[i]),
        decreases rest.len(),
    {
        let ghost k = done@.len() as int;
        let mut tree = rest.remove(0);
        proof {
            assert(tree == all[k]);
        }
        match db.run_attack_tree(&mut tree) {
            Ok(()) => {},
            Err(e) => {
                proof {
                    assert(eval_failed(db, all[k], tree, e));
                    assert forall|j: int| 0 <= j < k implies #[trigger] evaluates(db, all[j]) by {
                        assert(evaluated(db, all[j], done@[j]));
                    }
                }
                return Err(e);
            },
        }
        done.push(tree);
        proof {
            assert(rest@ =~= all.skip(done@.len() as int));
        }
    }
    Ok(done)
}

/// Evaluating the tree succeeds with some outcome.
pub open spec fn evaluates(db: &MemDatabase, tree: AttackTree) -> bool {
    exists|after: AttackTree| #[trigger] evaluated(db, tree, after)
}

/// The results of the outcomes that succeeded, by query; a later outcome
/// of a query replaces an earlier one.
pub open spec fn outcome_results(outcomes: Seq<(String, Result<QueryResultsMap, ExecuteQueryError>)>) -> Map<
    Seq<char>,
    Seq<Vec<(String, String)>>,
>
    decreases outcomes.len(),
{
    if outcomes.len() == 0 {
        Map::empty()
    } else {
        let o = outcomes.last();
        match o.1 {
            Ok(rows) => outcome_results(outcomes.drop_last()).insert(o.0@, rows@),
            Err(_) => outcome_results(outcomes.drop_last()),
        }
    }
}

/// The queries whose outcome is an empty result, in order.
pub open spec fn empty_results(outcomes: Seq<(String, Result<QueryResultsMap, ExecuteQueryError>)>) -> Seq<
    Seq<char>,
>
    decreases outcomes.len(),
{
    if outcomes.len() == 0 {
        seq![]
    } else {
        let o = outcomes.last();
        match o.1 {
            Ok(rows) => if rows@.len() == 0 {
                empty_results(outcomes.drop_last()).push(o.0@)
            } else {
                empty_results(outcomes.drop_last())
            },
            Err(_) => empty_results(outcomes.drop_last()),
        }
    }
}

/// The queries that failed, with their errors, in order.
pub open spec fn failures(outcomes: Seq<(String, Result<QueryResultsMap, ExecuteQueryError>)>) -> Seq<
    (Seq<char>, ExecuteQueryError),
>
    decreases outcomes.len(),
{
    if outcomes.len() == 0 {
        seq![]
    } else {
        let o = outcomes.last();
        match o.1 {
            Ok(_) => failures(outcomes.drop_last()),
            Err(e) => failures(outcomes.drop_last()).push((o.0@, e)),
        }
    }
}

/// Failures, with the names as text.
pub open spec fn failures_view(f: Seq<(String, ExecuteQueryError)>) -> Seq<(Seq<char>, ExecuteQueryError)> {
    f.map_values(|p: (String, ExecuteQueryError)| (p.0@, p.1))
}

/// The kinds of query outcomes that a report takes.
pub enum OutcomeKind {
    Regulation,
    Requirement,
    ExtraData,
}

/// Records the outcomes of one kind of query in a report; the failures are
/// added to `failed`.
fn record_outcomes(
    report: &mut Report,
    failed: &mut Vec<(String, ExecuteQueryError)>,
    kind: OutcomeKind,
    outcomes: Vec<(String, Result<QueryResultsMap, ExecuteQueryError>)>,
)
    ensures
        failures_view(final(failed)@) == failures_view(old(failed)@) + failures(outcomes@),
        final(report).attack_trees_view() == old(report).attack_trees_view(),
        final(report).violations_view() == match kind {
            OutcomeKind::Regulation => old(report).violations_view().union_prefer_right(
                outcome_results(outcomes@),
            ),
            _ => old(report).violations_view(),
        },
        final(report).extra_data_view() == match kind {
            OutcomeKind::ExtraData => old(report).extra_data_view().union_prefer_right(
                outcome_results(outcomes@),
            ),
            _ => old(report).extra_data_view(),
        },
        names_view(final(report).unmet_view()) == match kind {
            OutcomeKind::Requirement => names_view(old(report).unmet_view()) + empty_results(
                outcomes@,
            ),
            _ => names_view(old(report).unmet_view()),
        },
{
    let ghost all = outcomes@;
    let mut rest = outcomes;
    let ghost mut done: int = 0;
    while rest.len() > 0
        invariant
            0 <= done <= all.len(),
            rest@ == all.skip(done),
            failures_view(failed@) == failures_view(old(failed)@) + failures(all.take(done)),
            report.attack_trees_view() == old(report).attack_trees_view(),
            report.violations_view() == match kind {
                OutcomeKind::Regulation => old(report).violations_view().union_prefer_right(
                    outcome_results(all.take(done)),
                ),
                _ => old(report).violations_view(),
            },
            report.extra_data_view() == match kind {
                OutcomeKind::ExtraData => old(report).extra_data_view().union_prefer_right(
                    outcome_results(all.take(done)),
                ),
                _ => old(report).extra_data_view(),
            },
            names_view(report.unmet_view()) == match kind {
                OutcomeKind::Requirement => names_view(old(report).unmet_view()) + empty_results(
                    all.take(done),
                ),
                _ => names_view(old(report).unmet_view()),
            },
        decreases rest.len(),
    {
        let (name, outcome) = rest.remove(0);
        let ghost nv = name@;
        proof {
            assert(all.take(done + 1).drop_last() =~= all.take(done));
            assert(all.take(done + 1).last() == (name, outcome));
        }
        let ghost f0 = failed@;
        let ghost u0 = report.unmet_view();
        let ghost v0 = report.violations_view();
        let ghost x0 = report.extra_data_view();
        match outcome {
            Ok(rows) => {
                match kind {
                    OutcomeKind::Regulation => {
                        report.add_violations(name, rows);
                        proof {
                            assert(report.violations_view() =~= old(report).violations_view().union_prefer_right(
                                outcome_results(all.take(done + 1)),
                            ));
                        }
                    },
                    OutcomeKind::ExtraData => {
                        report.add_extra_data(name, rows);
                        proof {
                            assert(report.extra_data_view() =~= old(report).extra_data_view().union_prefer_right(
                                outcome_results(all.take(done + 1)),
                            ));
                        }
                    },
                    OutcomeKind::Requirement => {
                        if rows.len() == 0 {
                            report.add_unmet_requirement(name);
                            proof {
                                assert(names_view(report.unmet_view()) =~= names_view(u0).push(nv));
                            }
                        }
                    },
                }
            },
            Err(e) => {
                failed.push((name, e));
                proof {
                    assert(failures_view(failed@) =~= failures_view(f0).push((nv, e)));
                }
            },
        }
        proof {
            done = done + 1;
            assert(rest@ =~= all.skip(done));
        }
    }
    proof {
        assert(all.take(done) =~= all);
    }
}

/// The report of an analysis from the outcomes of its queries: the results
/// of each regulation query that ran, the attack trees, the requirement
/// queries that found nothing, and the results of each extra-data query
/// that ran; with the queries that failed, with their errors, in the order
/// regulations, requirements, extra data.
pub fn report_from_outcomes(
    regulations: Vec<(String, Result<QueryResultsMap, ExecuteQueryError>)>,
    attack_trees: Vec<AttackTree>,
    requirements: Vec<(String, Result<QueryResultsMap, ExecuteQueryError>)>,
    extra_data: Vec<(String, Result<QueryResultsMap, ExecuteQueryError>)>,
) -> (r: (Report, Vec<(String, ExecuteQueryError)>))
    ensures
        r.0.violations_view() == outcome_results(regulations@),
        r.0.attack_trees_view() == attack_trees@,
        names_view(r.0.unmet_view()) == empty_results(requirements@),
        r.0.extra_data_view() == outcome_results(extra_data@),
        failures_view(r.1@) == failures(regulations@) + failures(requirements@) + failures(
            extra_data@,
        ),
{
    let ghost regs = regulations@;
    let ghost reqs = requirements@;
    let ghost extra = extra_data@;
    let mut report = Report::new();
    let mut failed: Vec<(String, ExecuteQueryError)> = Vec::new();
    proof {
        assert(failures_view(failed@) =~= seq![]);
        assert(names_view(report.unmet_view()) =~= seq![]);
        assert(report.attack_trees_view() =~= seq![]);
    }
    record_outcomes(&mut report, &mut failed, OutcomeKind::Regulation, regulations);
    report.add_attack_trees(attack_trees);
    record_outcomes(&mut report, &mut failed, OutcomeKind::Requirement, requirements);
    record_outcomes(&mut report, &mut failed, OutcomeKind::ExtraData, extra_data);
    proof {
        assert(report.violations_view() =~= outcome_results(regs));
        assert(report.extra_data_view() =~= outcome_results(extra));
        assert(names_view(report.unmet_view()) =~= empty_results(reqs));
        assert(failures_view(failed@) =~= failures(regs) + failures(reqs) + failures(extra));
    }
    (report, failed)
}

/// The items of the array under key `ex_all` of a JSON object.
pub open spec fn codegen_items(tree: JsonValue) -> Option<Vec<JsonValue>> {
    match tree {
        JsonValue::Object(entries) => match entry_index(entries@, "ex_all"@) {
            Some(i) => match entries@[i].1 {
                JsonValue::Array(items) => Some(items),
                _ => None,
            },
            None => None,
        },
        _ => None,
    }
}

/// The entries of generated code in the JSON tree of a code-generation
/// query: the items of the array under its key `ex_all`.
pub fn codegen_entries(tree: &JsonValue) -> (r: Option<&Vec<JsonValue>>)
    ensures
        match r {
            Some(items) => codegen_items(*tree) == Some(*items),
            None => codegen_items(*tree) is None,
        },
{
    proof {
        reveal_strlit("ex_all");
    }
    match tree {
        JsonValue::Object(entries) => match object_get(entries, "ex_all") {
            Some(JsonValue::Array(items)) => Some(items),
            _ => None,
        },
        _ => None,
    }
}

/// The text that a field of an entry of generated code gives: the first
/// item of the array under the key, where that is a string; `NONE`
/// otherwise.
pub open spec fn field_text(entry: JsonValue, key: Seq<char>) -> Seq<char> {
    match entry {
        JsonValue::Object(entries) => match entry_index(entries@, key) {
            Some(i) => match entries@[i].1 {
                JsonValue::Array(items) => if items@.len() > 0 {
                    match items@[0] {
                        JsonValue::String(s) => s@,
                        _ => "NONE"@,
                    }
                } else {
                    "NONE"@
                },
                _ => "NONE"@,
            },
            None => "NONE"@,
        },
        _ => "NONE"@,
    }
}

/// A field of an entry of generated code: the name of the file to write
/// (`ex_f_name`) or of the template to render (`ex_f_tpl`).
pub fn codegen_field(entry: &JsonValue, key: &str) -> (r: String)
    ensures
        r@ == field_text(*entry, key@),
{
    proof {
        reveal_strlit("NONE");
    }
    match entry {
        JsonValue::Object(entries) => match object_get(entries, key) {
            Some(JsonValue::Array(items)) => {
                if items.len() > 0 {
                    match &items[0] {
                        JsonValue::String(s) => s.clone(),
                        _ => String::from_str("NONE"),
                    }
                } else {
                    String::from_str("NONE")
                }
            },
            _ => String::from_str("NONE"),
        },
        _ => String::from_str("NONE"),
    }
}

/// The name of the file that the results of a source-code query are
/// written to: the stem of the query's file name, without its own
/// extension, with the extension `json`.
pub open spec fn results_file_name(query: Seq<char>) -> Option<Seq<char>> {
    match path_file_name(query) {
        Some(name) => Some(stem_of(stem_of(name)) + ".json"@),
        None => None,
    }
}

/// The name of the file that the results of a source-code query are
/// written to; `None` where the query's path has no file name.
pub fn results_file_for(query: &str) -> (r: Option<String>)
    ensures
        match results_file_name(query@) {
            Some(name) => r matches Some(s) && s@ == name,
            None => r is None,
        },
{
    match file_name_of(query) {
        Some(name) => {
            let stem = file_stem(name.as_str());
            let mut r = file_stem(stem.as_str());
            r.append(".json");
            proof {
                reveal_strlit(".json");
            }
            Some(r)
        },
        None => None,
    }
}

} // verus!
