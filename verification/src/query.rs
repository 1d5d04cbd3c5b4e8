//! SPARQL queries with the key/value metadata of their top comment, and
//! attack trees whose nodes are queries.
use vstd::prelude::*;
use crate::database::{parsed_query_form, MemDatabase};
use crate::error::ExecuteQueryError;
use crate::string_map::StringMap;
use crate::text::{lemma_char_index, lemma_char_index_at, is_white_space, trim_start, trim_end, chars_of, char_index, extend_chars, has_prefix, lines, string_of, strip_cr, trim, trim_bounds, find_char};

verus! {

/// The metadata found in the leading comment block of a query.
#[derive(Debug)]
pub struct QueryMetadata {
    key_value_pairs: StringMap,
}

impl View for QueryMetadata {
    type V = Map<Seq<char>, Seq<char>>;

    closed spec fn view(&self) -> Map<Seq<char>, Seq<char>> {
        self.key_value_pairs@
    }
}

/// State while reading the comment block of a query.
pub struct MetaState {
    pub in_top_comment: bool,
    pub current_key: Option<Seq<char>>,
    pub current_value: Seq<char>,
    pub pairs: Map<Seq<char>, Seq<char>>,
}

pub open spec fn meta_start() -> MetaState {
    MetaState {
        in_top_comment: false,
        current_key: None,
        current_value: Seq::empty(),
        pairs: Map::empty(),
    }
}

/// The effect of one line on the reading state, or `None` where the comment
/// block has ended.
///
/// Blank lines before the block are skipped; a line `#  ...` continues the
/// value of the current key; a line `# key: value` closes the current key and
/// opens a new one; other `#` lines are ignored; any other line ends the block.
pub open spec fn meta_step(st: MetaState, line: Seq<char>) -> Option<MetaState> {
    if trim(line).len() == 0 && !st.in_top_comment {
        Some(st)
    } else if line.len() > 0 && line[0] == '#' {
        let st1 = MetaState { in_top_comment: true, ..st };
        if has_prefix(line, seq!['#', ' ', ' ']) && st.current_key is Some {
            let spaced = if st.current_value.len() == 0 {
                st.current_value
            } else {
                st.current_value.push(' ')
            };
            Some(MetaState { current_value: spaced + trim(line.skip(3)), ..st1 })
        } else {
            let content = trim(line.skip(1));
            match char_index(content, ':') {
                Some(p) => {
                    let key = trim(content.take(p));
                    let value = trim(content.skip(p + 1));
                    let st2 = match st1.current_key {
                        Some(k) => MetaState {
                            pairs: st1.pairs.insert(k, trim(st1.current_value)),
                            current_value: Seq::empty(),
                            ..st1
                        },
                        None => st1,
                    };
                    if value.len() > 0 {
                        Some(MetaState { current_key: Some(key), current_value: value, ..st2 })
                    } else {
                        Some(MetaState { current_key: Some(key), ..st2 })
                    }
                },
                None => Some(st1),
            }
        }
    } else {
        None
    }
}

/// The reading state after the given lines.
pub open spec fn meta_run(lines: Seq<Seq<char>>, st: MetaState) -> MetaState
    decreases lines.len(),
{
    if lines.len() == 0 {
        st
    } else {
        match meta_step(st, lines[0]) {
            Some(next) => meta_run(lines.drop_first(), next),
            None => st,
        }
    }
}

/// The pairs once the last open key is closed.
pub open spec fn meta_finish(st: MetaState) -> Map<Seq<char>, Seq<char>> {
    match st.current_key {
        Some(k) => st.pairs.insert(k, trim(st.current_value)),
        None => st.pairs,
    }
}

/// The metadata of a query text.
pub open spec fn query_metadata(query: Seq<char>) -> Map<Seq<char>, Seq<char>> {
    meta_finish(meta_run(lines(query), meta_start()))
}

impl QueryMetadata {
    /// Metadata with no pairs.
    pub fn new() -> (r: Self)
        ensures
            r@ == Map::<Seq<char>, Seq<char>>::empty(),
    {
        QueryMetadata { key_value_pairs: StringMap::new() }
    }

    /// Reads the metadata from the comment block at the top of a query.
    pub fn from_query(query: &str) -> (r: Self)
        ensures
            r@ == query_metadata(query@),
    {
        let chars = chars_of(query);
        let n = chars.len();
        let mut metadata = Self::new();
        let mut in_top_comment = false;
        let mut has_key = false;
        let mut key: Vec<char> = Vec::new();
        let mut value: Vec<char> = Vec::new();
        let mut pos: usize = 0;
        let mut done = false;
        let ghost all = lines(chars@);
        proof {
            assert(chars@.skip(0) =~= chars@);
            assert(Self::state_of(in_top_comment, has_key, key@, value@, metadata@) == meta_start());
        }
        while pos < n && !done
            invariant
                n == chars@.len(),
                chars@ == query@,
                pos <= n,
                all == lines(chars@),
                done ==> meta_run(all, meta_start()) == Self::state_of(
                    in_top_comment,
                    has_key,
                    key@,
                    value@,
                    metadata@,
                ),
                !done ==> meta_run(all, meta_start()) == meta_run(
                    lines(chars@.skip(pos as int)),
                    Self::state_of(in_top_comment, has_key, key@, value@, metadata@),
                ),
            decreases n - pos, if done { 0int } else { 1int },
        {
            let ghost st = Self::state_of(in_top_comment, has_key, key@, value@, metadata@);
            let ghost rest = chars@.skip(pos as int);
            let nl = find_char(&chars, pos, n, '\n');
            let (line_end, next) = match nl {
                Some(e) => {
                    if e > pos && chars[e - 1] == '\r' {
                        (e - 1, e + 1)
                    } else {
                        (e, e + 1)
                    }
                },
                None => (n, n),
            };
            proof {
                assert(rest =~= chars@.subrange(pos as int, n as int));
                let line = chars@.subrange(pos as int, line_end as int);
                match nl {
                    Some(e) => {
                        assert(rest.take(e - pos) =~= chars@.subrange(pos as int, e as int));
                        assert(strip_cr(rest.take(e - pos)) =~= line);
                        assert(rest.skip(e - pos + 1) =~= chars@.skip(next as int));
                    },
                    None => {
                        assert(rest =~= line);
                    },
                }
                assert(lines(rest) =~= seq![line] + lines(chars@.skip(next as int)));
                assert(lines(rest)[0] == line);
                assert(lines(rest).drop_first() =~= lines(chars@.skip(next as int)));
            }
            let stop = Self::read_line(
                &chars,
                pos,
                line_end,
                &mut metadata,
                &mut in_top_comment,
                &mut has_key,
                &mut key,
                &mut value,
            );
            if stop {
                done = true;
            } else {
                pos = next;
            }
        }
        proof {
            if !done {
                assert(chars@.skip(pos as int) =~= Seq::<char>::empty());
            }
        }
        if has_key {
            let (a, b) = trim_bounds(&value, 0, value.len());
            proof {
                assert(value@.subrange(0, value@.len() as int) =~= value@);
            }
            metadata.insert(string_of(&key, 0, key.len()), string_of(&value, a, b));
            proof {
                assert(key@.subrange(0, key@.len() as int) =~= key@);
            }
        }
        metadata
    }

    /// The reading state that the local variables of `from_query` stand for.
    pub open spec fn state_of(
        in_top_comment: bool,
        has_key: bool,
        key: Seq<char>,
        value: Seq<char>,
        pairs: Map<Seq<char>, Seq<char>>,
    ) -> MetaState {
        MetaState {
            in_top_comment,
            current_key: if has_key { Some(key) } else { None },
            current_value: value,
            pairs,
        }
    }

    /// Applies one line `chars[lo..hi]` to the reading state; returns
    /// whether the comment block has ended.
    fn read_line(
        chars: &Vec<char>,
        lo: usize,
        hi: usize,
        metadata: &mut Self,
        in_top_comment: &mut bool,
        has_key: &mut bool,
        key: &mut Vec<char>,
        value: &mut Vec<char>,
    ) -> (stop: bool)
        requires
            lo <= hi <= chars@.len(),
        ensures
            ({
                let st = Self::state_of(
                    *old(in_top_comment),
                    *old(has_key),
                    old(key)@,
                    old(value)@,
                    old(metadata)@,
                );
                let after = Self::state_of(
                    *final(in_top_comment),
                    *final(has_key),
                    final(key)@,
                    final(value)@,
                    final(metadata)@,
                );
                match meta_step(st, chars@.subrange(lo as int, hi as int)) {
                    Some(next) => !stop && after == next,
                    None => stop && after == st,
                }
            }),
    {
        let ghost line = chars@.subrange(lo as int, hi as int);
        let (ta, tb) = trim_bounds(chars, lo, hi);
        if ta == tb && !*in_top_comment {
            return false;
        }
        if hi > lo && chars[lo] == '#' {
            *in_top_comment = true;
            if hi - lo >= 3 && chars[lo + 1] == ' ' && chars[lo + 2] == ' ' && *has_key {
                proof {
                    assert(line.take(3) =~= seq!['#', ' ', ' ']);
                    assert(line.skip(3) =~= chars@.subrange(lo + 3, hi as int));
                }
                let (ca, cb) = trim_bounds(chars, lo + 3, hi);
                if value.len() > 0 {
                    value.push(' ');
                }
                extend_chars(value, chars, ca, cb);
                return false;
            }
            proof {
                if has_prefix(line, seq!['#', ' ', ' ']) {
                    assert(line.take(3)[1] == ' ' && line.take(3)[2] == ' ');
                }
                assert(line.skip(1) =~= chars@.subrange(lo + 1, hi as int));
            }
            let (ca, cb) = trim_bounds(chars, lo + 1, hi);
            let ghost content = chars@.subrange(ca as int, cb as int);
            match find_char(chars, ca, cb, ':') {
                Some(p) => {
                    let (ka, kb) = trim_bounds(chars, ca, p);
                    let (va, vb) = trim_bounds(chars, p + 1, cb);
                    proof {
                        assert(content.take(p - ca) =~= chars@.subrange(ca as int, p as int));
                        assert(content.skip(p - ca + 1) =~= chars@.subrange(p + 1, cb as int));
                    }
                    if *has_key {
                        let (wa, wb) = trim_bounds(value, 0, value.len());
                        proof {
                            assert(value@.subrange(0, value@.len() as int) =~= value@);
                            assert(key@.subrange(0, key@.len() as int) =~= key@);
                        }
                        metadata.insert(string_of(key, 0, key.len()), string_of(value, wa, wb));
                        value.clear();
                    }
                    key.clear();
                    extend_chars(key, chars, ka, kb);
                    *has_key = true;
                    if vb > va {
                        value.clear();
                        extend_chars(value, chars, va, vb);
                    }
                    proof {
                        assert(key@ =~= chars@.subrange(ka as int, kb as int));
                        if vb > va {
                            assert(value@ =~= chars@.subrange(va as int, vb as int));
                        }
                    }
                    false
                },
                None => false,
            }
        } else {
            true
        }
    }

    /// Sets `key` to `value`, replacing an earlier value of the key.
    pub fn insert(&mut self, key: String, value: String)
        ensures
            final(self)@ == old(self)@.insert(key@, value@),
    {
        self.key_value_pairs.insert(key, value);
    }

    /// The value stored for `key`.
    pub fn get(&self, key: &str) -> (r: Option<&String>)
        ensures
            match r {
                Some(v) => self@.contains_key(key@) && self@[key@] == v@,
                None => !self@.contains_key(key@),
            },
    {
        self.key_value_pairs.get(key)
    }

    /// The number of keys.
    pub fn len(&self) -> (r: usize)
        ensures
            r == self@.len(),
    {
        self.key_value_pairs.len()
    }
}

/// A query: its text and the metadata of its top comment.
#[derive(Debug)]
pub struct Query {
    metadata: QueryMetadata,
    query: String,
}

impl View for Query {
    type V = (Seq<char>, Map<Seq<char>, Seq<char>>);

    closed spec fn view(&self) -> (Seq<char>, Map<Seq<char>, Seq<char>>) {
        (self.query@, self.metadata@)
    }
}

impl Query {
    /// The text and the metadata are the two parts of the view.
    pub proof fn lemma_view(&self)
        ensures
            self@ == (self.text(), self.metadata_view()),
    {
    }

    pub closed spec fn text(&self) -> Seq<char> {
        self.query@
    }

    pub closed spec fn metadata_view(&self) -> Map<Seq<char>, Seq<char>> {
        self.metadata@
    }

    /// A query from its metadata and text, as given.
    pub fn new(metadata: QueryMetadata, query: String) -> (r: Self)
        ensures
            r.text() == query@,
            r.metadata_view() == metadata@,
    {
        Query { metadata, query }
    }

    /// A query from its text, with the metadata read from its top comment.
    pub fn from_string(query: String) -> (r: Self)
        ensures
            r.text() == query@,
            r.metadata_view() == query_metadata(query@),
    {
        let metadata = QueryMetadata::from_query(query.as_str());
        Query { metadata, query }
    }

    /// The query text.
    pub fn get_query(&self) -> (r: &String)
        ensures
            r@ == self.text(),
    {
        &self.query
    }

    /// The metadata of the query.
    pub fn get_metadata(&self) -> (r: &QueryMetadata)
        ensures
            r@ == self.metadata_view(),
    {
        &self.metadata
    }
}

/// The results of a query: one list of variable bindings per solution.
pub type QueryResultsMap = Vec<Vec<(String, String)>>;

/// A tree of attacks: each node names a query that tells whether the attack
/// is possible; the node is tried only where it is a leaf or where one of its
/// children turned out possible.
#[derive(Debug)]
pub struct AttackTree {
    query: String,
    children: Vec<AttackTree>,
    query_results: QueryResultsMap,
    has_executed: bool,
}

impl AttackTree {
    /// The query of the node.
    pub closed spec fn query_of(&self) -> Seq<char> {
        self.query@
    }

    /// The children of the node.
    pub closed spec fn children_of(&self) -> Seq<AttackTree> {
        self.children@
    }

    /// Whether the node's query has run.
    pub closed spec fn executed(&self) -> bool {
        self.has_executed
    }

    /// The results the node's query returned.
    pub closed spec fn results(&self) -> Seq<Vec<(String, String)>> {
        self.query_results@
    }

    /// The attack is possible: its query ran and found at least one solution.
    pub open spec fn possible(&self) -> bool {
        self.executed() && self.results().len() > 0
    }

    /// A leaf node for the given query, not yet run.
    pub fn new(query_name: String) -> (r: Self)
        ensures
            r.query_of() == query_name@,
            r.children_of().len() == 0,
            r.results().len() == 0,
            !r.executed(),
    {
        AttackTree {
            query: query_name,
            children: Vec::new(),
            query_results: Vec::new(),
            has_executed: false,
        }
    }

    /// A node from its query and children, not yet run.
    pub fn from_parts(query: String, children: Vec<AttackTree>) -> (r: Self)
        ensures
            r.query_of() == query@,
            r.children_of() == children@,
            r.results().len() == 0,
            !r.executed(),
    {
        AttackTree { query, children, query_results: Vec::new(), has_executed: false }
    }

    /// Takes the tree by value, appends `child` to its children, and drops
    /// the tree: the caller keeps nothing of it.
    pub fn add_child(self, child: AttackTree) {
        let mut tree = self;
        tree.children.push(child);
    }

    /// The query of the node.
    pub fn get_query(&self) -> (r: &String)
        ensures
            r@ == self.query_of(),
    {
        &self.query
    }

    /// The children of the node, for change in place.
    pub fn get_children(&mut self) -> (r: &mut Vec<AttackTree>)
        ensures
            r@ == old(self).children_of(),
            final(self).children_of() == final(r)@,
            final(self).query_of() == old(self).query_of(),
            final(self).results() == old(self).results(),
            final(self).executed() == old(self).executed(),
    {
        &mut self.children
    }

    /// The children of the node.
    pub fn children(&self) -> (r: &Vec<AttackTree>)
        ensures
            r@ == self.children_of(),
    {
        &self.children
    }

    /// The attack is possible: its query ran and had a solution.
    pub fn is_possible(&self) -> (r: bool)
        ensures
            r == self.possible(),
    {
        self.has_executed && !self.query_results.is_empty()
    }

    /// Records that the query ran with the given results.
    pub fn set_executed(&mut self, results: QueryResultsMap)
        ensures
            final(self).executed(),
            final(self).results() == results@,
            final(self).query_of() == old(self).query_of(),
            final(self).children_of() == old(self).children_of(),
    {
        self.has_executed = true;
        self.query_results = results;
    }

    /// Whether the node's query has run.
    pub fn has_executed(&self) -> (r: bool)
        ensures
            r == self.executed(),
    {
        self.has_executed
    }

    /// The results of the node's query.
    pub fn get_results(&self) -> (r: &QueryResultsMap)
        ensures
            r@ == self.results(),
    {
        &self.query_results
    }
}

/// `b` has the queries and the shape of `a`.
pub open spec fn same_shape(a: AttackTree, b: AttackTree) -> bool
    decreases a, 1nat, 0int,
{
    &&& b.query_of() == a.query_of()
    &&& b.children_of().len() == a.children_of().len()
    &&& children_same_shape(a, b, 0)
}

/// The children of `b` from index `j` on have the shape of those of `a`.
pub open spec fn children_same_shape(a: AttackTree, b: AttackTree, j: int) -> bool
    decreases a, 0nat, a.children_of().len() - j,
{
    if 0 <= j < a.children_of().len() {
        same_shape(a.children_of()[j], b.children_of()[j]) && children_same_shape(a, b, j + 1)
    } else {
        true
    }
}

/// `after` is an outcome of evaluating `before`: the query and the number
/// of children stay, and the children are evaluated as `evaluated_children`
/// says from the first on.
pub open spec fn evaluated(db: &MemDatabase, before: AttackTree, after: AttackTree) -> bool
    decreases before, 1nat, 0int,
{
    &&& after.query_of() == before.query_of()
    &&& after.children_of().len() == before.children_of().len()
    &&& evaluated_children(db, before, after, 0)
}

/// From child `j` on: each child is evaluated in turn; at the first that
/// turns out possible the later children are left as they were and the
/// node's own query has run; where none is possible, the node's query has
/// run if it is a leaf and the node is left as it was otherwise. Where the
/// node's query has run, its results are rows that the stored query under
/// the node's key gives.
pub open spec fn evaluated_children(db: &MemDatabase, before: AttackTree, after: AttackTree, j: int) -> bool
    decreases before, 0nat, before.children_of().len() - j,
{
    let bc = before.children_of();
    let ac = after.children_of();
    if 0 <= j < bc.len() {
        &&& evaluated(db, bc[j], ac[j])
        &&& if ac[j].possible() {
            &&& forall|k: int| j < k < bc.len() ==> #[trigger] ac[k] == bc[k]
            &&& after.executed()
            &&& db.query_answer(after.query_of(), after.results())
        } else {
            evaluated_children(db, before, after, j + 1)
        }
    } else if bc.len() == 0 {
        &&& after.executed()
        &&& db.query_answer(after.query_of(), after.results())
    } else {
        after.executed() == before.executed() && after.results() == before.results()
    }
}

/// The children from index `j` on keep their shape where each of them does.
proof fn lemma_children_same_shape(a: AttackTree, b: AttackTree, j: int)
    requires
        0 <= j,
        forall|k: int| j <= k < a.children_of().len() ==> #[trigger] same_shape(
            a.children_of()[k],
            b.children_of()[k],
        ),
    ensures
        children_same_shape(a, b, j),
    decreases a.children_of().len() - j,
{
    if j < a.children_of().len() {
        assert(same_shape(a.children_of()[j], b.children_of()[j]));
        lemma_children_same_shape(a, b, j + 1);
    }
}

/// A tree keeps its own shape.
pub proof fn lemma_same_shape_refl(t: AttackTree)
    ensures
        same_shape(t, t),
    decreases t,
{
    assert forall|k: int| 0 <= k < t.children_of().len() implies #[trigger] same_shape(
        t.children_of()[k],
        t.children_of()[k],
    ) by {
        lemma_same_shape_refl(t.children_of()[k]);
    }
    lemma_children_same_shape(t, t, 0);
}

/// Evaluation keeps the queries and the shape of a tree.
pub proof fn lemma_evaluated_same_shape(db: &MemDatabase, before: AttackTree, after: AttackTree)
    requires
        evaluated(db, before, after),
    ensures
        same_shape(before, after),
    decreases before, 1nat, 0int,
{
    lemma_evaluated_children_same_shape(db, before, after, 0);
}

/// Evaluation from child `j` on keeps the shape of those children.
proof fn lemma_evaluated_children_same_shape(db: &MemDatabase, before: AttackTree, after: AttackTree, j: int)
    requires
        0 <= j,
        before.children_of().len() == after.children_of().len(),
        evaluated_children(db, before, after, j),
    ensures
        children_same_shape(before, after, j),
    decreases before, 0nat, before.children_of().len() - j,
{
    let bc = before.children_of();
    let ac = after.children_of();
    if j < bc.len() {
        lemma_evaluated_same_shape(db, bc[j], ac[j]);
        if ac[j].possible() {
            assert forall|k: int| j + 1 <= k < bc.len() implies #[trigger] same_shape(
                bc[k],
                ac[k],
            ) by {
                assert(ac[k] == bc[k]);
                lemma_same_shape_refl(bc[k]);
            }
            lemma_children_same_shape(before, after, j + 1);
        } else {
            lemma_evaluated_children_same_shape(db, before, after, j + 1);
        }
    }
}

/// Children evaluated without success up to `i` extend an evaluation from `i`
/// to one from the first child.
proof fn lemma_evaluated_prefix(db: &MemDatabase, before: AttackTree, after: AttackTree, i: int)
    requires
        0 <= i <= before.children_of().len(),
        before.children_of().len() == after.children_of().len(),
        forall|j: int| 0 <= j < i ==> #[trigger] evaluated(
            db,
            before.children_of()[j],
            after.children_of()[j],
        ) && !after.children_of()[j].possible(),
        evaluated_children(db, before, after, i),
    ensures
        evaluated_children(db, before, after, 0),
    decreases i,
{
    if i > 0 {
        assert(evaluated(db, before.children_of()[i - 1], after.children_of()[i - 1]));
        lemma_evaluated_prefix(db, before, after, i - 1);
    }
}

/// The error with which the stored query under a key fails to run: not
/// found, with the key, where no query is stored under it; a syntax error
/// where its text does not parse as a query; else an error of its
/// evaluation.
pub open spec fn own_query_failed(db: &MemDatabase, key: Seq<char>, e: ExecuteQueryError) -> bool {
    match e {
        ExecuteQueryError::QueryNotFound(q) => q@ == key && !db.stored_queries().contains_key(key),
        ExecuteQueryError::SyntaxError(_) => db.stored_queries().contains_key(key) && parsed_query_form(
            db.stored_text(key),
        ) is None,
        ExecuteQueryError::QueryEvaluationError(_) => db.stored_queries().contains_key(key)
            && parsed_query_form(db.stored_text(key)) is Some,
        _ => false,
    }
}

/// `after` is what evaluating `before` leaves when it fails with `e`: the
/// node's query, its number of children, whether it has run and its results
/// stay, and the children are as `failed_children` says from the first on.
pub open spec fn eval_failed(db: &MemDatabase, before: AttackTree, after: AttackTree, e: ExecuteQueryError) -> bool
    decreases before, 1nat, 0int,
{
    &&& after.query_of() == before.query_of()
    &&& after.children_of().len() == before.children_of().len()
    &&& after.executed() == before.executed()
    &&& after.results() == before.results()
    &&& failed_children(db, before, after, 0, e)
}

/// From child `j` on: the children are evaluated in turn, none of them
/// possible, until one fails with `e` or one turns out possible and the
/// node's own query then fails with `e`; the children after that one are
/// left as they were. Where no child is left, the node is a leaf whose own
/// query fails with `e`.
pub open spec fn failed_children(
    db: &MemDatabase,
    before: AttackTree,
    after: AttackTree,
    j: int,
    e: ExecuteQueryError,
) -> bool
    decreases before, 0nat, before.children_of().len() - j,
{
    let bc = before.children_of();
    let ac = after.children_of();
    if 0 <= j < bc.len() {
        ||| eval_failed(db, bc[j], ac[j], e) && forall|k: int| j < k < bc.len() ==> #[trigger] ac[k] == bc[k]
        ||| evaluated(db, bc[j], ac[j]) && ac[j].possible() && (forall|k: int|
            j < k < bc.len() ==> #[trigger] ac[k] == bc[k]) && own_query_failed(db, after.query_of(), e)
        ||| evaluated(db, bc[j], ac[j]) && !ac[j].possible() && failed_children(db, before, after, j + 1, e)
    } else {
        bc.len() == 0 && own_query_failed(db, after.query_of(), e)
    }
}

/// Children evaluated without success up to `i` extend a failure from `i`
/// to one from the first child.
proof fn lemma_failed_prefix(
    db: &MemDatabase,
    before: AttackTree,
    after: AttackTree,
    i: int,
    e: ExecuteQueryError,
)
    requires
        0 <= i <= before.children_of().len(),
        before.children_of().len() == after.children_of().len(),
        forall|j: int| 0 <= j < i ==> #[trigger] evaluated(
            db,
            before.children_of()[j],
            after.children_of()[j],
        ) && !after.children_of()[j].possible(),
        failed_children(db, before, after, i, e),
    ensures
        failed_children(db, before, after, 0, e),
    decreases i,
{
    if i > 0 {
        assert(evaluated(db, before.children_of()[i - 1], after.children_of()[i - 1]));
        lemma_failed_prefix(db, before, after, i - 1, e);
    }
}

/// A node whose children up to `i` were evaluated without success, whose
/// child `i` turned out possible, whose later children were left as they
/// were, and whose own query then failed with `e`, failed with `e`.
proof fn lemma_own_query_failed(db: &MemDatabase, before: AttackTree, after: AttackTree, i: int, e: ExecuteQueryError)
    requires
        0 <= i < before.children_of().len(),
        before.children_of().len() == after.children_of().len(),
        forall|j: int| 0 <= j < i ==> #[trigger] evaluated(
            db,
            before.children_of()[j],
            after.children_of()[j],
        ) && !after.children_of()[j].possible(),
        evaluated(db, before.children_of()[i], after.children_of()[i]),
        after.children_of()[i].possible(),
        forall|k: int| i < k < before.children_of().len() ==> #[trigger] after.children_of()[k]
            == before.children_of()[k],
        own_query_failed(db, after.query_of(), e),
    ensures
        failed_children(db, before, after, 0, e),
{
    assert(failed_children(db, before, after, i, e));
    lemma_failed_prefix(db, before, after, i, e);
}

impl AttackTree {
    /// Evaluates the tree against a database: the children in order until
    /// one is possible, then the node's own query where it is a leaf or a
    /// child turned out possible.
    #[verifier::spinoff_prover]
    pub fn evaluate(&mut self, db: &MemDatabase) -> (r: Result<(), ExecuteQueryError>)
        ensures
            same_shape(*old(self), *final(self)),
            r is Ok ==> evaluated(db, *old(self), *final(self)),
            r matches Err(e) ==> eval_failed(db, *old(self), *final(self), e),
        decreases *old(self),
    {
        let ghost oc = self.children@;
        let n = self.children.len();
        let mut i: usize = 0;
        let mut possible = false;
        while i < n
            invariant_except_break
                n == self.children@.len(),
                n == oc.len(),
                i <= n,
                oc == old(self).children@,
                self.query == old(self).query,
                self.has_executed == old(self).has_executed,
                self.query_results == old(self).query_results,
                !possible,
                forall|j: int| 0 <= j < i ==> #[trigger] evaluated(db, oc[j], self.children@[j])
                    && !self.children@[j].possible(),
                forall|j: int| i <= j < n ==> #[trigger] self.children@[j] == oc[j],
            ensures
                n == self.children@.len(),
                n == oc.len(),
                i <= n,
                oc == old(self).children@,
                self.query == old(self).query,
                self.has_executed == old(self).has_executed,
                self.query_results == old(self).query_results,
                forall|j: int| 0 <= j < i ==> #[trigger] evaluated(db, oc[j], self.children@[j])
                    && !self.children@[j].possible(),
                possible ==> i < n && evaluated(db, oc[i as int], self.children@[i as int])
                    && self.children@[i as int].possible(),
                !possible ==> i == n,
                forall|j: int| i < j < n ==> #[trigger] self.children@[j] == oc[j],
            decreases n - i,
        {
            let ghost before = self.children@;
            let res = self.children[i].evaluate(db);
            match res {
                Err(e) => {
                    proof {
                        assert forall|j: int| 0 <= j < n implies #[trigger] same_shape(
                            oc[j],
                            self.children@[j],
                        ) by {
                            if j < i {
                                lemma_evaluated_same_shape(db, oc[j], self.children@[j]);
                            } else if j > i {
                                assert(self.children@[j] == before[j]);
                                lemma_same_shape_refl(oc[j]);
                            }
                        }
                        lemma_children_same_shape(*old(self), *self, 0);
                        assert forall|k: int| 0 <= k < n && k != i implies #[trigger] self.children@[k]
                            == before[k] by {}
                        assert forall|k: int| i < k < n implies #[trigger] self.children@[k] == oc[k] by {
                            assert(self.children@[k] == before[k]);
                        }
                        assert forall|k: int| 0 <= k < i implies #[trigger] evaluated(
                            db,
                            oc[k],
                            self.children@[k],
                        ) && !self.children@[k].possible() by {
                            assert(self.children@[k] == before[k]);
                        }
                        assert(failed_children(db, *old(self), *self, i as int, e));
                        lemma_failed_prefix(db, *old(self), *self, i as int, e);
                    }
                    return Err(e);
                },
                Ok(()) => {},
            }
            proof {
                assert(evaluated(db, oc[i as int], self.children@[i as int]));
                assert forall|j: int| 0 <= j < n && j != i implies #[trigger] self.children@[j]
                    == before[j] by {}
            }
            if self.children[i].is_possible() {
                possible = true;
                proof {
                    assert forall|j: int| i < j < n implies #[trigger] self.children@[j] == oc[j] by {
                        assert(self.children@[j] == before[j]);
                    }
                }
                break;
            }
            proof {
                assert forall|j: int| i + 1 <= j < n implies #[trigger] self.children@[j] == oc[j] by {
                    assert(self.children@[j] == before[j]);
                }
                assert forall|j: int| 0 <= j < i + 1 implies #[trigger] evaluated(
                    db,
                    oc[j],
                    self.children@[j],
                ) && !self.children@[j].possible() by {
                    if j < i {
                        assert(self.children@[j] == before[j]);
                    }
                }
            }
            i = i + 1;
        }
        if !possible && n > 0 {
            proof {
                lemma_evaluated_prefix(db, *old(self), *self, n as int);
                lemma_evaluated_same_shape(db, *old(self), *self);
            }
            return Ok(());
        }
        match db.query_rows(self.query.as_str()) {
            Ok(results) => {
                self.set_executed(results);
                proof {
                    lemma_evaluated_prefix(db, *old(self), *self, i as int);
                    lemma_evaluated_same_shape(db, *old(self), *self);
                }
                Ok(())
            },
            Err(e) => {
                proof {
                    assert forall|j: int| 0 <= j < n implies #[trigger] same_shape(
                        oc[j],
                        self.children@[j],
                    ) by {
                        if j < i || (possible && j == i) {
                            lemma_evaluated_same_shape(db, oc[j], self.children@[j]);
                        } else {
                            lemma_same_shape_refl(oc[j]);
                        }
                    }
                    lemma_children_same_shape(*old(self), *self, 0);
                    assert(own_query_failed(db, self.query@, e));
                    if possible {
                        lemma_own_query_failed(db, *old(self), *self, i as int, e);
                    }
                }
                Err(e)
            },
        }
    }
}

/// From child `j` on, a node that had not run has run after evaluation
/// exactly where it has no children or one of its children from `j` on is
/// possible.
proof fn lemma_children_executed(db: &MemDatabase, before: AttackTree, after: AttackTree, j: int)
    requires
        0 <= j,
        before.children_of().len() == after.children_of().len(),
        evaluated_children(db, before, after, j),
        !before.executed(),
    ensures
        after.executed() <==> (before.children_of().len() == 0 || exists|i: int|
            j <= i < after.children_of().len() && #[trigger] after.children_of()[i].possible()),
    decreases before.children_of().len() - j,
{
    let ac = after.children_of();
    if j < ac.len() {
        if !ac[j].possible() {
            lemma_children_executed(db, before, after, j + 1);
            if exists|i: int| j <= i < ac.len() && #[trigger] ac[i].possible() {
                let i = choose|i: int| j <= i < ac.len() && #[trigger] ac[i].possible();
                assert(j + 1 <= i);
            }
        }
    }
}

/// Law: a node that had not run has run after evaluation exactly where it
/// is a leaf or one of its children turned out possible.
pub proof fn lemma_evaluated_executed(db: &MemDatabase, before: AttackTree, after: AttackTree)
    requires
        evaluated(db, before, after),
        !before.executed(),
    ensures
        after.executed() <==> (before.children_of().len() == 0 || exists|i: int|
            0 <= i < after.children_of().len() && #[trigger] after.children_of()[i].possible()),
{
    lemma_children_executed(db, before, after, 0);
}

/// The reading state after the given lines, and whether the comment block
/// ended among them.
pub open spec fn meta_partial(lines: Seq<Seq<char>>, st: MetaState) -> (MetaState, bool)
    decreases lines.len(),
{
    if lines.len() == 0 {
        (st, false)
    } else {
        match meta_step(st, lines[0]) {
            Some(next) => meta_partial(lines.drop_first(), next),
            None => (st, true),
        }
    }
}

/// Reading two runs of lines in turn.
proof fn lemma_run_append(a: Seq<Seq<char>>, b: Seq<Seq<char>>, st: MetaState)
    ensures
        meta_run(a, st) == meta_partial(a, st).0,
        meta_run(a + b, st) == if meta_partial(a, st).1 {
            meta_partial(a, st).0
        } else {
            meta_run(b, meta_partial(a, st).0)
        },
    decreases a.len(),
{
    if a.len() == 0 {
        assert(a + b =~= b);
    } else {
        assert((a + b)[0] == a[0]);
        assert((a + b).drop_first() =~= a.drop_first() + b);
        match meta_step(st, a[0]) {
            Some(next) => {
                lemma_run_append(a.drop_first(), b, next);
            },
            None => {},
        }
    }
}

/// The lines of two texts, the first empty or ending in a newline, are
/// those of each in turn.
proof fn lemma_lines_append(a: Seq<char>, b: Seq<char>)
    requires
        a.len() == 0 || a.last() == '\n',
    ensures
        lines(a + b) == lines(a) + lines(b),
    decreases a.len(),
{
    if a.len() == 0 {
        assert(a + b =~= b);
        assert(lines(a) =~= Seq::<Seq<char>>::empty());
        assert(lines(a) + lines(b) =~= lines(b));
    } else {
        lemma_char_index(a, '\n');
        let i = char_index(a, '\n')->0;
        lemma_char_index_at(a + b, '\n', i);
        assert((a + b).take(i) =~= a.take(i));
        assert((a + b).skip(i + 1) =~= a.skip(i + 1) + b);
        let rest = a.skip(i + 1);
        if rest.len() > 0 {
            assert(rest.last() == a.last());
        }
        lemma_lines_append(rest, b);
        assert(lines(a + b) =~= lines(a) + lines(b));
    }
}

/// Trimming leaves text exactly where a character is not whitespace.
proof fn lemma_trim_empty(s: Seq<char>)
    ensures
        trim(s).len() == 0 <==> forall|i: int| 0 <= i < s.len() ==> is_white_space(#[trigger] s[i]),
{
    lemma_trim_end_empty(trim_start(s));
    lemma_trim_start_suffix(s);
    let k = choose|k: int|
        0 <= k <= s.len() && trim_start(s) == s.skip(k) && forall|i: int|
            0 <= i < k ==> is_white_space(#[trigger] s[i]);
    let t = trim_start(s);
    if forall|j: int| 0 <= j < t.len() ==> is_white_space(#[trigger] t[j]) {
        assert forall|i: int| 0 <= i < s.len() implies is_white_space(#[trigger] s[i]) by {
            if i >= k {
                assert(s[i] == t[i - k]);
            }
        }
    }
    if forall|i: int| 0 <= i < s.len() ==> is_white_space(#[trigger] s[i]) {
        assert forall|j: int| 0 <= j < t.len() implies is_white_space(#[trigger] t[j]) by {
            assert(t[j] == s[j + k]);
        }
    }
}

proof fn lemma_trim_start_suffix(s: Seq<char>)
    ensures
        exists|k: int|
            0 <= k <= s.len() && trim_start(s) == s.skip(k) && forall|i: int|
                0 <= i < k ==> is_white_space(#[trigger] s[i]),
    decreases s.len(),
{
    if s.len() > 0 && is_white_space(s[0]) {
        lemma_trim_start_suffix(s.drop_first());
        let k = choose|k: int|
            0 <= k <= s.drop_first().len() && trim_start(s.drop_first()) == s.drop_first().skip(k)
                && forall|i: int| 0 <= i < k ==> is_white_space(#[trigger] s.drop_first()[i]);
        assert(s.drop_first().skip(k) =~= s.skip(k + 1));
        assert forall|i: int| 0 <= i < k + 1 implies is_white_space(#[trigger] s[i]) by {
            if i > 0 {
                assert(s[i] == s.drop_first()[i - 1]);
            }
        }
    } else {
        assert(s.skip(0) =~= s);
    }
}

proof fn lemma_trim_end_empty(s: Seq<char>)
    ensures
        trim_end(s).len() == 0 <==> forall|i: int| 0 <= i < s.len() ==> is_white_space(
            #[trigger] s[i],
        ),
    decreases s.len(),
{
    if s.len() > 0 && is_white_space(s.last()) {
        lemma_trim_end_empty(s.drop_last());
        assert forall|i: int| 0 <= i < s.len() - 1 implies s[i] == s.drop_last()[i] by {}
    }
}

/// Trimming the start leaves no leading whitespace.
proof fn lemma_trim_start_clean(s: Seq<char>)
    ensures
        trim_start(s).len() == 0 || !is_white_space(trim_start(s)[0]),
    decreases s.len(),
{
    if s.len() > 0 && is_white_space(s[0]) {
        lemma_trim_start_clean(s.drop_first());
    }
}

/// Trimming the end leaves no trailing whitespace, and keeps a prefix.
proof fn lemma_trim_end_clean(s: Seq<char>)
    ensures
        trim_end(s).len() == 0 || !is_white_space(trim_end(s).last()),
        trim_end(s).len() <= s.len(),
        trim_end(s) == s.take(trim_end(s).len() as int),
    decreases s.len(),
{
    if s.len() > 0 && is_white_space(s.last()) {
        lemma_trim_end_clean(s.drop_last());
        assert(s.drop_last().take(trim_end(s).len() as int) =~= s.take(trim_end(s).len() as int));
    } else {
        assert(s.take(s.len() as int) =~= s);
    }
}

/// Trimming a trimmed text changes nothing.
proof fn lemma_trim_idempotent(s: Seq<char>)
    ensures
        trim(trim(s)) == trim(s),
{
    let a = trim_start(s);
    let y = trim_end(a);
    lemma_trim_start_clean(s);
    lemma_trim_end_clean(a);
    if y.len() > 0 {
        assert(y[0] == a[0]);
    }
    assert(trim_start(y) == y);
    lemma_trim_end_clean(y);
    assert(trim_end(y) == y);
}

/// No key nor value of the reading state carries surrounding whitespace.
pub open spec fn meta_trimmed(st: MetaState) -> bool {
    &&& (st.current_key matches Some(k) ==> trim(k) == k)
    &&& forall|k: Seq<char>| #[trigger]
        st.pairs.contains_key(k) ==> trim(k) == k && trim(st.pairs[k]) == st.pairs[k]
}

proof fn lemma_step_trimmed(st: MetaState, line: Seq<char>)
    requires
        meta_trimmed(st),
    ensures
        meta_step(st, line) matches Some(next) ==> meta_trimmed(next),
{
    if line.len() > 0 && line[0] == '#' {
        let content = trim(line.skip(1));
        match char_index(content, ':') {
            Some(p) => {
                lemma_trim_idempotent(content.take(p));
                lemma_trim_idempotent(st.current_value);
            },
            None => {},
        }
    }
}

proof fn lemma_run_trimmed(lines: Seq<Seq<char>>, st: MetaState)
    requires
        meta_trimmed(st),
    ensures
        meta_trimmed(meta_run(lines, st)),
    decreases lines.len(),
{
    if lines.len() > 0 {
        lemma_step_trimmed(st, lines[0]);
        match meta_step(st, lines[0]) {
            Some(next) => lemma_run_trimmed(lines.drop_first(), next),
            None => {},
        }
    }
}

/// Law: the keys and values of the metadata of any query carry no leading
/// or trailing whitespace.
pub proof fn lemma_metadata_trimmed(query: Seq<char>)
    ensures
        forall|k: Seq<char>| #[trigger]
            query_metadata(query).contains_key(k) ==> trim(k) == k && trim(query_metadata(query)[k])
                == query_metadata(query)[k],
{
    lemma_run_trimmed(lines(query), meta_start());
    let st = meta_run(lines(query), meta_start());
    lemma_trim_idempotent(st.current_value);
}

/// Law: a blank line before the comment block of a query does not change
/// its metadata.
pub proof fn lemma_metadata_skips_blank_line(line: Seq<char>, rest: Seq<char>)
    requires
        forall|i: int| 0 <= i < line.len() ==> is_white_space(#[trigger] line[i]),
        char_index(line, '\n') is None,
    ensures
        query_metadata(line + seq!['\n'] + rest) == query_metadata(rest),
{
    let head = line + seq!['\n'];
    lemma_char_index(line, '\n');
    lemma_char_index_at(head, '\n', line.len() as int);
    assert(head.take(line.len() as int) =~= line);
    assert(head.skip(line.len() as int + 1) =~= Seq::<char>::empty());
    assert(lines(Seq::<char>::empty()) =~= Seq::<Seq<char>>::empty());
    assert(lines(head) =~= seq![strip_cr(line)]);
    lemma_lines_append(head, rest);
    assert(line + seq!['\n'] + rest =~= head + rest);
    let x = strip_cr(line);
    assert forall|i: int| 0 <= i < x.len() implies is_white_space(#[trigger] x[i]) by {
        assert(x[i] == line[i]);
    }
    lemma_trim_empty(x);
    let all = seq![x] + lines(rest);
    assert(all[0] == x);
    assert(all.drop_first() =~= lines(rest));
    assert(meta_step(meta_start(), x) == Some(meta_start()));
}

/// Law: an attack tree is possible only where its query has run and gave
/// results.
pub proof fn lemma_possible_needs_results(t: AttackTree)
    ensures
        t.possible() ==> t.executed() && t.results().len() > 0,
{
}

/// Law: only the comment block at the top of a query is read. Whatever
/// follows a line that is neither blank nor a comment does not change the
/// metadata.
pub proof fn lemma_metadata_ignores_rest(head: Seq<char>, line: Seq<char>, rest: Seq<char>)
    requires
        head.len() == 0 || head.last() == '\n',
        char_index(line, '\n') is None,
        trim(line).len() > 0,
        line.len() > 0 && line[0] != '#',
    ensures
        query_metadata(head + line + seq!['\n'] + rest) == query_metadata(head + line),
{
    let with_nl = line + seq!['\n'];
    lemma_char_index(line, '\n');
    lemma_char_index_at(with_nl, '\n', line.len() as int);
    assert(with_nl.take(line.len() as int) =~= line);
    assert(with_nl.skip(line.len() as int + 1) =~= Seq::<char>::empty());
    assert(lines(Seq::<char>::empty()) =~= Seq::<Seq<char>>::empty());
    assert(lines(with_nl) =~= seq![strip_cr(line)] + lines(Seq::<char>::empty()));
    assert(lines(with_nl) =~= seq![strip_cr(line)]);
    lemma_lines_append(with_nl, rest);
    assert(head + line + seq!['\n'] + rest =~= head + (with_nl + rest));
    lemma_lines_append(head, with_nl + rest);
    lemma_lines_append(head, line);
    assert(lines(line) =~= seq![line]);
    let x = strip_cr(line);
    lemma_trim_empty(line);
    lemma_trim_empty(x);
    if x.len() < line.len() {
        let i = choose|i: int| 0 <= i < line.len() && !is_white_space(#[trigger] line[i]);
        assert(line[line.len() - 1] == '\r');
        assert(is_white_space('\r'));
        assert(x[i] == line[i]);
    }
    assert(x[0] == line[0]);
    let l1 = lines(head);
    let long = l1 + (seq![x] + lines(rest));
    let short = l1 + seq![line];
    assert(lines(head + line + seq!['\n'] + rest) =~= long);
    assert(lines(head + line) =~= short);
    lemma_run_append(l1, seq![x] + lines(rest), meta_start());
    lemma_run_append(l1, seq![line], meta_start());
}

/// Law: a line that is neither blank nor a comment ends the comment block.
/// The metadata of a header followed by such a line is the metadata of the
/// header alone.
pub proof fn lemma_metadata_header_then_content(head: Seq<char>, line: Seq<char>)
    requires
        head.len() == 0 || head.last() == '\n',
        char_index(line, '\n') is None,
        trim(line).len() > 0,
        line.len() > 0 && line[0] != '#',
    ensures
        query_metadata(head + line) == query_metadata(head),
{
    lemma_char_index(line, '\n');
    lemma_lines_append(head, line);
    assert(lines(line) =~= seq![line]);
    let l1 = lines(head);
    lemma_run_append(l1, seq![line], meta_start());
    let st = meta_partial(l1, meta_start()).0;
    assert(meta_step(st, line) is None);
    assert(meta_run(seq![line], st) == st);
}

/// A final newline adds no line to a text that ends in neither a line feed
/// nor a carriage return.
proof fn lemma_lines_final_newline(h: Seq<char>)
    requires
        h.len() > 0,
        h.last() != '\n',
        h.last() != '\r',
    ensures
        lines(h + seq!['\n']) == lines(h),
    decreases h.len(),
{
    let hn = h + seq!['\n'];
    lemma_char_index(h, '\n');
    match char_index(h, '\n') {
        Some(i) => {
            lemma_char_index_at(hn, '\n', i);
            assert(hn.take(i) =~= h.take(i));
            let rest = h.skip(i + 1);
            assert(i < h.len() - 1);
            assert(rest.last() == h.last());
            assert(hn.skip(i + 1) =~= rest + seq!['\n']);
            lemma_lines_final_newline(rest);
        },
        None => {
            lemma_char_index_at(hn, '\n', h.len() as int);
            assert(hn.take(h.len() as int) =~= h);
            assert(hn.skip(h.len() as int + 1) =~= Seq::<char>::empty());
            assert(lines(Seq::<char>::empty()) =~= Seq::<Seq<char>>::empty());
            assert(lines(hn) =~= seq![h]);
        },
    }
}

/// Law: only the comment block at the top of a query counts. A header,
/// then a line that is neither blank nor a comment, then anything at all,
/// has the metadata of the header alone; and a query that starts with a
/// blank line has the metadata of the query without it.
pub proof fn lemma_metadata_top_block_only(h: Seq<char>, l: Seq<char>, r: Seq<char>, q: Seq<char>)
    requires
        h.len() > 0,
        h.last() != '\n',
        h.last() != '\r',
        char_index(l, '\n') is None,
        trim(l).len() > 0,
        l.len() > 0 && l[0] != '#',
    ensures
        query_metadata(h + seq!['\n'] + l + seq!['\n'] + r) == query_metadata(h),
        query_metadata(seq!['\n'] + q) == query_metadata(q),
{
    let head = h + seq!['\n'];
    assert(head.last() == '\n');
    lemma_metadata_ignores_rest(head, l, r);
    lemma_metadata_header_then_content(head, l);
    lemma_lines_final_newline(h);
    assert(query_metadata(head) == query_metadata(h));
    lemma_metadata_skips_blank_line(Seq::<char>::empty(), q);
    assert(Seq::<char>::empty() + seq!['\n'] + q =~= seq!['\n'] + q);
}

/// Law: while a key is open, a line that starts with `#` and two spaces
/// continues its value, whatever characters it holds: it adds no key, and
/// the open key's value becomes the value so far, a space, and the line's
/// text after those three characters, trimmed.
pub proof fn lemma_continuation_line(head: Seq<char>, line: Seq<char>)
    requires
        head.len() == 0 || head.last() == '\n',
        char_index(line, '\n') is None,
        has_prefix(line, seq!['#', ' ', ' ']),
        !meta_partial(lines(head), meta_start()).1,
        meta_partial(lines(head), meta_start()).0.current_key is Some,
    ensures
        query_metadata(head + line).dom() == query_metadata(head).dom(),
        ({
            let st = meta_partial(lines(head), meta_start()).0;
            let so_far = if st.current_value.len() == 0 {
                st.current_value
            } else {
                st.current_value.push(' ')
            };
            query_metadata(head + line)[st.current_key->0] == trim(so_far + trim(line.skip(3)))
        }),
{
    lemma_char_index(line, '\n');
    lemma_lines_append(head, line);
    assert(lines(line) =~= seq![line]);
    let l1 = lines(head);
    lemma_run_append(l1, seq![line], meta_start());
    let st = meta_partial(l1, meta_start()).0;
    assert(line.take(3) == seq!['#', ' ', ' ']);
    assert(line[0] == '#');
    lemma_trim_empty(line);
    assert(!is_white_space(line[0]));
    let next = meta_step(st, line);
    assert(next is Some);
    assert(meta_run(seq![line], st) == meta_run(seq![line].drop_first(), next->0));
    assert(seq![line].drop_first() =~= Seq::<Seq<char>>::empty());
    let k = st.current_key->0;
    assert(query_metadata(head) == meta_finish(st));
    assert(query_metadata(head + line) == meta_finish(next->0));
    assert(query_metadata(head + line).dom() =~= query_metadata(head).dom());
}

/// Trimming keeps only characters of the text.
proof fn lemma_trim_within(s: Seq<char>, c: char)
    requires
        forall|i: int| 0 <= i < s.len() ==> #[trigger] s[i] != c,
    ensures
        forall|i: int| 0 <= i < trim(s).len() ==> #[trigger] trim(s)[i] != c,
{
    lemma_trim_start_within(s, c);
    lemma_trim_end_within(trim_start(s), c);
}

proof fn lemma_trim_start_within(s: Seq<char>, c: char)
    requires
        forall|i: int| 0 <= i < s.len() ==> #[trigger] s[i] != c,
    ensures
        forall|i: int| 0 <= i < trim_start(s).len() ==> #[trigger] trim_start(s)[i] != c,
    decreases s.len(),
{
    if s.len() > 0 && is_white_space(s[0]) {
        assert forall|i: int| 0 <= i < s.drop_first().len() implies #[trigger] s.drop_first()[i] != c by {
            assert(s.drop_first()[i] == s[i + 1]);
        }
        lemma_trim_start_within(s.drop_first(), c);
        assert(trim_start(s) == trim_start(s.drop_first()));
    } else {
        assert(trim_start(s) == s);
    }
}

proof fn lemma_trim_end_within(s: Seq<char>, c: char)
    requires
        forall|i: int| 0 <= i < s.len() ==> #[trigger] s[i] != c,
    ensures
        forall|i: int| 0 <= i < trim_end(s).len() ==> #[trigger] trim_end(s)[i] != c,
    decreases s.len(),
{
    if s.len() > 0 && is_white_space(s.last()) {
        assert forall|i: int| 0 <= i < s.drop_last().len() implies #[trigger] s.drop_last()[i] != c by {
            assert(s.drop_last()[i] == s[i]);
        }
        lemma_trim_end_within(s.drop_last(), c);
        assert(trim_end(s) == trim_end(s.drop_last()));
    } else {
        assert(trim_end(s) == s);
    }
}

/// Law: in the comment block, a comment line that holds no `:` and does not
/// continue an open value adds no key and changes no value.
pub proof fn lemma_plain_comment_adds_nothing(head: Seq<char>, line: Seq<char>)
    requires
        head.len() == 0 || head.last() == '\n',
        char_index(line, '\n') is None,
        line.len() > 0 && line[0] == '#',
        forall|i: int| 0 <= i < line.len() ==> #[trigger] line[i] != ':',
        !meta_partial(lines(head), meta_start()).1,
        !(has_prefix(line, seq!['#', ' ', ' ']) && meta_partial(lines(head), meta_start()).0.current_key is Some),
    ensures
        query_metadata(head + line) == query_metadata(head),
{
    lemma_char_index(line, '\n');
    lemma_lines_append(head, line);
    assert(lines(line) =~= seq![line]);
    let l1 = lines(head);
    lemma_run_append(l1, seq![line], meta_start());
    let st = meta_partial(l1, meta_start()).0;
    lemma_trim_empty(line);
    assert(!is_white_space(line[0]));
    let content = trim(line.skip(1));
    assert forall|i: int| 0 <= i < line.skip(1).len() implies #[trigger] line.skip(1)[i] != ':' by {
        assert(line.skip(1)[i] == line[i + 1]);
    }
    lemma_trim_within(line.skip(1), ':');
    lemma_char_index(content, ':');
    assert(char_index(content, ':') is None);
    let next = meta_step(st, line);
    assert(next == Some(MetaState { in_top_comment: true, ..st }));
    assert(meta_run(seq![line], st) == meta_run(seq![line].drop_first(), next->0));
    assert(seq![line].drop_first() =~= Seq::<Seq<char>>::empty());
}

} // verus!
