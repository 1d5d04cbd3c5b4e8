//! Names for the JSON export of query results: IRIs are shortened to
//! `<prefix>_<id>` where their base is a known prefix URI.
use vstd::prelude::*;
use oxigraph::sparql::QueryEvaluationError;
use crate::database::{Database, MemDatabase};
use crate::json::{entries_view, items_view, json_view, lemma_array_view, lemma_object_view, JsonValue, JsonView};
use crate::rdf::{quads_view, term_from_subject, term_of_subject, Quad, QuadView, Term, TermView};
use crate::string_map::{keys_distinct, lemma_pairs_map_at, lemma_pairs_map_dom, pairs_map, StringMap};
use crate::text::{char_rindex, chars_of, lemma_char_rindex_at, rfind_char, string_of};

verus! {

/// `s` without its leading characters `c`.
pub open spec fn strip_start(s: Seq<char>, c: char) -> Seq<char>
    decreases s.len(),
{
    if s.len() > 0 && s[0] == c {
        strip_start(s.drop_first(), c)
    } else {
        s
    }
}

/// `s` without its trailing characters `c`.
pub open spec fn strip_end(s: Seq<char>, c: char) -> Seq<char>
    decreases s.len(),
{
    if s.len() > 0 && s.last() == c {
        strip_end(s.drop_last(), c)
    } else {
        s
    }
}

/// The JSON name of an IRI (written with or without angle brackets), given
/// the prefix of each base URI: `<prefix>_<id>` where the IRI is `<base>/<id>`
/// with `base` before the last `/`, if `base` has a prefix.
pub open spec fn json_var(uri_prefixes: Map<Seq<char>, Seq<char>>, original: Seq<char>) -> Option<
    Seq<char>,
> {
    let t = strip_end(strip_start(original, '<'), '>');
    match char_rindex(t, '/') {
        Some(p) => if uri_prefixes.contains_key(t.take(p)) {
            Some(uri_prefixes[t.take(p)] + seq!['_'] + t.skip(p + 1))
        } else {
            None
        },
        None => None,
    }
}

/// Law: an IRI `<base/id>` whose base has a prefix is named `prefix_id`,
/// where the base does not itself start with `<` and the id holds no `/` and
/// does not end with `>`.
pub proof fn lemma_json_var_of_prefixed_iri(
    uri_prefixes: Map<Seq<char>, Seq<char>>,
    base: Seq<char>,
    id: Seq<char>,
)
    requires
        uri_prefixes.contains_key(base),
        base.len() == 0 || base[0] != '<',
        forall|j: int| 0 <= j < id.len() ==> id[j] != '/',
        id.len() == 0 || id.last() != '>',
    ensures
        json_var(uri_prefixes, seq!['<'] + base + seq!['/'] + id + seq!['>']) == Some(
            uri_prefixes[base] + seq!['_'] + id,
        ),
{
    let t = base + seq!['/'] + id;
    let s = seq!['<'] + t + seq!['>'];
    assert(s =~= seq!['<'] + base + seq!['/'] + id + seq!['>']);
    assert(s.drop_first() =~= t + seq!['>']);
    assert((t + seq!['>'])[0] != '<') by {
        if base.len() == 0 {
            assert(t[0] == '/');
        } else {
            assert(t[0] == base[0]);
        }
    }
    assert(strip_start(t + seq!['>'], '<') == t + seq!['>']);
    assert(strip_start(s, '<') == t + seq!['>']);
    assert((t + seq!['>']).drop_last() =~= t);
    assert(t.last() != '>') by {
        if id.len() == 0 {
            assert(t.last() == '/');
        } else {
            assert(t.last() == id.last());
        }
    }
    assert(strip_end(t, '>') == t);
    assert(strip_end(t + seq!['>'], '>') == t);
    let p = base.len() as int;
    assert forall|j: int| p < j < t.len() implies t[j] != '/' by {
        assert(t[j] == id[j - p - 1]);
    }
    lemma_char_rindex_at(t, '/', p);
    assert(t.take(p) =~= base);
    assert(t.skip(p + 1) =~= id);
}

/// The bounds of `v[lo..hi]` without leading characters `c`.
fn strip_start_bound(v: &Vec<char>, lo: usize, hi: usize, c: char) -> (r: usize)
    requires
        lo <= hi <= v@.len(),
    ensures
        lo <= r <= hi,
        v@.subrange(r as int, hi as int) == strip_start(v@.subrange(lo as int, hi as int), c),
{
    let mut a = lo;
    while a < hi && v[a] == c
        invariant
            lo <= a <= hi <= v@.len(),
            strip_start(v@.subrange(lo as int, hi as int), c) == strip_start(
                v@.subrange(a as int, hi as int),
                c,
            ),
        decreases hi - a,
    {
        proof {
            assert(v@.subrange(a as int, hi as int).drop_first() =~= v@.subrange(a + 1, hi as int));
        }
        a = a + 1;
    }
    a
}

/// The bounds of `v[lo..hi]` without trailing characters `c`.
fn strip_end_bound(v: &Vec<char>, lo: usize, hi: usize, c: char) -> (r: usize)
    requires
        lo <= hi <= v@.len(),
    ensures
        lo <= r <= hi,
        v@.subrange(lo as int, r as int) == strip_end(v@.subrange(lo as int, hi as int), c),
{
    let mut b = hi;
    while b > lo && v[b - 1] == c
        invariant
            lo <= b <= hi <= v@.len(),
            strip_end(v@.subrange(lo as int, hi as int), c) == strip_end(
                v@.subrange(lo as int, b as int),
                c,
            ),
        decreases b - lo,
    {
        proof {
            assert(v@.subrange(lo as int, b as int).drop_last() =~= v@.subrange(lo as int, b - 1));
        }
        b = b - 1;
    }
    b
}

/// The JSON name of an IRI, given the prefix of each base URI.
pub fn uri_to_json_var(prefixes: &StringMap, original: String) -> (r: Option<String>)
    ensures
        match json_var(prefixes@, original@) {
            Some(name) => r matches Some(s) && s@ == name,
            None => r is None,
        },
{
    let v = chars_of(original.as_str());
    let n = v.len();
    let a = strip_start_bound(&v, 0, n, '<');
    let b = strip_end_bound(&v, a, n, '>');
    proof {
        assert(v@.subrange(0, n as int) =~= v@);
    }
    let ghost t = v@.subrange(a as int, b as int);
    match rfind_char(&v, a, b, '/') {
        Some(pos) => {
            let base = string_of(&v, a, pos);
            proof {
                assert(t.take(pos - a) =~= v@.subrange(a as int, pos as int));
                assert(t.skip(pos - a + 1) =~= v@.subrange(pos + 1, b as int));
            }
            match prefixes.get(base.as_str()) {
                Some(value) => {
                    let mut name = value.clone();
                    name.append("_");
                    let id = string_of(&v, pos + 1, b);
                    name.append(id.as_str());
                    proof {
                        reveal_strlit("_");
                    }
                    Some(name)
                },
                None => None,
            }
        },
        None => None,
    }
}

/// Index of the first pair whose key is `k`.
pub open spec fn first_index<K, T>(s: Seq<(K, T)>, k: K) -> Option<int>
    decreases s.len(),
{
    if s.len() == 0 {
        None
    } else if s[0].0 == k {
        Some(0)
    } else {
        match first_index(s.drop_first(), k) {
            Some(i) => Some(i + 1),
            None => None,
        }
    }
}

/// `first_index` finds the first pair with the key, or reports that there is none.
pub proof fn lemma_first_index<K, T>(s: Seq<(K, T)>, k: K)
    ensures
        match first_index(s, k) {
            Some(i) => 0 <= i < s.len() && s[i].0 == k && forall|j: int| 0 <= j < i ==> s[j].0 != k,
            None => forall|j: int| 0 <= j < s.len() ==> s[j].0 != k,
        },
    decreases s.len(),
{
    if s.len() > 0 && s[0].0 != k {
        lemma_first_index(s.drop_first(), k);
        assert forall|j: int| 1 <= j < s.len() implies s[j] == s.drop_first()[j - 1] by {}
    }
}

/// The outgoing edges of each subject of a graph: the subjects in the order
/// in which they first occur, each with its predicates and objects in the
/// order of the triples.
pub open spec fn adjacency_of(triples: Seq<QuadView>) -> Seq<(TermView, Seq<(Seq<char>, TermView)>)>
    decreases triples.len(),
{
    if triples.len() == 0 {
        seq![]
    } else {
        let a = adjacency_of(triples.drop_last());
        let t = triples.last();
        let s = term_of_subject(t.subject);
        match first_index(a, s) {
            Some(j) => a.update(j, (s, a[j].1.push((t.predicate, t.object)))),
            None => a.push((s, seq![(t.predicate, t.object)])),
        }
    }
}

/// Law: the adjacency table of a graph has one entry for each subject of
/// its triples and no two entries for one subject; each triple's predicate
/// and object are among the edges of its subject's entry.
pub proof fn lemma_adjacency_covers_subjects(triples: Seq<QuadView>)
    ensures
        forall|i: int| #![trigger triples[i]]
            0 <= i < triples.len() ==> exists|j: int|
                0 <= j < adjacency_of(triples).len() && #[trigger] adjacency_of(triples)[j].0
                    == term_of_subject(triples[i].subject) && adjacency_of(triples)[j].1.contains(
                    (triples[i].predicate, triples[i].object),
                ),
        forall|j1: int, j2: int|
            0 <= j1 < j2 < adjacency_of(triples).len() ==> #[trigger] adjacency_of(triples)[j1].0
                != #[trigger] adjacency_of(triples)[j2].0,
    decreases triples.len(),
{
    if triples.len() > 0 {
        let init = triples.drop_last();
        let a = adjacency_of(init);
        let r = adjacency_of(triples);
        let t = triples.last();
        let s = term_of_subject(t.subject);
        lemma_adjacency_covers_subjects(init);
        lemma_first_index(a, s);
        match first_index(a, s) {
            Some(j) => {
                assert(r == a.update(j, (s, a[j].1.push((t.predicate, t.object)))));
                assert forall|i: int| #![trigger triples[i]] 0 <= i < triples.len() implies exists|j2: int|
                    0 <= j2 < r.len() && #[trigger] r[j2].0 == term_of_subject(triples[i].subject)
                        && r[j2].1.contains((triples[i].predicate, triples[i].object)) by {
                    if i < triples.len() - 1 {
                        assert(init[i] == triples[i]);
                        let j2 = choose|j2: int|
                            0 <= j2 < a.len() && #[trigger] a[j2].0 == term_of_subject(init[i].subject)
                                && a[j2].1.contains((init[i].predicate, init[i].object));
                        let pair = (triples[i].predicate, triples[i].object);
                        if j2 == j {
                            let k = choose|k: int| 0 <= k < a[j].1.len() && a[j].1[k] == pair;
                            assert(r[j].1[k] == a[j].1[k]);
                            assert(r[j].1.contains(pair));
                        } else {
                            assert(r[j2] == a[j2]);
                        }
                        assert(r[j2].0 == a[j2].0);
                        assert(0 <= j2 < r.len() && r[j2].0 == term_of_subject(triples[i].subject)
                            && r[j2].1.contains(pair));
                    } else {
                        assert(triples[i] == t);
                        assert(r[j].1[a[j].1.len() as int] == (t.predicate, t.object));
                        assert(r[j].1.contains((t.predicate, t.object)));
                        assert(0 <= j < r.len() && r[j].0 == term_of_subject(triples[i].subject)
                            && r[j].1.contains((triples[i].predicate, triples[i].object)));
                    }
                }
                assert forall|j1: int, j2: int| 0 <= j1 < j2 < r.len() implies #[trigger] r[j1].0
                    != #[trigger] r[j2].0 by {
                    assert(r[j1].0 == a[j1].0);
                    assert(r[j2].0 == a[j2].0);
                }
            },
            None => {
                assert(r == a.push((s, seq![(t.predicate, t.object)])));
                assert forall|i: int| #![trigger triples[i]] 0 <= i < triples.len() implies exists|j2: int|
                    0 <= j2 < r.len() && #[trigger] r[j2].0 == term_of_subject(triples[i].subject)
                        && r[j2].1.contains((triples[i].predicate, triples[i].object)) by {
                    if i < triples.len() - 1 {
                        assert(init[i] == triples[i]);
                        let j2 = choose|j2: int|
                            0 <= j2 < a.len() && #[trigger] a[j2].0 == term_of_subject(init[i].subject)
                                && a[j2].1.contains((init[i].predicate, init[i].object));
                        assert(r[j2] == a[j2]);
                        assert(0 <= j2 < r.len() && r[j2].0 == term_of_subject(triples[i].subject)
                            && r[j2].1.contains((triples[i].predicate, triples[i].object)));
                    } else {
                        let last = a.len() as int;
                        assert(triples[i] == t);
                        assert(r[last].1[0] == (t.predicate, t.object));
                        assert(r[last].1.contains((t.predicate, t.object)));
                        assert(0 <= last < r.len() && r[last].0 == term_of_subject(triples[i].subject)
                            && r[last].1.contains((triples[i].predicate, triples[i].object)));
                    }
                }
                assert forall|j1: int, j2: int| 0 <= j1 < j2 < r.len() implies #[trigger] r[j1].0
                    != #[trigger] r[j2].0 by {
                    assert(r[j1].0 == a[j1].0);
                    if j2 < a.len() {
                        assert(r[j2].0 == a[j2].0);
                    }
                }
            },
        }
    }
}

/// The text of a term that has no outgoing edges: the IRI of a named node,
/// the identifier of a blank node, the value of a literal.
pub open spec fn leaf_text(t: TermView) -> Seq<char> {
    match t {
        TermView::NamedNode(iri) => iri,
        TermView::BlankNode(id) => id,
        TermView::Literal(value, _, _) => value,
    }
}

/// The JSON key of a predicate: its short name where its base URI has a
/// prefix, the IRI itself otherwise.
pub open spec fn json_key(uri_prefixes: Map<Seq<char>, Seq<char>>, predicate: Seq<char>) -> Seq<char> {
    match json_var(uri_prefixes, predicate) {
        Some(name) => name,
        None => predicate,
    }
}

/// Adds `val` under key `k` of an object whose values are arrays: appended
/// to the array of an existing key, or as the one item of a new key.
pub open spec fn obj_push(obj: Seq<(Seq<char>, JsonView)>, k: Seq<char>, val: JsonView) -> Seq<
    (Seq<char>, JsonView),
> {
    match first_index(obj, k) {
        Some(j) => match obj[j].1 {
            JsonView::Array(items) => obj.update(j, (k, JsonView::Array(items.push(val)))),
            _ => obj.update(j, (k, JsonView::Array(seq![val]))),
        },
        None => obj.push((k, JsonView::Array(seq![val]))),
    }
}

/// The JSON tree of the graph below `key`, and the edges left unwalked: a
/// subject with edges becomes an object, walked once (its edges are taken
/// out of `adj` before its children are walked), each predicate a key whose
/// array holds the trees of its objects in order; any other term is its
/// text.
pub open spec fn tree_of(
    uri_prefixes: Map<Seq<char>, Seq<char>>,
    adj: Seq<(TermView, Seq<(Seq<char>, TermView)>)>,
    key: TermView,
) -> (JsonView, Seq<(TermView, Seq<(Seq<char>, TermView)>)>)
    decreases adj.len(), 0nat, 0int,
{
    match first_index(adj, key) {
        Some(j) => {
            proof {
                lemma_first_index(adj, key);
            }
            let (obj, rest) = tree_edges(uri_prefixes, adj.remove(j), adj[j].1, 0, seq![]);
            (JsonView::Object(obj), rest)
        },
        None => (JsonView::String(leaf_text(key)), adj),
    }
}

/// The edges `edges[i..]` added to the object `obj`, each object walked with
/// the edges that the walks before it left.
pub open spec fn tree_edges(
    uri_prefixes: Map<Seq<char>, Seq<char>>,
    adj: Seq<(TermView, Seq<(Seq<char>, TermView)>)>,
    edges: Seq<(Seq<char>, TermView)>,
    i: int,
    obj: Seq<(Seq<char>, JsonView)>,
) -> (Seq<(Seq<char>, JsonView)>, Seq<(TermView, Seq<(Seq<char>, TermView)>)>)
    decreases adj.len(), 1nat, edges.len() - i,
{
    if 0 <= i < edges.len() {
        let k = json_key(uri_prefixes, edges[i].0);
        let (val, rest) = tree_of(uri_prefixes, adj, edges[i].1);
        // always the case: see `lemma_walk_shrinks`
        if rest.len() <= adj.len() {
            tree_edges(uri_prefixes, rest, edges, i + 1, obj_push(obj, k, val))
        } else {
            (obj, adj)
        }
    } else {
        (obj, adj)
    }
}

/// A walk of the graph only ever takes edges out: what it leaves is never
/// longer than what it was given.
pub proof fn lemma_walk_shrinks(
    uri_prefixes: Map<Seq<char>, Seq<char>>,
    adj: Seq<(TermView, Seq<(Seq<char>, TermView)>)>,
    key: TermView,
)
    ensures
        tree_of(uri_prefixes, adj, key).1.len() <= adj.len(),
    decreases adj.len(), 0nat, 0int,
{
    match first_index(adj, key) {
        Some(j) => {
            lemma_first_index(adj, key);
            lemma_edges_shrink(uri_prefixes, adj.remove(j), adj[j].1, 0, seq![]);
        },
        None => {},
    }
}

/// Walking the edges of an object only ever takes edges out.
pub proof fn lemma_edges_shrink(
    uri_prefixes: Map<Seq<char>, Seq<char>>,
    adj: Seq<(TermView, Seq<(Seq<char>, TermView)>)>,
    edges: Seq<(Seq<char>, TermView)>,
    i: int,
    obj: Seq<(Seq<char>, JsonView)>,
)
    ensures
        tree_edges(uri_prefixes, adj, edges, i, obj).1.len() <= adj.len(),
    decreases adj.len(), 1nat, edges.len() - i,
{
    if 0 <= i < edges.len() {
        let k = json_key(uri_prefixes, edges[i].0);
        let (val, rest) = tree_of(uri_prefixes, adj, edges[i].1);
        lemma_walk_shrinks(uri_prefixes, adj, edges[i].1);
        lemma_edges_shrink(uri_prefixes, rest, edges, i + 1, obj_push(obj, k, val));
    }
}

/// The keys of a JSON object.
pub open spec fn object_keys(obj: Seq<(Seq<char>, JsonView)>) -> Set<Seq<char>> {
    Set::new(|k: Seq<char>| exists|i: int| 0 <= i < obj.len() && (#[trigger] obj[i]).0 == k)
}

/// The JSON keys of the predicates of edges `edges[i..]`.
pub open spec fn edge_keys(
    uri_prefixes: Map<Seq<char>, Seq<char>>,
    edges: Seq<(Seq<char>, TermView)>,
    i: int,
) -> Set<Seq<char>> {
    Set::new(
        |k: Seq<char>|
            exists|j: int| i <= j < edges.len() && json_key(uri_prefixes, (#[trigger] edges[j]).0) == k,
    )
}

/// Adding a value under a key adds exactly that key.
proof fn lemma_obj_push_keys(obj: Seq<(Seq<char>, JsonView)>, k: Seq<char>, val: JsonView)
    ensures
        object_keys(obj_push(obj, k, val)) == object_keys(obj).insert(k),
{
    lemma_first_index(obj, k);
    let r = obj_push(obj, k, val);
    assert forall|x: Seq<char>| object_keys(r).contains(x) <==> object_keys(obj).insert(k).contains(x) by {
        match first_index(obj, k) {
            Some(j) => {
                if object_keys(obj).contains(x) {
                    let i = choose|i: int| 0 <= i < obj.len() && (#[trigger] obj[i]).0 == x;
                    assert(r[i].0 == x);
                }
                if object_keys(r).contains(x) {
                    let i = choose|i: int| 0 <= i < r.len() && (#[trigger] r[i]).0 == x;
                    assert(obj[i].0 == x);
                }
                assert(r[j].0 == k);
            },
            None => {
                if object_keys(obj).contains(x) {
                    let i = choose|i: int| 0 <= i < obj.len() && (#[trigger] obj[i]).0 == x;
                    assert(r[i].0 == x);
                }
                if object_keys(r).contains(x) {
                    let i = choose|i: int| 0 <= i < r.len() && (#[trigger] r[i]).0 == x;
                    if i < obj.len() {
                        assert(obj[i].0 == x);
                    }
                }
                assert(r[obj.len() as int].0 == k);
            },
        }
    }
    assert(object_keys(r) =~= object_keys(obj).insert(k));
}

/// Walking edges `edges[i..]` into an object adds exactly the keys of their
/// predicates.
proof fn lemma_edges_keys(
    uri_prefixes: Map<Seq<char>, Seq<char>>,
    adj: Seq<(TermView, Seq<(Seq<char>, TermView)>)>,
    edges: Seq<(Seq<char>, TermView)>,
    i: int,
    obj: Seq<(Seq<char>, JsonView)>,
)
    requires
        0 <= i <= edges.len(),
    ensures
        object_keys(tree_edges(uri_prefixes, adj, edges, i, obj).0) == object_keys(obj).union(
            edge_keys(uri_prefixes, edges, i),
        ),
    decreases edges.len() - i,
{
    if i < edges.len() {
        let k = json_key(uri_prefixes, edges[i].0);
        let (val, rest) = tree_of(uri_prefixes, adj, edges[i].1);
        lemma_walk_shrinks(uri_prefixes, adj, edges[i].1);
        lemma_obj_push_keys(obj, k, val);
        lemma_edges_keys(uri_prefixes, rest, edges, i + 1, obj_push(obj, k, val));
        assert(edge_keys(uri_prefixes, edges, i) =~= edge_keys(uri_prefixes, edges, i + 1).insert(k));
        assert(object_keys(obj).union(edge_keys(uri_prefixes, edges, i)) =~= object_keys(obj).insert(
            k,
        ).union(edge_keys(uri_prefixes, edges, i + 1)));
    } else {
        assert(edge_keys(uri_prefixes, edges, i) =~= Set::<Seq<char>>::empty());
        assert(object_keys(obj).union(edge_keys(uri_prefixes, edges, i)) =~= object_keys(obj));
    }
}

/// Law: a term that is still the subject of unwalked edges, named node or
/// blank node alike, becomes a JSON object whose keys are the names of the
/// predicates of its edges; a term becomes its plain text only where no
/// edge leaves it.
pub proof fn lemma_tree_expands_subjects(
    uri_prefixes: Map<Seq<char>, Seq<char>>,
    adj: Seq<(TermView, Seq<(Seq<char>, TermView)>)>,
    key: TermView,
)
    ensures
        forall|j: int| #![trigger adj[j]]
            0 <= j < adj.len() && adj[j].0 == key && (forall|i: int| 0 <= i < j ==> adj[i].0 != key)
                ==> (tree_of(uri_prefixes, adj, key).0 matches JsonView::Object(obj) && object_keys(obj)
                == edge_keys(uri_prefixes, adj[j].1, 0)),
        (forall|j: int| 0 <= j < adj.len() ==> adj[j].0 != key) ==> tree_of(uri_prefixes, adj, key).0
            == JsonView::String(leaf_text(key)),
{
    lemma_first_index(adj, key);
    match first_index(adj, key) {
        Some(j) => {
            lemma_edges_keys(uri_prefixes, adj.remove(j), adj[j].1, 0, seq![]);
            assert(object_keys(seq![]) =~= Set::<Seq<char>>::empty());
            assert(Set::<Seq<char>>::empty().union(edge_keys(uri_prefixes, adj[j].1, 0)) =~= edge_keys(
                uri_prefixes,
                adj[j].1,
                0,
            ));
            assert forall|j2: int| #![trigger adj[j2]]
                0 <= j2 < adj.len() && adj[j2].0 == key && (forall|i: int| 0 <= i < j2 ==> adj[i].0 != key)
                    implies j2 == j by {
                if j2 < j {
                } else if j2 > j {
                    assert(adj[j].0 == key);
                }
            }
        },
        None => {},
    }
}

/// The IRI that the JSON tree of a graph starts from.
pub open spec fn graph_root() -> Seq<char> {
    "http://example.com/ROOT"@
}

/// The JSON tree of a graph, walked from `<http://example.com/ROOT>`.
pub open spec fn triples_json(uri_prefixes: Map<Seq<char>, Seq<char>>, triples: Seq<QuadView>) -> JsonView {
    tree_of(uri_prefixes, adjacency_of(triples), TermView::NamedNode(graph_root())).0
}

/// `inverse` maps each prefix URI, without its trailing `/`, to a prefix
/// that has that URI.
pub open spec fn inverts(prefixes: Map<Seq<char>, Seq<char>>, inverse: Map<Seq<char>, Seq<char>>) -> bool {
    &&& forall|k: Seq<char>|
        #[trigger] inverse.contains_key(k) <==> exists|p: Seq<char>|
            #[trigger] prefixes.contains_key(p) && strip_end(prefixes[p], '/') == k
    &&& forall|k: Seq<char>|
        #[trigger] inverse.contains_key(k) ==> prefixes.contains_key(inverse[k]) && strip_end(
            prefixes[inverse[k]],
            '/',
        ) == k
}

/// The triples of graph results that evaluated without error, as text.
pub open spec fn graph_quads(rows: Seq<Result<Quad, QueryEvaluationError>>) -> Seq<QuadView>
    decreases rows.len(),
{
    if rows.len() == 0 {
        seq![]
    } else {
        match rows.last() {
            Ok(q) => graph_quads(rows.drop_last()).push(q@),
            Err(_) => graph_quads(rows.drop_last()),
        }
    }
}

/// Edges as text.
pub open spec fn edges_view(edges: Seq<(String, Term)>) -> Seq<(Seq<char>, TermView)> {
    edges.map_values(|e: (String, Term)| (e.0@, e.1@))
}

/// An adjacency list as text.
pub open spec fn adj_view(adj: Seq<(Term, Vec<(String, Term)>)>) -> Seq<
    (TermView, Seq<(Seq<char>, TermView)>),
> {
    adj.map_values(|e: (Term, Vec<(String, Term)>)| (e.0@, edges_view(e.1@)))
}

/// `s` without its trailing characters `c`.
fn strip_end_string(s: &String, c: char) -> (r: String)
    ensures
        r@ == strip_end(s@, c),
{
    let v = chars_of(s.as_str());
    let n = v.len();
    let b = strip_end_bound(&v, 0, n, c);
    proof {
        assert(v@.subrange(0, n as int) =~= v@);
    }
    string_of(&v, 0, b)
}

/// Each prefix URI of `prefixes`, without its trailing `/`, mapped to a
/// prefix with that URI: where two prefixes share a URI, the one that comes
/// later among the map's entries.
pub fn inverse_prefix_map(prefixes: &StringMap) -> (r: StringMap)
    ensures
        inverts(prefixes@, r@),
{
    let entries = prefixes.entries();
    let mut r = StringMap::new();
    let n = entries.len();
    let mut i: usize = 0;
    while i < n
        invariant
            n == entries@.len(),
            i <= n,
            keys_distinct(entries@),
            pairs_map(entries@) == prefixes@,
            forall|k: Seq<char>|
                #[trigger] r@.contains_key(k) <==> exists|j: int|
                    0 <= j < i && strip_end(entries@[j].1@, '/') == k,
            forall|k: Seq<char>|
                #[trigger] r@.contains_key(k) ==> exists|j: int|
                    0 <= j < i && strip_end(entries@[j].1@, '/') == k && entries@[j].0@ == r@[k],
        decreases n - i,
    {
        let base = strip_end_string(&entries[i].1, '/');
        let ghost before = r@;
        r.insert(base, entries[i].0.clone());
        proof {
            assert forall|k: Seq<char>| #[trigger] r@.contains_key(k) implies exists|j: int|
                0 <= j < i + 1 && strip_end(entries@[j].1@, '/') == k && entries@[j].0@ == r@[k] by {
                if k != base@ {
                    let j = choose|j: int|
                        0 <= j < i && strip_end(entries@[j].1@, '/') == k && entries@[j].0@
                            == before[k];
                    assert(0 <= j < i + 1);
                } else {
                    assert(strip_end(entries@[i as int].1@, '/') == k);
                }
            }
        }
        i = i + 1;
    }
    proof {
        assert forall|k: Seq<char>| #[trigger] r@.contains_key(k) <==> exists|p: Seq<char>|
            #[trigger] prefixes@.contains_key(p) && strip_end(prefixes@[p], '/') == k by {
            if r@.contains_key(k) {
                let j = choose|j: int| 0 <= j < n && strip_end(entries@[j].1@, '/') == k;
                lemma_pairs_map_at(entries@, j);
                assert(prefixes@.contains_key(entries@[j].0@));
            }
            if exists|p: Seq<char>| #[trigger] prefixes@.contains_key(p) && strip_end(prefixes@[p], '/') == k {
                let p = choose|p: Seq<char>| #[trigger] prefixes@.contains_key(p) && strip_end(prefixes@[p], '/') == k;
                lemma_pairs_map_dom(entries@, p);
                let j = choose|j: int| 0 <= j < entries@.len() && entries@[j].0@ == p;
                lemma_pairs_map_at(entries@, j);
                assert(strip_end(entries@[j].1@, '/') == k);
            }
        }
        assert forall|k: Seq<char>| #[trigger] r@.contains_key(k) implies prefixes@.contains_key(r@[k])
            && strip_end(prefixes@[r@[k]], '/') == k by {
            let j = choose|j: int|
                0 <= j < n && strip_end(entries@[j].1@, '/') == k && entries@[j].0@ == r@[k];
            lemma_pairs_map_at(entries@, j);
        }
    }
    r
}

/// Position of the first subject `key` among the edges.
pub(crate) fn subject_position(adj: &Vec<(Term, Vec<(String, Term)>)>, key: &Term) -> (r: Option<usize>)
    ensures
        match r {
            Some(j) => first_index(adj_view(adj@), key@) == Some(j as int),
            None => first_index(adj_view(adj@), key@) is None,
        },
{
    let ghost a = adj_view(adj@);
    let n = adj.len();
    let mut i: usize = 0;
    while i < n
        invariant
            n == adj@.len(),
            a == adj_view(adj@),
            i <= n,
            forall|j: int| 0 <= j < i ==> a[j].0 != key@,
        decreases n - i,
    {
        proof {
            assert(a[i as int].0 == adj@[i as int].0@);
            lemma_first_index(a, key@);
        }
        if adj[i].0.same(key) {
            return Some(i);
        }
        i = i + 1;
    }
    proof {
        lemma_first_index(a, key@);
    }
    None
}

/// The edges of each subject of a list of triples: the subjects in the
/// order in which they first occur, each with its predicates and objects in
/// the order of the triples.
pub fn generate_adjacency_table(triples: &Vec<Quad>) -> (r: Vec<(Term, Vec<(String, Term)>)>)
    ensures
        adj_view(r@) == adjacency_of(quads_view(triples@)),
{
    let mut adj: Vec<(Term, Vec<(String, Term)>)> = Vec::new();
    let n = triples.len();
    let mut i: usize = 0;
    while i < n
        invariant
            n == triples@.len(),
            i <= n,
            adj_view(adj@) == adjacency_of(quads_view(triples@.take(i as int))),
        decreases n - i,
    {
        let t = &triples[i];
        let s = term_from_subject(t.subject.duplicate());
        let edge = (t.predicate.clone(), t.object.duplicate());
        let ghost a = adj_view(adj@);
        proof {
            assert(quads_view(triples@.take(i + 1)).drop_last() =~= quads_view(triples@.take(i as int)));
            assert(quads_view(triples@.take(i + 1)).last() == t@);
        }
        match subject_position(&adj, &s) {
            Some(j) => {
                proof {
                    lemma_first_index(a, s@);
                }
                let ghost before = adj@;
                let (k, mut es) = adj.remove(j);
                es.push(edge);
                adj.insert(j, (k, es));
                proof {
                    assert(adj@ =~= before.update(j as int, (k, es)));
                    assert(adj_view(adj@) =~= adj_view(before).update(j as int, (k@, edges_view(es@))));
                    assert(a[j as int].0 == before[j as int].0@);
                    assert(k@ == s@);
                    assert(edges_view(es@) =~= a[j as int].1.push((t@.predicate, t@.object)));
                    assert(adj_view(adj@) =~= a.update(j as int, (s@, a[j as int].1.push((t@.predicate, t@.object)))));
                }
            },
            None => {
                let mut es: Vec<(String, Term)> = Vec::new();
                es.push(edge);
                adj.push((s, es));
                proof {
                    assert(edges_view(es@) =~= seq![(t@.predicate, t@.object)]);
                    assert(adj_view(adj@) =~= a.push((s@, seq![(t@.predicate, t@.object)])));
                }
            },
        }
        i = i + 1;
    }
    proof {
        assert(triples@.take(n as int) =~= triples@);
    }
    adj
}

/// The text of a term without edges.
fn leaf_string(t: &Term) -> (r: String)
    ensures
        r@ == leaf_text(t@),
{
    match t {
        Term::NamedNode(iri) => iri.clone(),
        Term::BlankNode(id) => id.clone(),
        Term::Literal(l) => l.value.clone(),
    }
}

/// The JSON key of a predicate.
fn key_of_predicate(uri_prefixes: &StringMap, predicate: &String) -> (r: String)
    ensures
        r@ == json_key(uri_prefixes@, predicate@),
{
    match uri_to_json_var(uri_prefixes, predicate.clone()) {
        Some(name) => name,
        None => predicate.clone(),
    }
}

/// Adds `val` under key `k` of an object whose values are arrays.
fn push_entry(obj: &mut Vec<(String, JsonValue)>, k: String, val: JsonValue)
    ensures
        entries_view(final(obj)@) == obj_push(entries_view(old(obj)@), k@, json_view(val)),
{
    let ghost o = entries_view(obj@);
    let n = obj.len();
    let mut i: usize = 0;
    while i < n
        invariant
            n == obj@.len(),
            o == entries_view(obj@),
            obj@ == old(obj)@,
            i <= n,
            forall|j: int| 0 <= j < i ==> o[j].0 != k@,
        decreases n - i,
    {
        proof {
            assert(o[i as int].0 == obj@[i as int].0@);
            lemma_first_index(o, k@);
        }
        if obj[i].0 == k {
            let ghost whole = obj@;
            let (k0, current) = obj.remove(i);
            let ghost cur = json_view(current);
            let mut items: Vec<JsonValue> = match current {
                JsonValue::Array(items) => {
                    proof {
                        lemma_array_view(items);
                    }
                    items
                },
                _ => Vec::new(),
            };
            let ghost before = items_view(items@);
            items.push(val);
            proof {
                lemma_array_view(items);
                assert(items_view(items@) =~= before.push(json_view(val)));
                assert(cur is Array ==> before == cur->Array_0);
                assert(!(cur is Array) ==> before =~= seq![]);
            }
            obj.insert(i, (k0, JsonValue::Array(items)));
            proof {
                assert(obj@ =~= whole.update(i as int, (k0, JsonValue::Array(items))));
                assert(entries_view(obj@) =~= o.update(i as int, (k@, json_view(JsonValue::Array(items)))));
            }
            return;
        }
        i = i + 1;
    }
    let mut items: Vec<JsonValue> = Vec::new();
    items.push(val);
    proof {
        lemma_first_index(o, k@);
        lemma_array_view(items);
        assert(items_view(items@) =~= seq![json_view(val)]);
    }
    obj.push((k, JsonValue::Array(items)));
    proof {
        assert(entries_view(obj@) =~= o.push((k@, JsonView::Array(seq![json_view(val)]))));
    }
}

/// The JSON tree of the graph below `key`; the walked subjects leave `adj`.
fn tree_below(
    uri_prefixes: &StringMap,
    adj: &mut Vec<(Term, Vec<(String, Term)>)>,
    key: Term,
) -> (r: JsonValue)
    ensures
        (json_view(r), adj_view(final(adj)@)) == tree_of(uri_prefixes@, adj_view(old(adj)@), key@),
        final(adj)@.len() <= old(adj)@.len(),
    decreases old(adj)@.len(),
{
    let ghost a0 = adj_view(adj@);
    match subject_position(adj, &key) {
        None => JsonValue::String(leaf_string(&key)),
        Some(j) => {
            proof {
                lemma_first_index(a0, key@);
            }
            let (_, edges) = adj.remove(j);
            let ghost a1 = adj_view(adj@);
            let ghost ev = edges_view(edges@);
            proof {
                assert(a1 =~= a0.remove(j as int));
                assert(ev == a0[j as int].1);
            }
            let mut obj: Vec<(String, JsonValue)> = Vec::new();
            proof {
                assert(entries_view(obj@) =~= seq![]);
            }
            let n = edges.len();
            let mut i: usize = 0;
            while i < n
                invariant
                    n == edges@.len(),
                    ev == edges_view(edges@),
                    i <= n,
                    adj@.len() < old(adj)@.len(),
                    tree_edges(uri_prefixes@, a1, ev, 0, seq![]) == tree_edges(
                        uri_prefixes@,
                        adj_view(adj@),
                        ev,
                        i as int,
                        entries_view(obj@),
                    ),
                decreases n - i,
            {
                let k = key_of_predicate(uri_prefixes, &edges[i].0);
                let v = edges[i].1.duplicate();
                let val = tree_below(uri_prefixes, adj, v);
                push_entry(&mut obj, k, val);
                i = i + 1;
            }
            proof {
                lemma_object_view(obj);
            }
            JsonValue::Object(obj)
        },
    }
}

/// The JSON tree of a graph given as a list of triples, walked from
/// `<http://example.com/ROOT>`, with predicates named through the map from
/// base URIs to prefixes.
pub fn triples_to_json_with(uri_prefixes: &StringMap, triples: &Vec<Quad>) -> (r: JsonValue)
    ensures
        json_view(r) == triples_json(uri_prefixes@, quads_view(triples@)),
{
    let mut adj = generate_adjacency_table(triples);
    let root = Term::NamedNode(String::from_str("http://example.com/ROOT"));
    proof {
        reveal_strlit("http://example.com/ROOT");
    }
    tree_below(uri_prefixes, &mut adj, root)
}

/// The triples of graph results, each of which evaluated without error.
fn result_quads(rows: &Vec<Result<Quad, QueryEvaluationError>>) -> (r: Vec<Quad>)
    ensures
        quads_view(r@) == graph_quads(rows@),
{
    let mut quads: Vec<Quad> = Vec::new();
    let n = rows.len();
    let mut i: usize = 0;
    while i < n
        invariant
            n == rows@.len(),
            i <= n,
            quads_view(quads@) == graph_quads(rows@.take(i as int)),
        decreases n - i,
    {
        proof {
            assert(rows@.take(i + 1).drop_last() =~= rows@.take(i as int));
        }
        match &rows[i] {
            Ok(q) => {
                let ghost before = quads@;
                quads.push(
                    Quad {
                        subject: q.subject.duplicate(),
                        predicate: q.predicate.clone(),
                        object: q.object.duplicate(),
                    },
                );
                proof {
                    assert(quads_view(quads@) =~= quads_view(before).push(q@));
                }
            },
            Err(_) => {},
        }
        i = i + 1;
    }
    proof {
        assert(rows@.take(n as int) =~= rows@);
    }
    quads
}

/// The JSON tree of the triples of a graph query, walked from
/// `<http://example.com/ROOT>`: each predicate is named after the prefix of
/// its base URI in the database's prefix map, where it has one (of two
/// prefixes with one URI, either may name it). Every triple must have
/// evaluated without error.
pub fn triples_to_json(db: &MemDatabase, triples: Vec<Result<Quad, QueryEvaluationError>>) -> (r: JsonValue)
    requires
        forall|i: int| 0 <= i < triples@.len() ==> triples@[i] is Ok,
    ensures
        exists|uri_prefixes: Map<Seq<char>, Seq<char>>|
            inverts(db.prefix_map(), uri_prefixes) && json_view(r) == triples_json(
                uri_prefixes,
                graph_quads(triples@),
            ),
{
    let uri_prefixes = inverse_prefix_map(db.get_prefix_map());
    let quads = result_quads(&triples);
    let r = triples_to_json_with(&uri_prefixes, &quads);
    proof {
        assert(inverts(db.prefix_map(), uri_prefixes@));
    }
    r
}

} // verus!
