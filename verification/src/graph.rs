//! A labelled graph of the triples, for display: one node per subject,
//! labelled with its N-Triples text, and one edge per triple, labelled with
//! its predicate; an object that is no subject gets a node of its own for
//! each triple it ends.
use vstd::prelude::*;
use crate::database::{display_term, term_display};
use crate::export::{
    adj_view, adjacency_of, first_index, generate_adjacency_table, subject_position,
};
use crate::rdf::{quads_view, Quad, Term, TermView};

verus! {

/// A graph with labelled nodes and labelled edges between node indices.
#[derive(Debug)]
pub struct LabelledGraph {
    pub nodes: Vec<String>,
    pub edges: Vec<(usize, usize, String)>,
}

/// The edges of an adjacency list in order, each with the index of its
/// subject.
pub open spec fn flat_edges(adj: Seq<(TermView, Seq<(Seq<char>, TermView)>)>) -> Seq<
    (int, Seq<char>, TermView),
>
    decreases adj.len(),
{
    if adj.len() == 0 {
        seq![]
    } else {
        let i = adj.len() - 1;
        flat_edges(adj.drop_last()) + adj.last().1.map_values(
            |e: (Seq<char>, TermView)| (i, e.0, e.1),
        )
    }
}

/// The label of each subject.
pub open spec fn subject_labels(adj: Seq<(TermView, Seq<(Seq<char>, TermView)>)>) -> Seq<Seq<char>> {
    adj.map_values(|e: (TermView, Seq<(Seq<char>, TermView)>)| term_display(e.0))
}

/// The nodes and edges after the edges `es` of the adjacency list `adj`.
pub open spec fn graph_from(
    adj: Seq<(TermView, Seq<(Seq<char>, TermView)>)>,
    es: Seq<(int, Seq<char>, TermView)>,
) -> (Seq<Seq<char>>, Seq<(int, int, Seq<char>)>)
    decreases es.len(),
{
    if es.len() == 0 {
        (subject_labels(adj), seq![])
    } else {
        let (nodes, edges) = graph_from(adj, es.drop_last());
        let (i, p, o) = es.last();
        let label = term_display(TermView::NamedNode(p));
        match first_index(adj, o) {
            Some(j) => (nodes, edges.push((i, j, label))),
            None => (nodes.push(term_display(o)), edges.push((i, nodes.len() as int, label))),
        }
    }
}

/// The graph of a list of triples.
pub open spec fn graph_of(triples: Seq<crate::rdf::QuadView>) -> (Seq<Seq<char>>, Seq<(int, int, Seq<char>)>) {
    let adj = adjacency_of(triples);
    graph_from(adj, flat_edges(adj))
}

/// Nodes as text.
pub open spec fn labels_view(nodes: Seq<String>) -> Seq<Seq<char>> {
    nodes.map_values(|s: String| s@)
}

/// Edges as plain data.
pub open spec fn edges_view(edges: Seq<(usize, usize, String)>) -> Seq<(int, int, Seq<char>)> {
    edges.map_values(|e: (usize, usize, String)| (e.0 as int, e.1 as int, e.2@))
}

/// The labelled graph of a list of triples: the subjects first, in the
/// order in which they first occur, then for each subject its edges in the
/// order of the triples.
pub fn generate_graph(triples: &Vec<Quad>) -> (r: LabelledGraph)
    ensures
        (labels_view(r.nodes@), edges_view(r.edges@)) == graph_of(quads_view(triples@)),
{
    let adj = generate_adjacency_table(triples);
    let ghost a = adj_view(adj@);
    let n = adj.len();
    let mut nodes: Vec<String> = Vec::new();
    let mut i: usize = 0;
    while i < n
        invariant
            n == adj@.len(),
            a == adj_view(adj@),
            i <= n,
            labels_view(nodes@) == subject_labels(a.take(i as int)),
        decreases n - i,
    {
        let label = display_term(&adj[i].0);
        let ghost before = nodes@;
        nodes.push(label);
        proof {
            assert(a[i as int].0 == adj@[i as int].0@);
            assert(labels_view(nodes@) =~= labels_view(before).push(term_display(a[i as int].0)));
            assert(subject_labels(a.take(i + 1)) =~= subject_labels(a.take(i as int)).push(
                term_display(a[i as int].0),
            ));
        }
        i = i + 1;
    }
    proof {
        assert(a.take(n as int) =~= a);
    }
    let mut edges: Vec<(usize, usize, String)> = Vec::new();
    let mut i: usize = 0;
    proof {
        assert(flat_edges(a.take(0)) =~= seq![]);
        assert(edges_view(edges@) =~= seq![]);
    }
    while i < n
        invariant
            n == adj@.len(),
            a == adj_view(adj@),
            i <= n,
            (labels_view(nodes@), edges_view(edges@)) == graph_from(a, flat_edges(a.take(i as int))),
        decreases n - i,
    {
        let m = adj[i].1.len();
        let mut k: usize = 0;
        let ghost done = flat_edges(a.take(i as int));
        let ghost mine = a[i as int].1.map_values(
            |e: (Seq<char>, TermView)| (i as int, e.0, e.1),
        );
        proof {
            assert(a.take(i + 1).drop_last() =~= a.take(i as int));
            assert(flat_edges(a.take(i + 1)) == done + mine);
        }
        while k < m
            invariant
                n == adj@.len(),
                a == adj_view(adj@),
                i < n,
                m == adj@[i as int].1@.len(),
                k <= m,
                mine.len() == m,
                mine == a[i as int].1.map_values(|e: (Seq<char>, TermView)| (i as int, e.0, e.1)),
                (labels_view(nodes@), edges_view(edges@)) == graph_from(a, done + mine.take(k as int)),
            decreases m - k,
        {
            let p = &adj[i].1[k].0;
            let o = &adj[i].1[k].1;
            let label = display_term(&Term::NamedNode(p.clone()));
            let ghost es = done + mine.take(k + 1);
            proof {
                assert(es.drop_last() =~= done + mine.take(k as int));
                assert(es.last() == (i as int, p@, o@));
                assert(a[i as int].1[k as int] == (p@, o@));
            }
            match subject_position(&adj, o) {
                Some(j) => {
                    let ghost before = edges@;
                    edges.push((i, j, label));
                    proof {
                        assert(edges_view(edges@) =~= edges_view(before).push((i as int, j as int, label@)));
                    }
                },
                None => {
                    let dest = nodes.len();
                    let ghost before_nodes = nodes@;
                    let ghost before = edges@;
                    nodes.push(display_term(o));
                    edges.push((i, dest, label));
                    proof {
                        assert(labels_view(nodes@) =~= labels_view(before_nodes).push(term_display(o@)));
                        assert(edges_view(edges@) =~= edges_view(before).push((i as int, dest as int, label@)));
                    }
                },
            }
            k = k + 1;
        }
        proof {
            assert(mine.take(m as int) =~= mine);
        }
        i = i + 1;
    }
    proof {
        assert(a.take(n as int) =~= a);
    }
    LabelledGraph { nodes, edges }
}

} // verus!
