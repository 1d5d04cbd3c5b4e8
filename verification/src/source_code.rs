//! The translation of a parsed source file into quads.
//!
//! The root node hangs from `<http://exmaple.com/ROOT>` through a fresh
//! blank node; under each node, a named child that is a leaf gives a literal
//! with its quoted text under the predicate named after its field (or its
//! kind), and any other named child gives a fresh blank node under the
//! predicate named after its kind, which is walked in turn. The children of
//! a node are turned into quads from the last to the first, and the new
//! blank nodes are then walked from the first to the last.
use vstd::prelude::*;
use crate::error::{load_error_is, DatabaseLoadError, LoadFailure};
use crate::loader::{
    appended, extends, hex_text, lemma_appended_whole, lemma_extend, lemma_extends_start,
    named_iri, next_blank, opt_subject_view, quad, subjects_view, walk_outcome, xsd_string,
    blank_node_id, checked_iri, nones, push_quad,
};
use crate::rdf::{quads_view, Literal, NamedOrBlankNode, Quad, QuadView, SubjectView, Term, TermView};

verus! {

/// A node of a syntax tree: its kind, its number of children (named or
/// not), its source text, and its named children, each with the name of the
/// field it fills, if any.
#[derive(Debug)]
pub struct SyntaxNode {
    pub kind: String,
    pub child_count: usize,
    pub text: String,
    pub named_children: Vec<(Option<String>, SyntaxNode)>,
}

/// A language that source files can be written in: its name, its grammar
/// (a WebAssembly module), the extensions of its files, and the file the
/// grammar was read from.
#[derive(Debug)]
pub struct Language {
    language: String,
    grammar: Vec<u8>,
    file_extensions: Vec<String>,
    grammar_file: String,
}

impl View for Language {
    /// The name, the grammar, the file extensions and the grammar file.
    type V = (Seq<char>, Seq<u8>, Seq<Seq<char>>, Seq<char>);

    closed spec fn view(&self) -> Self::V {
        (
            self.language@,
            self.grammar@,
            self.file_extensions@.map_values(|e: String| e@),
            self.grammar_file@,
        )
    }
}

impl Language {
    /// A language from its parts, as given.
    pub fn with_grammar(
        language: String,
        grammar: Vec<u8>,
        file_extensions: Vec<String>,
        grammar_file: String,
    ) -> (r: Self)
        ensures
            r@ == (
                language@,
                grammar@,
                file_extensions@.map_values(|e: String| e@),
                grammar_file@,
            ),
    {
        Language { language, grammar, file_extensions, grammar_file }
    }

    /// The name of the language.
    pub fn language(&self) -> (r: &String)
        ensures
            r@ == self@.0,
    {
        &self.language
    }

    /// The grammar of the language.
    pub fn grammar(&self) -> (r: &Vec<u8>)
        ensures
            r@ == self@.1,
    {
        &self.grammar
    }

    /// The extensions of the language's files.
    pub fn file_extensions(&self) -> (r: &Vec<String>)
        ensures
            r@.map_values(|e: String| e@) == self@.2,
    {
        &self.file_extensions
    }

    /// The file the grammar was read from.
    pub fn grammar_file(&self) -> (r: &String)
        ensures
            r@ == self@.3,
    {
        &self.grammar_file
    }
}

/// The IRI `http://example.com/<name>`.
pub open spec fn code_iri(name: Seq<char>) -> Seq<char> {
    "http://example.com/"@ + name
}

/// The subject that the root of a source file hangs from.
pub open spec fn code_root_iri() -> Seq<char> {
    "http://exmaple.com/ROOT"@
}

/// `text` in double quotes.
pub open spec fn quoted(text: Seq<char>) -> Seq<char> {
    seq!['"'] + text + seq!['"']
}

/// The quads of one named child under subject `subj`, the blank node it
/// opens (for a child that is no leaf), and the counter after it.
pub open spec fn code_child_level(
    subj: SubjectView,
    child: (Option<String>, SyntaxNode),
    next: u128,
) -> Result<(Seq<QuadView>, Option<SubjectView>, u128), LoadFailure> {
    let node = child.1;
    if node.child_count == 0 {
        let field = match child.0 {
            Some(f) => f@,
            None => node.kind@,
        };
        match named_iri(code_iri(field)) {
            Ok(p) => Ok(
                (
                    seq![quad(subj, p, TermView::Literal(quoted(node.text@), xsd_string(), None))],
                    None,
                    next,
                ),
            ),
            Err(f) => Err(f),
        }
    } else {
        match named_iri(code_iri(node.kind@)) {
            Ok(p) => {
                let b = hex_text(next as nat);
                Ok(
                    (
                        seq![quad(subj, p, TermView::BlankNode(b))],
                        Some(SubjectView::BlankNode(b)),
                        next_blank(next),
                    ),
                )
            },
            Err(f) => Err(f),
        }
    }
}

/// Law: a named child that has children of its own hangs from its parent's
/// subject, through one quad to a fresh blank node, under the predicate
/// `http://example.com/<kind of the child>`, whatever field it fills.
pub proof fn lemma_inner_child_hangs_by_kind(
    subj: SubjectView,
    field: Option<String>,
    node: SyntaxNode,
    next: u128,
)
    requires
        node.child_count > 0,
    ensures
        code_child_level(subj, (field, node), next) == code_child_level(subj, (None, node), next),
        code_child_level(subj, (field, node), next) matches Ok((q, opened, n)) ==> {
            &&& q.len() == 1
            &&& q[0].subject == subj
            &&& q[0].predicate == "http://example.com/"@ + node.kind@
            &&& q[0].object is BlankNode
            &&& opened == Some(SubjectView::BlankNode(q[0].object->BlankNode_0))
        },
{
}

/// Law: a named child with no children of its own gives one quad from its
/// parent's subject whose predicate is `http://example.com/<field>` for the
/// field it fills, or `http://example.com/<kind>` where it fills none, and
/// whose object is its source text in double quotes, as a string literal.
pub proof fn lemma_leaf_child_quad(subj: SubjectView, field: Option<String>, node: SyntaxNode, next: u128)
    requires
        node.child_count == 0,
    ensures
        code_child_level(subj, (field, node), next) matches Ok((q, opened, n)) ==> {
            &&& q.len() == 1
            &&& q[0].subject == subj
            &&& q[0].predicate == "http://example.com/"@ + match field {
                Some(f) => f@,
                None => node.kind@,
            }
            &&& q[0].object == TermView::Literal(seq!['"'] + node.text@ + seq!['"'], xsd_string(), None)
            &&& opened is None
            &&& n == next
        },
{
}

/// Law: the quads of a source file start with the one that hangs its root
/// node, as a fresh blank node, from `<http://exmaple.com/ROOT>` under the
/// predicate `http://example.com/<kind of the root>`.
pub proof fn lemma_source_root_quad(root: SyntaxNode, next: u128)
    ensures
        source_code_quads(root, next) matches Ok((q, n)) ==> {
            &&& q.len() >= 1
            &&& q[0] == quad(
                SubjectView::NamedNode("http://exmaple.com/ROOT"@),
                "http://example.com/"@ + root.kind@,
                TermView::BlankNode(hex_text(next as nat)),
            )
        },
{
}

/// The named children `children[0..k]`, from the last to the first: their
/// quads, the blank nodes they open (indexed as the children), the counter.
pub open spec fn code_level(
    subj: SubjectView,
    children: Seq<(Option<String>, SyntaxNode)>,
    k: int,
    next: u128,
) -> Result<(Seq<QuadView>, Seq<Option<SubjectView>>, u128), LoadFailure>
    decreases k,
{
    if k <= 0 {
        Ok((seq![], seq![], next))
    } else {
        match code_child_level(subj, children[k - 1], next) {
            Ok((q, s, n1)) => match code_level(subj, children, k - 1, n1) {
                Ok((qs, ss, n2)) => Ok((q + qs, ss.push(s), n2)),
                Err(f) => Err(f),
            },
            Err(f) => Err(f),
        }
    }
}

/// The quads of the node walked under subject `subj`, and the counter.
pub open spec fn code_frame(subj: SubjectView, node: SyntaxNode, next: u128) -> Result<
    (Seq<QuadView>, u128),
    LoadFailure,
>
    decreases node, 2nat, 0int,
{
    match code_level(
        subj,
        node.named_children@,
        node.named_children@.len() as int,
        next,
    ) {
        Ok((q, subs, n1)) => match code_children(node, 0, subs, n1) {
            Ok((q2, n2)) => Ok((q + q2, n2)),
            Err(f) => Err(f),
        },
        Err(f) => Err(f),
    }
}

/// The blank nodes opened by the named children `[i..]` of `node`, walked
/// from the first to the last.
pub open spec fn code_children(
    node: SyntaxNode,
    i: int,
    subs: Seq<Option<SubjectView>>,
    next: u128,
) -> Result<(Seq<QuadView>, u128), LoadFailure>
    decreases node, 1nat, node.named_children@.len() - i,
{
    if 0 <= i < node.named_children@.len() && i < subs.len() {
        let here = match subs[i] {
            Some(s) => code_frame(s, node.named_children@[i].1, next),
            None => Ok((seq![], next)),
        };
        match here {
            Ok((q1, n1)) => match code_children(node, i + 1, subs, n1) {
                Ok((q2, n2)) => Ok((q1 + q2, n2)),
                Err(f) => Err(f),
            },
            Err(f) => Err(f),
        }
    } else {
        Ok((seq![], next))
    }
}

/// The quads of a source file with syntax tree `root`, blank nodes numbered
/// from `next` on; with the counter after them.
pub open spec fn source_code_quads(root: SyntaxNode, next: u128) -> Result<
    (Seq<QuadView>, u128),
    LoadFailure,
> {
    let b = hex_text(next as nat);
    match named_iri(code_iri(root.kind@)) {
        Ok(p) => match code_frame(SubjectView::BlankNode(b), root, next_blank(next)) {
            Ok((q, n)) => Ok(
                (
                    seq![
                        quad(
                            SubjectView::NamedNode(code_root_iri()),
                            p,
                            TermView::BlankNode(b),
                        ),
                    ] + q,
                    n,
                ),
            ),
            Err(f) => Err(f),
        },
        Err(f) => Err(f),
    }
}

/// The IRI `http://example.com/<name>`.
fn code_iri_exec(name: &str) -> (r: String)
    ensures
        r@ == code_iri(name@),
{
    let mut s = String::from_str("http://example.com/");
    s.append(name);
    s
}

/// A fresh blank node from the counter.
fn fresh_blank(next: &mut u128) -> (r: String)
    ensures
        r@ == hex_text(*old(next) as nat),
        *final(next) == next_blank(*old(next)),
{
    let id = blank_node_id(*next);
    *next = if *next == u128::MAX {
        0
    } else {
        *next + 1
    };
    id
}

/// The quads of one named child; the blank node it opens.
fn code_child_exec(
    subj: &NamedOrBlankNode,
    child: &(Option<String>, SyntaxNode),
    quads: &mut Vec<Quad>,
    next: &mut u128,
) -> (r: Result<Option<NamedOrBlankNode>, DatabaseLoadError>)
    ensures
        match code_child_level(subj@, *child, *old(next)) {
            Ok((q, s, n)) => r matches Ok(x) && opt_subject_view(x) == s && quads_view(final(quads)@)
                == quads_view(old(quads)@) + q && *final(next) == n,
            Err(f) => r matches Err(e) && load_error_is(e, f),
        },
{
    let node = &child.1;
    if node.child_count == 0 {
        let field = match &child.0 {
            Some(f) => f,
            None => &node.kind,
        };
        let pred = checked_iri(code_iri_exec(field.as_str()))?;
        let mut text = String::from_str("\"");
        text.append(node.text.as_str());
        text.append("\"");
        proof {
            reveal_strlit("\"");
            assert(text@ =~= quoted(node.text@));
        }
        let lit = Literal {
            value: text,
            datatype: String::from_str("http://www.w3.org/2001/XMLSchema#string"),
            language: None,
        };
        push_quad(quads, subj, &pred, Term::Literal(lit));
        Ok(None)
    } else {
        let pred = checked_iri(code_iri_exec(node.kind.as_str()))?;
        let b = fresh_blank(next);
        push_quad(quads, subj, &pred, Term::BlankNode(b.clone()));
        Ok(Some(NamedOrBlankNode::BlankNode(b)))
    }
}

/// The quads of the named children of a node, from the last to the first;
/// the blank nodes they open.
fn code_level_exec(
    subj: &NamedOrBlankNode,
    children: &Vec<(Option<String>, SyntaxNode)>,
    quads: &mut Vec<Quad>,
    next: &mut u128,
) -> (r: Result<Vec<Option<NamedOrBlankNode>>, DatabaseLoadError>)
    ensures
        match code_level(subj@, children@, children@.len() as int, *old(next)) {
            Ok((q, s, n)) => r matches Ok(x) && subjects_view(x@) == s && x@.len() == children@.len()
                && quads_view(final(quads)@) == quads_view(old(quads)@) + q && *final(next) == n,
            Err(f) => r matches Err(e) && load_error_is(e, f),
        },
{
    let len = children.len();
    let mut subs = nones(len);
    let mut k = len;
    let ghost total = code_level(subj@, children@, len as int, *next);
    let ghost start = quads_view(quads@);
    proof {
        assert(subjects_view(subs@).subrange(len as int, len as int) =~= Seq::<
            Option<SubjectView>,
        >::empty());
        lemma_extends_start(quads@);
    }
    while k > 0
        invariant
            len == children@.len(),
            subs@.len() == len,
            k <= len,
            total == code_level(subj@, children@, len as int, *old(next)),
            start == quads_view(old(quads)@),
            extends(quads@, start),
            total == match code_level(subj@, children@, k as int, *next) {
                Ok((qs, ss, n)) => Ok(
                    (
                        appended(quads@, start) + qs,
                        ss + subjects_view(subs@).subrange(k as int, len as int),
                        n,
                    ),
                ),
                Err(f) => Err(f),
            },
        decreases k,
    {
        let ghost before = quads@;
        let ghost before_s = subjects_view(subs@);
        let ghost cur = *next;
        let s = code_child_exec(subj, &children[k - 1], quads, next)?;
        let ghost so = opt_subject_view(s);
        subs.set(k - 1, s);
        proof {
            let (q, so2, n1) = code_child_level(subj@, children@[k - 1], cur)->Ok_0;
            lemma_extend(before, quads@, start, q);
            assert(subjects_view(subs@).subrange(k - 1, len as int) =~= seq![so]
                + before_s.subrange(k as int, len as int));
            match code_level(subj@, children@, k - 1, n1) {
                Ok((qs, ss, n2)) => {
                    let pq = appended(before, start);
                    assert(pq + (q + qs) =~= (pq + q) + qs);
                    assert(ss.push(so) + before_s.subrange(k as int, len as int) =~= ss + (seq![so]
                        + before_s.subrange(k as int, len as int)));
                },
                Err(f) => {},
            }
        }
        k = k - 1;
    }
    proof {
        assert(subjects_view(subs@).subrange(0, len as int) =~= subjects_view(subs@));
        assert(Seq::<Option<SubjectView>>::empty() + subjects_view(subs@) =~= subjects_view(subs@));
        assert(appended(quads@, start) + Seq::<QuadView>::empty() =~= appended(quads@, start));
        lemma_appended_whole(quads@, start);
    }
    Ok(subs)
}

/// Walks a node under subject `subj`, appending its quads.
fn code_frame_exec(
    subj: &NamedOrBlankNode,
    node: &SyntaxNode,
    quads: &mut Vec<Quad>,
    next: &mut u128,
) -> (r: Result<(), DatabaseLoadError>)
    ensures
        walk_outcome(r, code_frame(subj@, *node, *old(next)), old(quads)@, final(quads)@, *final(next)),
    decreases node,
{
    let ghost start = quads_view(quads@);
    let ghost n0 = *next;
    let subs = code_level_exec(subj, &node.named_children, quads, next)?;
    let ghost sv = subjects_view(subs@);
    let ghost lq = code_level(subj@, node.named_children@, node.named_children@.len() as int, n0)->Ok_0.0;
    let ghost mid = quads@;
    let len = node.named_children.len();
    let mut i: usize = 0;
    proof {
        lemma_extends_start(quads@);
        assert(code_children(*node, 0, sv, *next) == after_code(
            appended(quads@, quads_view(mid)),
            code_children(*node, 0, sv, *next),
        )) by {
            match code_children(*node, 0, sv, *next) {
                Ok((q, n)) => {
                    assert(Seq::<QuadView>::empty() + q =~= q);
                },
                Err(f) => {},
            }
        }
    }
    let ghost total = code_children(*node, 0, sv, *next);
    while i < len
        invariant
            len == node.named_children@.len(),
            subs@.len() == len,
            sv == subjects_view(subs@),
            i <= len,
            extends(quads@, quads_view(mid)),
            quads_view(mid) == start + lq,
            code_frame(subj@, *node, *old(next)) == match total {
                Ok((q2, n2)) => Ok((lq + q2, n2)),
                Err(f) => Err(f),
            },
            total == after_code(
                appended(quads@, quads_view(mid)),
                code_children(*node, i as int, sv, *next),
            ),
        decreases len - i,
    {
        let ghost before = quads@;
        let ghost cur = *next;
        match &subs[i] {
            Some(s) => {
                code_frame_exec(s, &node.named_children[i].1, quads, next)?;
                proof {
                    let (q1, n1) = code_frame(s@, node.named_children@[i as int].1, cur)->Ok_0;
                    lemma_extend(before, quads@, quads_view(mid), q1);
                    match code_children(*node, i + 1, sv, n1) {
                        Ok((q2, n2)) => {
                            let pq = appended(before, quads_view(mid));
                            assert(pq + (q1 + q2) =~= (pq + q1) + q2);
                        },
                        Err(f) => {},
                    }
                }
            },
            None => {
                proof {
                    match code_children(*node, i + 1, sv, cur) {
                        Ok((q2, n2)) => {
                            assert(Seq::<QuadView>::empty() + q2 =~= q2);
                        },
                        Err(f) => {},
                    }
                }
            },
        }
        i = i + 1;
    }
    proof {
        let a = appended(quads@, quads_view(mid));
        assert(a + Seq::<QuadView>::empty() =~= a);
        lemma_appended_whole(quads@, quads_view(mid));
        assert(quads_view(quads@) =~= start + (lq + a));
    }
    Ok(())
}

/// The outcome of a walk after quads `pq` were already produced.
pub open spec fn after_code(pq: Seq<QuadView>, r: Result<(Seq<QuadView>, u128), LoadFailure>) -> Result<
    (Seq<QuadView>, u128),
    LoadFailure,
> {
    match r {
        Ok((q, n)) => Ok((pq + q, n)),
        Err(f) => Err(f),
    }
}

/// The quads of a source file with syntax tree `root`, blank nodes numbered
/// from `next` on.
pub fn code_quads(root: &SyntaxNode, next: &mut u128) -> (r: Result<Vec<Quad>, DatabaseLoadError>)
    ensures
        match source_code_quads(*root, *old(next)) {
            Ok((q, n)) => r matches Ok(v) && quads_view(v@) == q && *final(next) == n,
            Err(f) => r matches Err(e) && load_error_is(e, f),
        },
{
    let mut quads: Vec<Quad> = Vec::new();
    let pred = checked_iri(code_iri_exec(root.kind.as_str()))?;
    let b = fresh_blank(next);
    let subject = NamedOrBlankNode::NamedNode(String::from_str("http://exmaple.com/ROOT"));
    push_quad(&mut quads, &subject, &pred, Term::BlankNode(b.clone()));
    let blank = NamedOrBlankNode::BlankNode(b);
    code_frame_exec(&blank, root, &mut quads, next)?;
    proof {
        assert(quads_view(Seq::<Quad>::empty()) =~= Seq::<QuadView>::empty());
    }
    Ok(quads)
}

} // verus!
