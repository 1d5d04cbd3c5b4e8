//! RDF terms and quads as plain values.
use vstd::prelude::*;

verus! {

/// A literal: its lexical value, its datatype IRI and its language tag.
#[derive(Debug)]
pub struct Literal {
    pub value: String,
    pub datatype: String,
    pub language: Option<String>,
}

/// An RDF term.
#[derive(Debug)]
pub enum Term {
    NamedNode(String),
    BlankNode(String),
    Literal(Literal),
}

/// The subject of a quad: a named node or a blank node.
#[derive(Debug)]
pub enum NamedOrBlankNode {
    NamedNode(String),
    BlankNode(String),
}

/// A quad of the default graph.
#[derive(Debug)]
pub struct Quad {
    pub subject: NamedOrBlankNode,
    pub predicate: String,
    pub object: Term,
}

/// A term as text.
pub enum TermView {
    NamedNode(Seq<char>),
    BlankNode(Seq<char>),
    Literal(Seq<char>, Seq<char>, Option<Seq<char>>),
}

/// A subject as text.
pub enum SubjectView {
    NamedNode(Seq<char>),
    BlankNode(Seq<char>),
}

/// A quad as text.
pub struct QuadView {
    pub subject: SubjectView,
    pub predicate: Seq<char>,
    pub object: TermView,
}

impl View for Term {
    type V = TermView;

    open spec fn view(&self) -> TermView {
        match self {
            Term::NamedNode(s) => TermView::NamedNode(s@),
            Term::BlankNode(s) => TermView::BlankNode(s@),
            Term::Literal(l) => TermView::Literal(
                l.value@,
                l.datatype@,
                match l.language {
                    Some(t) => Some(t@),
                    None => None,
                },
            ),
        }
    }
}

impl View for NamedOrBlankNode {
    type V = SubjectView;

    open spec fn view(&self) -> SubjectView {
        match self {
            NamedOrBlankNode::NamedNode(s) => SubjectView::NamedNode(s@),
            NamedOrBlankNode::BlankNode(s) => SubjectView::BlankNode(s@),
        }
    }
}

impl View for Quad {
    type V = QuadView;

    open spec fn view(&self) -> QuadView {
        QuadView { subject: self.subject@, predicate: self.predicate@, object: self.object@ }
    }
}

/// The quads of a list, as text.
pub open spec fn quads_view(quads: Seq<Quad>) -> Seq<QuadView> {
    quads.map_values(|q: Quad| q@)
}

/// The subject that a term can stand for, if any.
pub open spec fn subject_of(t: TermView) -> Option<SubjectView> {
    match t {
        TermView::NamedNode(s) => Some(SubjectView::NamedNode(s)),
        TermView::BlankNode(s) => Some(SubjectView::BlankNode(s)),
        TermView::Literal(..) => None,
    }
}

/// The term that a subject is.
pub open spec fn term_of_subject(s: SubjectView) -> TermView {
    match s {
        SubjectView::NamedNode(x) => TermView::NamedNode(x),
        SubjectView::BlankNode(x) => TermView::BlankNode(x),
    }
}

/// The subject that a term can stand for: named and blank nodes can, literals cannot.
pub fn subject_from_term(term: Term) -> (r: Option<NamedOrBlankNode>)
    ensures
        match r {
            Some(s) => subject_of(term@) == Some(s@),
            None => subject_of(term@) is None,
        },
{
    match term {
        Term::NamedNode(nn) => Some(NamedOrBlankNode::NamedNode(nn)),
        Term::BlankNode(bn) => Some(NamedOrBlankNode::BlankNode(bn)),
        Term::Literal(_) => None,
    }
}

/// The term that a subject is.
pub fn term_from_subject(s: NamedOrBlankNode) -> (r: Term)
    ensures
        r@ == term_of_subject(s@),
{
    match s {
        NamedOrBlankNode::NamedNode(x) => Term::NamedNode(x),
        NamedOrBlankNode::BlankNode(x) => Term::BlankNode(x),
    }
}

impl NamedOrBlankNode {
    /// A copy of the subject.
    pub fn duplicate(&self) -> (r: Self)
        ensures
            r@ == self@,
    {
        match self {
            NamedOrBlankNode::NamedNode(x) => NamedOrBlankNode::NamedNode(x.clone()),
            NamedOrBlankNode::BlankNode(x) => NamedOrBlankNode::BlankNode(x.clone()),
        }
    }
}

/// The text of a term in query results: `<iri>` for a named node, `_:id`
/// for a blank node, the lexical value for a literal.
pub open spec fn term_text(t: TermView) -> Seq<char> {
    match t {
        TermView::NamedNode(iri) => seq!['<'] + iri + seq!['>'],
        TermView::BlankNode(id) => seq!['_', ':'] + id,
        TermView::Literal(value, _, _) => value,
    }
}

/// The text of a term in query results.
pub fn term_to_string(term: &Term) -> (r: String)
    ensures
        r@ == term_text(term@),
{
    match term {
        Term::NamedNode(nn) => {
            let mut s = String::from_str("<");
            s.append(nn.as_str());
            s.append(">");
            proof {
                reveal_strlit("<");
                reveal_strlit(">");
            }
            s
        },
        Term::BlankNode(bn) => {
            let mut s = String::from_str("_:");
            s.append(bn.as_str());
            proof {
                reveal_strlit("_:");
            }
            s
        },
        Term::Literal(l) => l.value.clone(),
    }
}

/// An optional string, as text.
pub open spec fn opt_text(o: Option<String>) -> Option<Seq<char>> {
    match o {
        Some(t) => Some(t@),
        None => None,
    }
}

fn copy_opt(o: &Option<String>) -> (r: Option<String>)
    ensures
        opt_text(r) == opt_text(*o),
{
    match o {
        Some(t) => Some(t.clone()),
        None => None,
    }
}

fn same_opt(a: &Option<String>, b: &Option<String>) -> (r: bool)
    ensures
        r == (opt_text(*a) == opt_text(*b)),
{
    match a {
        Some(x) => match b {
            Some(y) => *x == *y,
            None => false,
        },
        None => b.is_none(),
    }
}

impl Term {
    /// A copy of the term.
    pub fn duplicate(&self) -> (r: Self)
        ensures
            r@ == self@,
    {
        match self {
            Term::NamedNode(x) => Term::NamedNode(x.clone()),
            Term::BlankNode(x) => Term::BlankNode(x.clone()),
            Term::Literal(l) => Term::Literal(
                Literal {
                    value: l.value.clone(),
                    datatype: l.datatype.clone(),
                    language: copy_opt(&l.language),
                },
            ),
        }
    }

    /// Whether two terms are the same term.
    pub fn same(&self, other: &Term) -> (r: bool)
        ensures
            r == (self@ == other@),
    {
        match self {
            Term::NamedNode(x) => match other {
                Term::NamedNode(y) => *x == *y,
                _ => false,
            },
            Term::BlankNode(x) => match other {
                Term::BlankNode(y) => *x == *y,
                _ => false,
            },
            Term::Literal(x) => match other {
                Term::Literal(y) => x.value == y.value && x.datatype == y.datatype && same_opt(
                    &x.language,
                    &y.language,
                ),
                _ => false,
            },
        }
    }
}

} // verus!
