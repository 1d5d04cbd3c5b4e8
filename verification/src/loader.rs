//! The translation of a JSON description into quads.
//!
//! The document is walked depth first from a root subject `<url>/ROOT`. At
//! an object, every entry but `id` gives the predicate `<url>/<key>`; an
//! object value becomes a new subject (`<url>/<id>` where it has a string
//! `id`, a fresh blank node otherwise) that is walked in turn; an array gives
//! one quad per item; any other value becomes a literal or, where it reads
//! `prefix:rest` with a known prefix, a named node. The entries of an object
//! are turned into quads from the last to the first, and the nested subjects
//! are then walked from the first to the last.
use vstd::prelude::*;
use oxigraph::model::{BlankNode, IriParseError, NamedNode};
use crate::error::{load_error_is, DatabaseLoadError, LoadFailure};
use crate::json::{entry_index, object_get, JsonValue};
use crate::rdf::{
    quads_view, term_from_subject, term_of_subject, Literal, NamedOrBlankNode, Quad, QuadView,
    SubjectView, Term, TermView,
};
use crate::string_map::StringMap;
use crate::text::char_index;

verus! {

/// The pattern of a value that names a node through a prefix: `prefix:rest`.
pub const IRI_PATTERN: &'static str = "^([a-zA-Z]+):(.*)";

/// The number of ASCII letters at the start of `s`.
pub open spec fn leading_letters(s: Seq<char>) -> nat
    decreases s.len(),
{
    if s.len() > 0 && (('a' <= s[0] && s[0] <= 'z') || ('A' <= s[0] && s[0] <= 'Z')) {
        1 + leading_letters(s.drop_first())
    } else {
        0
    }
}

/// What `^([a-zA-Z]+):(.*)` captures in a text: where the text starts with
/// one or more ASCII letters and then `:`, those letters, and what follows
/// the `:` up to the first line feed (`.` matches any character but `\n`).
pub open spec fn iri_parts(s: Seq<char>) -> Option<(Seq<char>, Seq<char>)> {
    let k = leading_letters(s) as int;
    if 0 < k < s.len() && s[k] == ':' {
        let rest = s.skip(k + 1);
        let end = match char_index(rest, '\n') {
            Some(i) => i,
            None => rest.len() as int,
        };
        Some((s.take(k), rest.take(end)))
    } else {
        None
    }
}

/// Compiles `pattern` with `regex::Regex::new` and matches it against
/// `haystack` with `Regex::captures`; gives the text of groups 1 and 2.
/// Claimed, for the pattern `^([a-zA-Z]+):(.*)` alone: the groups are those
/// of `iri_parts` (the match is anchored at the start; the letters can only
/// be followed by `:` where their run ends; `.*` takes all it can up to a
/// line feed).
#[verifier::external_body]
fn regex_captures_pair(pattern: &str, haystack: &str) -> (r: Option<(String, String)>)
    requires
        pattern@ == IRI_PATTERN@,
    ensures
        captures_view(r) == iri_parts(haystack@),
{
    match regex::Regex::new(pattern) {
        Ok(re) => match re.captures(haystack) {
            Some(caps) => match (caps.get(1), caps.get(2)) {
                (Some(a), Some(b)) => Some((a.as_str().to_string(), b.as_str().to_string())),
                _ => None,
            },
            None => None,
        },
        Err(_) => None,
    }
}

/// Whether `oxigraph::model::NamedNode::new` accepts the text as an IRI.
pub uninterp spec fn iri_is_valid(iri: Seq<char>) -> bool;

/// `oxigraph::model::NamedNode::new`: validates an IRI. Claimed: it succeeds
/// exactly where `iri_is_valid` holds, and then keeps the text unchanged
/// (`Iri::parse` stores the string it was given).
#[verifier::external_body]
fn check_iri(iri: &str) -> (r: Result<String, IriParseError>)
    ensures
        r is Ok <==> iri_is_valid(iri@),
        r matches Ok(s) ==> s@ == iri@,
{
    match NamedNode::new(iri) {
        Ok(n) => Ok(n.into_string()),
        Err(e) => Err(e),
    }
}

/// A hexadecimal digit.
pub open spec fn hex_digit(d: nat) -> char {
    if d < 10 {
        (d + 48) as char
    } else {
        (d + 87) as char
    }
}

/// The lower-case hexadecimal text of `n`, without leading zeros.
pub open spec fn hex_text(n: nat) -> Seq<char>
    decreases n,
{
    if n < 16 {
        seq![hex_digit(n)]
    } else {
        hex_text(n / 16).push(hex_digit(n % 16))
    }
}

/// `oxigraph::model::BlankNode::new_from_unique_id(n)`, then `into_string`:
/// the identifier of the blank node with unique number `n`. Claimed: it is
/// the lower-case hexadecimal text of `n` (the source writes it with `{:x}`).
#[verifier::external_body]
pub(crate) fn blank_node_id(n: u128) -> (r: String)
    ensures
        r@ == hex_text(n as nat),
{
    BlankNode::new_from_unique_id(n).into_string()
}

/// The counter after one blank node is taken.
pub open spec fn next_blank(n: u128) -> u128 {
    if n == u128::MAX {
        0
    } else {
        (n + 1) as u128
    }
}

/// `base/id`.
pub open spec fn iri_join(base: Seq<char>, id: Seq<char>) -> Seq<char> {
    base + seq!['/'] + id
}

/// The named node for an IRI, or the failure to validate it.
pub open spec fn named_iri(iri: Seq<char>) -> Result<Seq<char>, LoadFailure> {
    if iri_is_valid(iri) {
        Ok(iri)
    } else {
        Err(LoadFailure::InvalidIri(iri))
    }
}

pub open spec fn xsd_string() -> Seq<char> {
    "http://www.w3.org/2001/XMLSchema#string"@
}

pub open spec fn xsd_decimal() -> Seq<char> {
    "http://www.w3.org/2001/XMLSchema#decimal"@
}

pub open spec fn xsd_integer() -> Seq<char> {
    "http://www.w3.org/2001/XMLSchema#integer"@
}

pub open spec fn xsd_boolean() -> Seq<char> {
    "http://www.w3.org/2001/XMLSchema#boolean"@
}

/// The term for a string value, given what the prefix pattern captured in it.
pub open spec fn string_term(
    prefixes: Map<Seq<char>, Seq<char>>,
    s: Seq<char>,
    captures: Option<(Seq<char>, Seq<char>)>,
) -> Result<TermView, LoadFailure> {
    match captures {
        Some((prefix, id)) => if prefixes.contains_key(prefix) {
            match named_iri(iri_join(prefixes[prefix], id)) {
                Ok(iri) => Ok(TermView::NamedNode(iri)),
                Err(f) => Err(f),
            }
        } else {
            Err(LoadFailure::PrefixNotFound(prefix))
        },
        None => Ok(TermView::Literal(s, xsd_string(), None)),
    }
}

/// The term for a value in object position.
pub open spec fn object_term(prefixes: Map<Seq<char>, Seq<char>>, v: JsonValue) -> Result<
    TermView,
    LoadFailure,
> {
    match v {
        JsonValue::String(s) => string_term(prefixes, s@, iri_parts(s@)),
        JsonValue::Number(n) => Ok(
            TermView::Literal(
                n.text@,
                if n.is_float {
                    xsd_decimal()
                } else {
                    xsd_integer()
                },
                None,
            ),
        ),
        JsonValue::Bool(b) => Ok(
            TermView::Literal(
                if b {
                    "true"@
                } else {
                    "false"@
                },
                xsd_boolean(),
                None,
            ),
        ),
        _ => Err(LoadFailure::Unparseable),
    }
}

/// The subject for a nested object: `<url>/<id>` for a string `id`, else a
/// fresh blank node; with the counter after it.
pub open spec fn nested_subject(url: Seq<char>, entries: Seq<(String, JsonValue)>, next: u128) -> Result<
    (SubjectView, u128),
    LoadFailure,
> {
    match entry_index(entries, "id"@) {
        Some(i) => match entries[i].1 {
            JsonValue::String(s) => match named_iri(iri_join(url, s@)) {
                Ok(iri) => Ok((SubjectView::NamedNode(iri), next)),
                Err(f) => Err(f),
            },
            _ => Err(LoadFailure::Unparseable),
        },
        None => Ok((SubjectView::BlankNode(hex_text(next as nat)), next_blank(next))),
    }
}

/// A quad of the default graph.
pub open spec fn quad(s: SubjectView, p: Seq<char>, o: TermView) -> QuadView {
    QuadView { subject: s, predicate: p, object: o }
}

/// The quads of one array item under predicate `pred`, the subject it opens
/// (for an object item), and the counter after it.
pub open spec fn item_level(
    prefixes: Map<Seq<char>, Seq<char>>,
    url: Seq<char>,
    subj: SubjectView,
    pred: Seq<char>,
    item: JsonValue,
    next: u128,
) -> Result<(Seq<QuadView>, Option<SubjectView>, u128), LoadFailure> {
    match item {
        JsonValue::Object(nested) => match nested_subject(url, nested@, next) {
            Ok((s, n1)) => Ok((seq![quad(subj, pred, term_of_subject(s))], Some(s), n1)),
            Err(f) => Err(f),
        },
        _ => match object_term(prefixes, item) {
            Ok(o) => Ok((seq![quad(subj, pred, o)], None, next)),
            Err(f) => Err(f),
        },
    }
}

/// A run of ASCII letters followed by a character that is not one counts
/// exactly its letters.
proof fn lemma_leading_letters_of(p: Seq<char>, tail: Seq<char>)
    requires
        forall|i: int| 0 <= i < p.len() ==> ('a' <= #[trigger] p[i] && p[i] <= 'z') || ('A' <= p[i] && p[i]
            <= 'Z'),
        tail.len() > 0,
        !(('a' <= tail[0] && tail[0] <= 'z') || ('A' <= tail[0] && tail[0] <= 'Z')),
    ensures
        leading_letters(p + tail) == p.len(),
    decreases p.len(),
{
    if p.len() == 0 {
        assert(p + tail =~= tail);
    } else {
        assert((p + tail).drop_first() =~= p.drop_first() + tail);
        assert((p + tail)[0] == p[0]);
        lemma_leading_letters_of(p.drop_first(), tail);
    }
}

/// Law: a string `prefix:rest`, where the prefix is one or more ASCII
/// letters that the prefix map knows and the rest holds no line feed, in
/// object position is the named node `<URI of the prefix>/<rest>` (where
/// that IRI is valid).
pub proof fn lemma_prefixed_string_is_named_node(
    prefixes: Map<Seq<char>, Seq<char>>,
    s: String,
    prefix: Seq<char>,
    rest: Seq<char>,
)
    requires
        s@ == prefix + seq![':'] + rest,
        prefix.len() > 0,
        forall|i: int| 0 <= i < prefix.len() ==> ('a' <= #[trigger] prefix[i] && prefix[i] <= 'z') || ('A'
            <= prefix[i] && prefix[i] <= 'Z'),
        forall|i: int| 0 <= i < rest.len() ==> #[trigger] rest[i] != '\n',
        prefixes.contains_key(prefix),
        iri_is_valid(prefixes[prefix] + seq!['/'] + rest),
    ensures
        object_term(prefixes, JsonValue::String(s)) == Ok::<TermView, LoadFailure>(
            TermView::NamedNode(prefixes[prefix] + seq!['/'] + rest),
        ),
{
    let tail = seq![':'] + rest;
    assert(s@ =~= prefix + tail);
    lemma_leading_letters_of(prefix, tail);
    let k = prefix.len() as int;
    assert(s@[k] == ':');
    assert(s@.take(k) =~= prefix);
    assert(s@.skip(k + 1) =~= rest);
    crate::text::lemma_char_index(rest, '\n');
    assert(rest.take(rest.len() as int) =~= rest);
    assert(iri_parts(s@) == Some((prefix, rest)));
}

/// Law: a string with no `:` in object position is a string literal of its
/// own text.
pub proof fn lemma_plain_string_is_literal(prefixes: Map<Seq<char>, Seq<char>>, s: String)
    requires
        forall|i: int| 0 <= i < s@.len() ==> #[trigger] s@[i] != ':',
    ensures
        object_term(prefixes, JsonValue::String(s)) == Ok::<TermView, LoadFailure>(
            TermView::Literal(s@, xsd_string(), None),
        ),
{
}

/// Law: an item of an array under a key that is not an object gives the
/// quad whose object is the term the item would give as the value of the
/// key itself (a prefixed string with a known prefix gives the named node
/// `<prefix URI>/<rest>`, a number or a boolean its typed literal), and
/// opens no subject.
pub proof fn lemma_scalar_item_as_value(
    prefixes: Map<Seq<char>, Seq<char>>,
    url: Seq<char>,
    subj: SubjectView,
    pred: Seq<char>,
    item: JsonValue,
    next: u128,
)
    requires
        !(item is Object),
    ensures
        match (item_level(prefixes, url, subj, pred, item, next), object_term(prefixes, item)) {
            (Ok((q, opened, n)), Ok(o)) => q == seq![quad(subj, pred, o)] && opened is None && n == next,
            (Err(f1), Err(f2)) => f1 == f2,
            _ => false,
        },
{
}

/// Law: under a key, an array that holds one value that is neither an
/// object nor an array gives the quads, and leaves the counter, that the
/// value gives as the value of the key itself.
pub proof fn lemma_single_item_array_as_value(
    prefixes: Map<Seq<char>, Seq<char>>,
    url: Seq<char>,
    subj: SubjectView,
    array_entry: (String, JsonValue),
    value_entry: (String, JsonValue),
    next: u128,
)
    requires
        array_entry.0@ == value_entry.0@,
        array_entry.1 matches JsonValue::Array(items) && items@ == seq![value_entry.1],
        !(value_entry.1 is Object),
        !(value_entry.1 is Array),
    ensures
        match (
            entry_level(prefixes, url, subj, array_entry, next),
            entry_level(prefixes, url, subj, value_entry, next),
        ) {
            (Ok((q1, _, n1)), Ok((q2, _, n2))) => q1 == q2 && n1 == n2,
            (Err(f1), Err(f2)) => f1 == f2,
            _ => false,
        },
{
    reveal_with_fuel(items_level, 2);
    let x = value_entry.1;
    match array_entry.1 {
        JsonValue::Array(items) => {
            assert(items@[0] == x);
            match object_term(prefixes, x) {
                Ok(o) => {
                    assert(seq![quad(subj, iri_join(url, array_entry.0@), o)] + seq![] =~= seq![
                        quad(subj, iri_join(url, array_entry.0@), o),
                    ]);
                },
                Err(_) => {},
            }
        },
        _ => {},
    }
}

/// The items `items[0..k]` under predicate `pred`, taken from the last to the
/// first: their quads, the subjects they open (indexed as the items), and the
/// counter after them.
pub open spec fn items_level(
    prefixes: Map<Seq<char>, Seq<char>>,
    url: Seq<char>,
    subj: SubjectView,
    pred: Seq<char>,
    items: Seq<JsonValue>,
    k: int,
    next: u128,
) -> Result<(Seq<QuadView>, Seq<Option<SubjectView>>, u128), LoadFailure>
    decreases k,
{
    if k <= 0 {
        Ok((seq![], seq![], next))
    } else {
        match item_level(prefixes, url, subj, pred, items[k - 1], next) {
            Ok((q, s, n1)) => match items_level(prefixes, url, subj, pred, items, k - 1, n1) {
                Ok((qs, ss, n2)) => Ok((q + qs, ss.push(s), n2)),
                Err(f) => Err(f),
            },
            Err(f) => Err(f),
        }
    }
}

/// The quads of one entry of an object with subject `subj`, the subjects
/// its value opens, and the counter after it.
pub open spec fn entry_level(
    prefixes: Map<Seq<char>, Seq<char>>,
    url: Seq<char>,
    subj: SubjectView,
    entry: (String, JsonValue),
    next: u128,
) -> Result<(Seq<QuadView>, Seq<Option<SubjectView>>, u128), LoadFailure> {
    if entry.0@ == "id"@ {
        Ok((seq![], seq![], next))
    } else {
        match named_iri(iri_join(url, entry.0@)) {
            Ok(pred) => match entry.1 {
                JsonValue::Object(nested) => match nested_subject(url, nested@, next) {
                    Ok((s, n1)) => Ok((seq![quad(subj, pred, term_of_subject(s))], seq![Some(s)], n1)),
                    Err(f) => Err(f),
                },
                JsonValue::Array(items) => items_level(
                    prefixes,
                    url,
                    subj,
                    pred,
                    items@,
                    items@.len() as int,
                    next,
                ),
                _ => match object_term(prefixes, entry.1) {
                    Ok(o) => Ok((seq![quad(subj, pred, o)], seq![], next)),
                    Err(f) => Err(f),
                },
            },
            Err(f) => Err(f),
        }
    }
}

/// The entries `entries[0..k]`, taken from the last to the first: their
/// quads, the subjects each opens (indexed as the entries), and the counter.
pub open spec fn object_level(
    prefixes: Map<Seq<char>, Seq<char>>,
    url: Seq<char>,
    subj: SubjectView,
    entries: Seq<(String, JsonValue)>,
    k: int,
    next: u128,
) -> Result<(Seq<QuadView>, Seq<Seq<Option<SubjectView>>>, u128), LoadFailure>
    decreases k,
{
    if k <= 0 {
        Ok((seq![], seq![], next))
    } else {
        match entry_level(prefixes, url, subj, entries[k - 1], next) {
            Ok((q, s, n1)) => match object_level(prefixes, url, subj, entries, k - 1, n1) {
                Ok((qs, ss, n2)) => Ok((q + qs, ss.push(s), n2)),
                Err(f) => Err(f),
            },
            Err(f) => Err(f),
        }
    }
}

/// The quads of the value `v` walked under subject `subj`, and the counter.
pub open spec fn frame_quads(
    prefixes: Map<Seq<char>, Seq<char>>,
    url: Seq<char>,
    subj: SubjectView,
    v: JsonValue,
    next: u128,
) -> Result<(Seq<QuadView>, u128), LoadFailure>
    decreases v, 3nat, 0nat,
{
    match v {
        JsonValue::Object(entries) => match object_level(
            prefixes,
            url,
            subj,
            entries@,
            entries@.len() as int,
            next,
        ) {
            Ok((q, subjects, n1)) => match children_quads(prefixes, url, v, 0, subjects, n1) {
                Ok((q2, n2)) => Ok((q + q2, n2)),
                Err(f) => Err(f),
            },
            Err(f) => Err(f),
        },
        JsonValue::Array(items) => array_quads(prefixes, url, subj, v, 0, next),
        _ => match named_iri(iri_join(url, "value"@)) {
            Ok(pred) => match object_term(prefixes, v) {
                Ok(o) => Ok((seq![quad(subj, pred, o)], next)),
                Err(f) => Err(f),
            },
            Err(f) => Err(f),
        },
    }
}

/// The items `items[j..]` of the array `v`, each walked under `subj`.
pub open spec fn array_quads(
    prefixes: Map<Seq<char>, Seq<char>>,
    url: Seq<char>,
    subj: SubjectView,
    v: JsonValue,
    j: int,
    next: u128,
) -> Result<(Seq<QuadView>, u128), LoadFailure>
    decreases v, 2nat, (match v {
        JsonValue::Array(items) => items@.len() - j,
        _ => 0,
    }),
{
    match v {
        JsonValue::Array(items) => if 0 <= j < items@.len() {
            match frame_quads(prefixes, url, subj, items@[j], next) {
                Ok((q1, n1)) => match array_quads(prefixes, url, subj, v, j + 1, n1) {
                    Ok((q2, n2)) => Ok((q1 + q2, n2)),
                    Err(f) => Err(f),
                },
                Err(f) => Err(f),
            }
        } else {
            Ok((seq![], next))
        },
        _ => Ok((seq![], next)),
    }
}

/// The nested subjects of the entries `entries[i..]` of the object `v`,
/// walked from the first to the last.
pub open spec fn children_quads(
    prefixes: Map<Seq<char>, Seq<char>>,
    url: Seq<char>,
    v: JsonValue,
    i: int,
    subjects: Seq<Seq<Option<SubjectView>>>,
    next: u128,
) -> Result<(Seq<QuadView>, u128), LoadFailure>
    decreases v, 2nat, (match v {
        JsonValue::Object(entries) => entries@.len() - i,
        _ => 0,
    }),
{
    match v {
        JsonValue::Object(entries) => if 0 <= i < entries@.len() && i < subjects.len() {
            match entry_children(prefixes, url, v, i, subjects[i], next) {
                Ok((q1, n1)) => match children_quads(prefixes, url, v, i + 1, subjects, n1) {
                    Ok((q2, n2)) => Ok((q1 + q2, n2)),
                    Err(f) => Err(f),
                },
                Err(f) => Err(f),
            }
        } else {
            Ok((seq![], next))
        },
        _ => Ok((seq![], next)),
    }
}

/// The nested subjects opened by entry `i` of the object `v`.
pub open spec fn entry_children(
    prefixes: Map<Seq<char>, Seq<char>>,
    url: Seq<char>,
    v: JsonValue,
    i: int,
    subjects: Seq<Option<SubjectView>>,
    next: u128,
) -> Result<(Seq<QuadView>, u128), LoadFailure>
    decreases v, 1nat, 0nat,
{
    match v {
        JsonValue::Object(entries) => if 0 <= i < entries@.len() {
            match entries@[i].1 {
                JsonValue::Object(_) => if subjects.len() > 0 && subjects[0] is Some {
                    frame_quads(prefixes, url, subjects[0]->0, entries@[i].1, next)
                } else {
                    Ok((seq![], next))
                },
                JsonValue::Array(_) => item_children(prefixes, url, v, i, 0, subjects, next),
                _ => Ok((seq![], next)),
            }
        } else {
            Ok((seq![], next))
        },
        _ => Ok((seq![], next)),
    }
}

/// The nested subjects opened by the items `[j..]` of the array in entry `i`
/// of the object `v`.
pub open spec fn item_children(
    prefixes: Map<Seq<char>, Seq<char>>,
    url: Seq<char>,
    v: JsonValue,
    i: int,
    j: int,
    subjects: Seq<Option<SubjectView>>,
    next: u128,
) -> Result<(Seq<QuadView>, u128), LoadFailure>
    decreases v, 0nat, (match v {
        JsonValue::Object(entries) => if 0 <= i < entries@.len() {
            match entries@[i].1 {
                JsonValue::Array(items) => items@.len() - j,
                _ => 0,
            }
        } else {
            0
        },
        _ => 0,
    }),
{
    match v {
        JsonValue::Object(entries) => if 0 <= i < entries@.len() {
            match entries@[i].1 {
                JsonValue::Array(items) => if 0 <= j < items@.len() {
                    let here = if j < subjects.len() && subjects[j] is Some
                        && items@[j] is Object {
                        frame_quads(prefixes, url, subjects[j]->0, items@[j], next)
                    } else {
                        Ok((seq![], next))
                    };
                    match here {
                        Ok((q1, n1)) => match item_children(
                            prefixes,
                            url,
                            v,
                            i,
                            j + 1,
                            subjects,
                            n1,
                        ) {
                            Ok((q2, n2)) => Ok((q1 + q2, n2)),
                            Err(f) => Err(f),
                        },
                        Err(f) => Err(f),
                    }
                } else {
                    Ok((seq![], next))
                },
                _ => Ok((seq![], next)),
            }
        } else {
            Ok((seq![], next))
        },
        _ => Ok((seq![], next)),
    }
}

/// The quads of a description loaded with default prefix `prefix_key`: the
/// document walked from the subject `<url>/ROOT`, where `url` is the URI of
/// the prefix; with the blank-node counter after them.
pub open spec fn description_quads(
    prefixes: Map<Seq<char>, Seq<char>>,
    prefix_key: Seq<char>,
    v: JsonValue,
    next: u128,
) -> Result<(Seq<QuadView>, u128), LoadFailure> {
    if !prefixes.contains_key(prefix_key) {
        Err(LoadFailure::PrefixNotFound(prefix_key))
    } else {
        let url = prefixes[prefix_key];
        match named_iri(iri_join(url, "ROOT"@)) {
            Ok(root) => frame_quads(prefixes, url, SubjectView::NamedNode(root), v, next),
            Err(f) => Err(f),
        }
    }
}

/// A step that gives a term ended as its description says.
pub open spec fn term_outcome(r: Result<Term, DatabaseLoadError>, s: Result<TermView, LoadFailure>) -> bool {
    match s {
        Ok(t) => r matches Ok(x) && x@ == t,
        Err(f) => r matches Err(e) && load_error_is(e, f),
    }
}

/// The captured texts, as text.
pub open spec fn captures_view(c: Option<(String, String)>) -> Option<(Seq<char>, Seq<char>)> {
    match c {
        Some((a, b)) => Some((a@, b@)),
        None => None,
    }
}

/// A subject, if any, as text.
pub open spec fn opt_subject_view(o: Option<NamedOrBlankNode>) -> Option<SubjectView> {
    match o {
        Some(s) => Some(s@),
        None => None,
    }
}

/// A list of optional subjects, as text.
pub open spec fn subjects_view(v: Seq<Option<NamedOrBlankNode>>) -> Seq<Option<SubjectView>> {
    v.map_values(|o: Option<NamedOrBlankNode>| opt_subject_view(o))
}

/// A table of optional subjects, as text.
pub open spec fn subject_table_view(v: Seq<Vec<Option<NamedOrBlankNode>>>) -> Seq<
    Seq<Option<SubjectView>>,
> {
    v.map_values(|x: Vec<Option<NamedOrBlankNode>>| subjects_view(x@))
}

/// The IRI `base/id`.
fn join_iri(base: &str, id: &str) -> (r: String)
    ensures
        r@ == iri_join(base@, id@),
{
    let mut s = String::from_str(base);
    s.append("/");
    s.append(id);
    proof {
        reveal_strlit("/");
    }
    s
}

/// The IRI, validated.
pub(crate) fn checked_iri(iri: String) -> (r: Result<String, DatabaseLoadError>)
    ensures
        match named_iri(iri@) {
            Ok(x) => r matches Ok(y) && y@ == x,
            Err(f) => r matches Err(e) && load_error_is(e, f),
        },
{
    match check_iri(iri.as_str()) {
        Ok(s) => Ok(s),
        Err(e) => Err(DatabaseLoadError::IRIParseError(e)),
    }
}

/// The term for a string value, given what the prefix pattern captured in it.
pub fn string_term_with(prefixes: &StringMap, s: &String, captures: Option<(String, String)>) -> (r:
    Result<Term, DatabaseLoadError>)
    ensures
        term_outcome(r, string_term(prefixes@, s@, captures_view(captures))),
{
    match captures {
        Some((prefix, id)) => match prefixes.get(prefix.as_str()) {
            Some(base) => {
                let iri = join_iri(base.as_str(), id.as_str());
                match checked_iri(iri) {
                    Ok(iri) => Ok(Term::NamedNode(iri)),
                    Err(e) => Err(e),
                }
            },
            None => Err(DatabaseLoadError::PrefixNotFoundError(prefix)),
        },
        None => Ok(
            Term::Literal(
                Literal {
                    value: s.clone(),
                    datatype: String::from_str("http://www.w3.org/2001/XMLSchema#string"),
                    language: None,
                },
            ),
        ),
    }
}

/// The term for a value in object position: a named node for `prefix:rest`
/// with a known prefix, a typed literal for another string, a number or a
/// boolean; `null`, arrays and objects cannot be one.
pub fn rdf_object_from_value(prefixes: &StringMap, o: &JsonValue) -> (r: Result<Term, DatabaseLoadError>)
    ensures
        term_outcome(r, object_term(prefixes@, *o)),
{
    match o {
        JsonValue::String(s) => {
            let captures = regex_captures_pair(IRI_PATTERN, s.as_str());
            string_term_with(prefixes, s, captures)
        },
        JsonValue::Number(n) => {
            let datatype = if n.is_float {
                String::from_str("http://www.w3.org/2001/XMLSchema#decimal")
            } else {
                String::from_str("http://www.w3.org/2001/XMLSchema#integer")
            };
            Ok(Term::Literal(Literal { value: n.text.clone(), datatype, language: None }))
        },
        JsonValue::Bool(b) => {
            let value = if *b {
                String::from_str("true")
            } else {
                String::from_str("false")
            };
            Ok(
                Term::Literal(
                    Literal {
                        value,
                        datatype: String::from_str("http://www.w3.org/2001/XMLSchema#boolean"),
                        language: None,
                    },
                ),
            )
        },
        _ => Err(DatabaseLoadError::UnparseableObjectError),
    }
}

/// The subject for a nested object, taking a blank node from the counter
/// where it has no `id`.
fn nested_subject_exec(url: &String, entries: &Vec<(String, JsonValue)>, next: &mut u128) -> (r:
    Result<NamedOrBlankNode, DatabaseLoadError>)
    ensures
        match nested_subject(url@, entries@, *old(next)) {
            Ok((s, n)) => r matches Ok(x) && x@ == s && *final(next) == n,
            Err(f) => r matches Err(e) && load_error_is(e, f),
        },
{
    match object_get(entries, "id") {
        Some(id) => match id {
            JsonValue::String(s) => {
                let iri = join_iri(url.as_str(), s.as_str());
                match checked_iri(iri) {
                    Ok(iri) => Ok(NamedOrBlankNode::NamedNode(iri)),
                    Err(e) => Err(e),
                }
            },
            _ => Err(DatabaseLoadError::UnparseableObjectError),
        },
        None => {
            let id = blank_node_id(*next);
            *next = if *next == u128::MAX {
                0
            } else {
                *next + 1
            };
            Ok(NamedOrBlankNode::BlankNode(id))
        },
    }
}

/// Appends a quad.
pub(crate) fn push_quad(quads: &mut Vec<Quad>, subj: &NamedOrBlankNode, pred: &String, object: Term)
    ensures
        quads_view(final(quads)@) == quads_view(old(quads)@) + seq![
            crate::loader::quad(subj@, pred@, object@),
        ],
{
    quads.push(Quad { subject: subj.duplicate(), predicate: pred.clone(), object });
    proof {
        assert(quads_view(quads@) =~= quads_view(old(quads)@) + seq![
            crate::loader::quad(subj@, pred@, object@),
        ]);
    }
}

/// The quads of one array item; the subject it opens.
fn item_level_exec(
    prefixes: &StringMap,
    url: &String,
    subj: &NamedOrBlankNode,
    pred: &String,
    item: &JsonValue,
    quads: &mut Vec<Quad>,
    next: &mut u128,
) -> (r: Result<Option<NamedOrBlankNode>, DatabaseLoadError>)
    ensures
        match item_level(prefixes@, url@, subj@, pred@, *item, *old(next)) {
            Ok((q, s, n)) => r matches Ok(x) && opt_subject_view(x) == s && quads_view(final(quads)@)
                == quads_view(old(quads)@) + q && *final(next) == n,
            Err(f) => r matches Err(e) && load_error_is(e, f),
        },
{
    match item {
        JsonValue::Object(nested) => {
            let s = nested_subject_exec(url, nested, next)?;
            let t = term_from_subject(s.duplicate());
            push_quad(quads, subj, pred, t);
            Ok(Some(s))
        },
        _ => {
            let o = rdf_object_from_value(prefixes, item)?;
            push_quad(quads, subj, pred, o);
            Ok(None)
        },
    }
}

/// A list of `n` empty entries.
pub(crate) fn nones(n: usize) -> (r: Vec<Option<NamedOrBlankNode>>)
    ensures
        r@.len() == n,
{
    let mut r: Vec<Option<NamedOrBlankNode>> = Vec::new();
    while r.len() < n
        invariant
            r@.len() <= n,
        decreases n - r@.len(),
    {
        r.push(None);
    }
    r
}

/// The quads of the items of an array, from the last to the first; the
/// subjects they open.
fn items_level_exec(
    prefixes: &StringMap,
    url: &String,
    subj: &NamedOrBlankNode,
    pred: &String,
    items: &Vec<JsonValue>,
    quads: &mut Vec<Quad>,
    next: &mut u128,
) -> (r: Result<Vec<Option<NamedOrBlankNode>>, DatabaseLoadError>)
    ensures
        match items_level(prefixes@, url@, subj@, pred@, items@, items@.len() as int, *old(next)) {
            Ok((q, s, n)) => r matches Ok(x) && subjects_view(x@) == s && quads_view(final(quads)@)
                == quads_view(old(quads)@) + q && *final(next) == n,
            Err(f) => r matches Err(e) && load_error_is(e, f),
        },
{
    let len = items.len();
    let mut subs = nones(len);
    let mut k = len;
    let ghost total = items_level(prefixes@, url@, subj@, pred@, items@, len as int, *next);
    let ghost start = quads_view(quads@);
    proof {
        assert(subjects_view(subs@).subrange(len as int, len as int) =~= Seq::<
            Option<SubjectView>,
        >::empty());
        assert(quads_view(quads@) =~= start + Seq::<QuadView>::empty());
    }
    while k > 0
        invariant
            len == items@.len(),
            subs@.len() == len,
            k <= len,
            total == items_level(prefixes@, url@, subj@, pred@, items@, len as int, *old(next)),
            start == quads_view(old(quads)@),
            total == match items_level(prefixes@, url@, subj@, pred@, items@, k as int, *next) {
                Ok((qs, ss, n)) => Ok(
                    (
                        quads_view(quads@).subrange(start.len() as int, quads_view(quads@).len() as int)
                            + qs,
                        ss + subjects_view(subs@).subrange(k as int, len as int),
                        n,
                    ),
                ),
                Err(f) => Err(f),
            },
            quads_view(quads@).len() >= start.len(),
            quads_view(quads@).subrange(0, start.len() as int) == start,
        decreases k,
    {
        let ghost before_q = quads_view(quads@);
        let ghost before_s = subjects_view(subs@);
        let ghost cur = *next;
        let s = item_level_exec(prefixes, url, subj, pred, &items[k - 1], quads, next)?;
        proof {
            let (q, so, n1) = item_level(prefixes@, url@, subj@, pred@, items@[k - 1], cur)->Ok_0;
            assert(quads_view(quads@) == before_q + q);
            assert(quads_view(quads@).subrange(start.len() as int, quads_view(quads@).len() as int)
                =~= before_q.subrange(start.len() as int, before_q.len() as int) + q);
            assert(quads_view(quads@).subrange(0, start.len() as int) =~= before_q.subrange(
                0,
                start.len() as int,
            ));
        }
        subs.set(k - 1, s);
        proof {
            let (q, so, n1) = item_level(prefixes@, url@, subj@, pred@, items@[k - 1], cur)->Ok_0;
            assert(subjects_view(subs@).subrange(k - 1, len as int) =~= seq![so]
                + before_s.subrange(k as int, len as int));
            match items_level(prefixes@, url@, subj@, pred@, items@, k - 1, n1) {
                Ok((qs, ss, n2)) => {
                    let pq = before_q.subrange(start.len() as int, before_q.len() as int);
                    assert(pq + (q + qs) =~= (pq + q) + qs);
                    assert(ss.push(so) + before_s.subrange(k as int, len as int) =~= ss + (seq![so]
                        + before_s.subrange(k as int, len as int)));
                },
                Err(f) => {},
            }
        }
        k = k - 1;
    }
    proof {
        assert(subjects_view(subs@).subrange(0, len as int) =~= subjects_view(subs@));
        assert(quads_view(quads@) =~= start + quads_view(quads@).subrange(
            start.len() as int,
            quads_view(quads@).len() as int,
        ));
        assert(Seq::<Option<SubjectView>>::empty() + subjects_view(subs@) =~= subjects_view(subs@));
        assert(quads_view(quads@).subrange(start.len() as int, quads_view(quads@).len() as int)
            + Seq::<QuadView>::empty() =~= quads_view(quads@).subrange(
            start.len() as int,
            quads_view(quads@).len() as int,
        ));
    }
    Ok(subs)
}

/// The quads of one entry of an object; the subjects its value opens.
fn entry_level_exec(
    prefixes: &StringMap,
    url: &String,
    subj: &NamedOrBlankNode,
    entry: &(String, JsonValue),
    quads: &mut Vec<Quad>,
    next: &mut u128,
) -> (r: Result<Vec<Option<NamedOrBlankNode>>, DatabaseLoadError>)
    ensures
        match entry_level(prefixes@, url@, subj@, *entry, *old(next)) {
            Ok((q, s, n)) => r matches Ok(x) && subjects_view(x@) == s && quads_view(final(quads)@)
                == quads_view(old(quads)@) + q && *final(next) == n,
            Err(f) => r matches Err(e) && load_error_is(e, f),
        },
{
    let (key, val) = entry;
    let id_key = String::from_str("id");
    if *key == id_key {
        proof {
            assert(quads_view(quads@) =~= quads_view(quads@) + Seq::<QuadView>::empty());
            assert(subjects_view(Seq::<Option<NamedOrBlankNode>>::empty()) =~= Seq::<
                Option<SubjectView>,
            >::empty());
        }
        return Ok(Vec::new());
    }
    let pred = checked_iri(join_iri(url.as_str(), key.as_str()))?;
    match val {
        JsonValue::Object(nested) => {
            let s = nested_subject_exec(url, nested, next)?;
            let t = term_from_subject(s.duplicate());
            push_quad(quads, subj, &pred, t);
            let mut subs: Vec<Option<NamedOrBlankNode>> = Vec::new();
            subs.push(Some(s));
            proof {
                assert(subjects_view(subs@) =~= seq![opt_subject_view(subs@[0])]);
            }
            Ok(subs)
        },
        JsonValue::Array(items) => items_level_exec(prefixes, url, subj, &pred, items, quads, next),
        _ => {
            let o = rdf_object_from_value(prefixes, val)?;
            push_quad(quads, subj, &pred, o);
            proof {
                assert(subjects_view(Seq::<Option<NamedOrBlankNode>>::empty()) =~= Seq::<
                    Option<SubjectView>,
                >::empty());
            }
            Ok(Vec::new())
        },
    }
}

/// A list of `n` empty lists.
fn empty_lists(n: usize) -> (r: Vec<Vec<Option<NamedOrBlankNode>>>)
    ensures
        r@.len() == n,
{
    let mut r: Vec<Vec<Option<NamedOrBlankNode>>> = Vec::new();
    while r.len() < n
        invariant
            r@.len() <= n,
        decreases n - r@.len(),
    {
        r.push(Vec::new());
    }
    r
}

/// The quads of the entries of an object, from the last to the first; the
/// subjects each entry opens.
fn object_level_exec(
    prefixes: &StringMap,
    url: &String,
    subj: &NamedOrBlankNode,
    entries: &Vec<(String, JsonValue)>,
    quads: &mut Vec<Quad>,
    next: &mut u128,
) -> (r: Result<Vec<Vec<Option<NamedOrBlankNode>>>, DatabaseLoadError>)
    ensures
        match object_level(prefixes@, url@, subj@, entries@, entries@.len() as int, *old(next)) {
            Ok((q, s, n)) => r matches Ok(x) && subject_table_view(x@) == s && x@.len()
                == entries@.len() && quads_view(final(quads)@) == quads_view(old(quads)@) + q
                && *final(next) == n,
            Err(f) => r matches Err(e) && load_error_is(e, f),
        },
{
    let len = entries.len();
    let mut subs = empty_lists(len);
    let mut k = len;
    let ghost total = object_level(prefixes@, url@, subj@, entries@, len as int, *next);
    let ghost start = quads_view(quads@);
    proof {
        assert(subject_table_view(subs@).subrange(len as int, len as int) =~= Seq::<
            Seq<Option<SubjectView>>,
        >::empty());
        assert(quads_view(quads@) =~= start + Seq::<QuadView>::empty());
    }
    while k > 0
        invariant
            len == entries@.len(),
            subs@.len() == len,
            k <= len,
            total == object_level(prefixes@, url@, subj@, entries@, len as int, *old(next)),
            start == quads_view(old(quads)@),
            total == match object_level(prefixes@, url@, subj@, entries@, k as int, *next) {
                Ok((qs, ss, n)) => Ok(
                    (
                        quads_view(quads@).subrange(start.len() as int, quads_view(quads@).len() as int)
                            + qs,
                        ss + subject_table_view(subs@).subrange(k as int, len as int),
                        n,
                    ),
                ),
                Err(f) => Err(f),
            },
            quads_view(quads@).len() >= start.len(),
            quads_view(quads@).subrange(0, start.len() as int) == start,
        decreases k,
    {
        let ghost before_q = quads_view(quads@);
        let ghost before_s = subject_table_view(subs@);
        let ghost cur = *next;
        let s = entry_level_exec(prefixes, url, subj, &entries[k - 1], quads, next)?;
        proof {
            let (q, so, n1) = entry_level(prefixes@, url@, subj@, entries@[k - 1], cur)->Ok_0;
            assert(quads_view(quads@).subrange(start.len() as int, quads_view(quads@).len() as int)
                =~= before_q.subrange(start.len() as int, before_q.len() as int) + q);
            assert(quads_view(quads@).subrange(0, start.len() as int) =~= before_q.subrange(
                0,
                start.len() as int,
            ));
        }
        subs.set(k - 1, s);
        proof {
            let (q, so, n1) = entry_level(prefixes@, url@, subj@, entries@[k - 1], cur)->Ok_0;
            assert(subject_table_view(subs@).subrange(k - 1, len as int) =~= seq![so]
                + before_s.subrange(k as int, len as int));
            match object_level(prefixes@, url@, subj@, entries@, k - 1, n1) {
                Ok((qs, ss, n2)) => {
                    let pq = before_q.subrange(start.len() as int, before_q.len() as int);
                    assert(pq + (q + qs) =~= (pq + q) + qs);
                    assert(ss.push(so) + before_s.subrange(k as int, len as int) =~= ss + (seq![so]
                        + before_s.subrange(k as int, len as int)));
                },
                Err(f) => {},
            }
        }
        k = k - 1;
    }
    proof {
        assert(subject_table_view(subs@).subrange(0, len as int) =~= subject_table_view(subs@));
        assert(quads_view(quads@) =~= start + quads_view(quads@).subrange(
            start.len() as int,
            quads_view(quads@).len() as int,
        ));
        assert(Seq::<Seq<Option<SubjectView>>>::empty() + subject_table_view(subs@)
            =~= subject_table_view(subs@));
        assert(quads_view(quads@).subrange(start.len() as int, quads_view(quads@).len() as int)
            + Seq::<QuadView>::empty() =~= quads_view(quads@).subrange(
            start.len() as int,
            quads_view(quads@).len() as int,
        ));
    }
    Ok(subs)
}

/// The outcome of a walk after quads `pq` were already produced.
pub open spec fn after(pq: Seq<QuadView>, r: Result<(Seq<QuadView>, u128), LoadFailure>) -> Result<
    (Seq<QuadView>, u128),
    LoadFailure,
> {
    match r {
        Ok((q, n)) => Ok((pq + q, n)),
        Err(f) => Err(f),
    }
}

/// The quads appended to a list since it had `start.len()` quads.
pub open spec fn appended(quads: Seq<Quad>, start: Seq<QuadView>) -> Seq<QuadView> {
    quads_view(quads).subrange(start.len() as int, quads_view(quads).len() as int)
}

/// The list of quads still begins with `start`.
pub open spec fn extends(quads: Seq<Quad>, start: Seq<QuadView>) -> bool {
    quads_view(quads).len() >= start.len() && quads_view(quads).subrange(0, start.len() as int)
        == start
}

pub(crate) proof fn lemma_extend(before: Seq<Quad>, now: Seq<Quad>, start: Seq<QuadView>, q: Seq<QuadView>)
    requires
        extends(before, start),
        quads_view(now) == quads_view(before) + q,
    ensures
        extends(now, start),
        appended(now, start) == appended(before, start) + q,
{
    assert(quads_view(now).subrange(0, start.len() as int) =~= quads_view(before).subrange(
        0,
        start.len() as int,
    ));
    assert(appended(now, start) =~= appended(before, start) + q);
}

pub(crate) proof fn lemma_extends_start(quads: Seq<Quad>)
    ensures
        extends(quads, quads_view(quads)),
        appended(quads, quads_view(quads)) == Seq::<QuadView>::empty(),
{
    assert(quads_view(quads).subrange(0, quads_view(quads).len() as int) =~= quads_view(quads));
    assert(appended(quads, quads_view(quads)) =~= Seq::<QuadView>::empty());
}

pub(crate) proof fn lemma_appended_whole(quads: Seq<Quad>, start: Seq<QuadView>)
    requires
        extends(quads, start),
    ensures
        quads_view(quads) == start + appended(quads, start),
{
    assert(quads_view(quads) =~= start + appended(quads, start));
}

/// A walk that appends quads ended as its description says.
pub open spec fn walk_outcome(
    r: Result<(), DatabaseLoadError>,
    s: Result<(Seq<QuadView>, u128), LoadFailure>,
    old_quads: Seq<Quad>,
    new_quads: Seq<Quad>,
    new_next: u128,
) -> bool {
    match s {
        Ok((q, n)) => r is Ok && quads_view(new_quads) == quads_view(old_quads) + q && new_next == n,
        Err(f) => r matches Err(e) && load_error_is(e, f),
    }
}

/// Walks the value `v` under subject `subj`, appending its quads.
fn frame_exec(
    prefixes: &StringMap,
    url: &String,
    subj: &NamedOrBlankNode,
    v: &JsonValue,
    quads: &mut Vec<Quad>,
    next: &mut u128,
) -> (r: Result<(), DatabaseLoadError>)
    ensures
        walk_outcome(
            r,
            frame_quads(prefixes@, url@, subj@, *v, *old(next)),
            old(quads)@,
            final(quads)@,
            *final(next),
        ),
    decreases v, 3nat,
{
    let ghost start = quads_view(quads@);
    match v {
        JsonValue::Object(entries) => {
            let ghost n0 = *next;
            let subs = object_level_exec(prefixes, url, subj, entries, quads, next)?;
            let ghost mid = quads@;
            children_exec(prefixes, url, v, entries, &subs, quads, next)?;
            proof {
                let (q1, _, n1) = object_level(
                    prefixes@,
                    url@,
                    subj@,
                    entries@,
                    entries@.len() as int,
                    n0,
                )->Ok_0;
                let (q2, n2) = children_quads(
                    prefixes@,
                    url@,
                    *v,
                    0,
                    subject_table_view(subs@),
                    n1,
                )->Ok_0;
                assert(quads_view(quads@) =~= start + (q1 + q2));
            }
            Ok(())
        },
        JsonValue::Array(items) => {
            let len = items.len();
            let mut j: usize = 0;
            proof {
                lemma_extends_start(quads@);
            }
            while j < len
                invariant
                    len == items@.len(),
                    j <= len,
                    start == quads_view(old(quads)@),
                    extends(quads@, start),
                    *v == JsonValue::Array(*items),
                    frame_quads(prefixes@, url@, subj@, *v, *old(next)) == after(
                        appended(quads@, start),
                        array_quads(prefixes@, url@, subj@, *v, j as int, *next),
                    ),
                decreases len - j,
            {
                let ghost before = quads@;
                let ghost cur = *next;
                frame_exec(prefixes, url, subj, &items[j], quads, next)?;
                proof {
                    let (q1, n1) = frame_quads(prefixes@, url@, subj@, items@[j as int], cur)->Ok_0;
                    lemma_extend(before, quads@, start, q1);
                    match array_quads(prefixes@, url@, subj@, *v, j + 1, n1) {
                        Ok((q2, n2)) => {
                            assert(appended(before, start) + (q1 + q2) =~= (appended(before, start)
                                + q1) + q2);
                        },
                        Err(f) => {},
                    }
                }
                j = j + 1;
            }
            proof {
                lemma_appended_whole(quads@, start);
                assert(appended(quads@, start) + Seq::<QuadView>::empty() =~= appended(
                    quads@,
                    start,
                ));
            }
            Ok(())
        },
        _ => {
            let pred = checked_iri(join_iri(url.as_str(), "value"))?;
            let o = rdf_object_from_value(prefixes, v)?;
            push_quad(quads, subj, &pred, o);
            Ok(())
        },
    }
}

/// Walks the nested subjects of all entries of the object `v`.
fn children_exec(
    prefixes: &StringMap,
    url: &String,
    v: &JsonValue,
    entries: &Vec<(String, JsonValue)>,
    subs: &Vec<Vec<Option<NamedOrBlankNode>>>,
    quads: &mut Vec<Quad>,
    next: &mut u128,
) -> (r: Result<(), DatabaseLoadError>)
    requires
        *v == JsonValue::Object(*entries),
        subs@.len() == entries@.len(),
    ensures
        walk_outcome(
            r,
            children_quads(prefixes@, url@, *v, 0, subject_table_view(subs@), *old(next)),
            old(quads)@,
            final(quads)@,
            *final(next),
        ),
    decreases v, 2nat,
{
    let ghost start = quads_view(quads@);
    let ghost table = subject_table_view(subs@);
    let len = entries.len();
    let mut i: usize = 0;
    proof {
        lemma_extends_start(quads@);
    }
    while i < len
        invariant
            len == entries@.len(),
            subs@.len() == len,
            table == subject_table_view(subs@),
            i <= len,
            *v == JsonValue::Object(*entries),
            start == quads_view(old(quads)@),
            extends(quads@, start),
            children_quads(prefixes@, url@, *v, 0, table, *old(next)) == after(
                appended(quads@, start),
                children_quads(prefixes@, url@, *v, i as int, table, *next),
            ),
        decreases len - i,
    {
        let ghost before = quads@;
        let ghost cur = *next;
        entry_children_exec(prefixes, url, v, entries, i, &subs[i], quads, next)?;
        proof {
            let (q1, n1) = entry_children(prefixes@, url@, *v, i as int, table[i as int], cur)->Ok_0;
            lemma_extend(before, quads@, start, q1);
            match children_quads(prefixes@, url@, *v, i + 1, table, n1) {
                Ok((q2, n2)) => {
                    assert(appended(before, start) + (q1 + q2) =~= (appended(before, start) + q1)
                        + q2);
                },
                Err(f) => {},
            }
        }
        i = i + 1;
    }
    proof {
        lemma_appended_whole(quads@, start);
        assert(appended(quads@, start) + Seq::<QuadView>::empty() =~= appended(quads@, start));
    }
    Ok(())
}

/// Walks the nested subjects that entry `i` of the object `v` opened.
fn entry_children_exec(
    prefixes: &StringMap,
    url: &String,
    v: &JsonValue,
    entries: &Vec<(String, JsonValue)>,
    i: usize,
    subs: &Vec<Option<NamedOrBlankNode>>,
    quads: &mut Vec<Quad>,
    next: &mut u128,
) -> (r: Result<(), DatabaseLoadError>)
    requires
        *v == JsonValue::Object(*entries),
        i < entries@.len(),
    ensures
        walk_outcome(
            r,
            entry_children(prefixes@, url@, *v, i as int, subjects_view(subs@), *old(next)),
            old(quads)@,
            final(quads)@,
            *final(next),
        ),
    decreases v, 1nat,
{
    let ghost sv = subjects_view(subs@);
    let val = &entries[i].1;
    match val {
        JsonValue::Object(_) => {
            if subs.len() > 0 {
                match &subs[0] {
                    Some(s) => {
                        return frame_exec(prefixes, url, s, val, quads, next);
                    },
                    None => {},
                }
            }
            proof {
                assert(quads_view(quads@) =~= quads_view(quads@) + Seq::<QuadView>::empty());
            }
            Ok(())
        },
        JsonValue::Array(items) => {
            let ghost start = quads_view(quads@);
            let m = items.len();
            let mut j: usize = 0;
            proof {
                lemma_extends_start(quads@);
                match item_children(prefixes@, url@, *v, i as int, 0, sv, *next) {
                    Ok((q, n)) => {
                        assert(Seq::<QuadView>::empty() + q =~= q);
                    },
                    Err(f) => {},
                }
            }
            while j < m
                invariant
                    m == items@.len(),
                    *v == JsonValue::Object(*entries),
                    i < entries@.len(),
                    entries@[i as int].1 == JsonValue::Array(*items),
                    j <= m,
                    sv == subjects_view(subs@),
                    start == quads_view(old(quads)@),
                    extends(quads@, start),
                    entry_children(prefixes@, url@, *v, i as int, sv, *old(next)) == after(
                        appended(quads@, start),
                        item_children(prefixes@, url@, *v, i as int, j as int, sv, *next),
                    ),
                decreases m - j,
            {
                let ghost before = quads@;
                let ghost cur = *next;
                let mut ran = false;
                if j < subs.len() {
                    match &subs[j] {
                        Some(s) => {
                            match &items[j] {
                                JsonValue::Object(_) => {
                                    frame_exec(prefixes, url, s, &items[j], quads, next)?;
                                    ran = true;
                                    proof {
                                        let (q1, n1) = frame_quads(
                                            prefixes@,
                                            url@,
                                            s@,
                                            items@[j as int],
                                            cur,
                                        )->Ok_0;
                                        lemma_extend(before, quads@, start, q1);
                                        match item_children(
                                            prefixes@,
                                            url@,
                                            *v,
                                            i as int,
                                            j + 1,
                                            sv,
                                            n1,
                                        ) {
                                            Ok((q2, n2)) => {
                                                assert(appended(before, start) + (q1 + q2)
                                                    =~= (appended(before, start) + q1) + q2);
                                            },
                                            Err(f) => {},
                                        }
                                    }
                                },
                                _ => {},
                            }
                        },
                        None => {},
                    }
                }
                proof {
                    if !ran {
                        match item_children(prefixes@, url@, *v, i as int, j + 1, sv, cur) {
                            Ok((q2, n2)) => {
                                assert(Seq::<QuadView>::empty() + q2 =~= q2);
                            },
                            Err(f) => {},
                        }
                    }
                }
                j = j + 1;
            }
            proof {
                lemma_appended_whole(quads@, start);
                assert(appended(quads@, start) + Seq::<QuadView>::empty() =~= appended(
                    quads@,
                    start,
                ));
            }
            Ok(())
        },
        _ => {
            proof {
                assert(quads_view(quads@) =~= quads_view(quads@) + Seq::<QuadView>::empty());
            }
            Ok(())
        },
    }
}

/// The quads of a description loaded with default prefix `prefix_key`,
/// blank nodes numbered from `next` on.
pub fn file_quads(prefixes: &StringMap, value: &JsonValue, prefix_key: &str, next: &mut u128) -> (r:
    Result<Vec<Quad>, DatabaseLoadError>)
    ensures
        match description_quads(prefixes@, prefix_key@, *value, *old(next)) {
            Ok((q, n)) => r matches Ok(v) && quads_view(v@) == q && *final(next) == n,
            Err(f) => r matches Err(e) && load_error_is(e, f),
        },
{
    let url = match prefixes.get(prefix_key) {
        Some(u) => u.clone(),
        None => {
            return Err(DatabaseLoadError::PrefixNotFoundError(String::from_str(prefix_key)));
        },
    };
    let root = checked_iri(join_iri(url.as_str(), "ROOT"))?;
    let subject = NamedOrBlankNode::NamedNode(root);
    let mut quads: Vec<Quad> = Vec::new();
    frame_exec(prefixes, &url, &subject, value, &mut quads, next)?;
    proof {
        assert(quads_view(Seq::<Quad>::empty()) =~= Seq::<QuadView>::empty());
        let (q, n) = description_quads(prefixes@, prefix_key@, *value, *old(next))->Ok_0;
        assert(quads_view(quads@) =~= q);
    }
    Ok(quads)
}

} // verus!
