//! Blank nodes of loaded descriptions are fresh: each load numbers its blank
//! nodes from the database's counter on, so two loads never share one.
use vstd::prelude::*;
use crate::json::JsonValue;
use crate::loader::{
    array_quads, children_quads, description_quads, entry_children, entry_level, frame_quads,
    hex_digit, hex_text, item_children, item_level, items_level, named_iri, nested_subject,
    next_blank, object_level, object_term, quad, iri_join,
};
use crate::rdf::{QuadView, SubjectView, TermView};
use crate::error::LoadFailure;
use crate::source_code::{
    code_child_level, code_children, code_frame, code_iri, code_level, source_code_quads, SyntaxNode,
};

verus! {

/// The value of a digit of lower-case hexadecimal.
pub open spec fn digit_value(c: char) -> int {
    if '0' <= c && c <= '9' {
        c as int - 48
    } else {
        c as int - 87
    }
}

/// The number that a text of lower-case hexadecimal digits writes.
pub open spec fn hex_value(s: Seq<char>) -> int
    decreases s.len(),
{
    if s.len() == 0 {
        0
    } else {
        hex_value(s.drop_last()) * 16 + digit_value(s.last())
    }
}

/// Reading back the hexadecimal text of a number gives the number.
pub proof fn lemma_hex_round_trip(n: nat)
    ensures
        hex_value(hex_text(n)) == n,
    decreases n,
{
    if n < 16 {
        let t = hex_text(n);
        assert(t == seq![hex_digit(n)]);
        assert(t.drop_last() =~= Seq::<char>::empty());
        assert(hex_value(t.drop_last()) == 0);
        assert(t.last() == hex_digit(n));
        assert(digit_value(hex_digit(n)) == n);
        assert(hex_value(t) == n);
    } else {
        lemma_hex_round_trip(n / 16);
        let t = hex_text(n);
        let d = hex_digit(n % 16);
        assert(t == hex_text(n / 16).push(d));
        assert(t.drop_last() =~= hex_text(n / 16));
        assert(t.last() == d);
        assert(digit_value(d) == n % 16);
        assert(n == (n / 16) * 16 + n % 16) by (nonlinear_arith);
        assert(hex_value(t) == hex_value(hex_text(n / 16)) * 16 + digit_value(d));
    }
}

/// A blank-node identifier numbered within `[lo, hi)`.
pub open spec fn id_in(b: Seq<char>, lo: int, hi: int) -> bool {
    &&& b == hex_text(hex_value(b) as nat)
    &&& lo <= hex_value(b) < hi
}

/// A subject that is named, or blank with a number within `[lo, hi)`.
pub open spec fn subject_in(s: SubjectView, lo: int, hi: int) -> bool {
    match s {
        SubjectView::BlankNode(b) => id_in(b, lo, hi),
        SubjectView::NamedNode(_) => true,
    }
}

/// A term that is no blank node, or one with a number within `[lo, hi)`.
pub open spec fn term_in(t: TermView, lo: int, hi: int) -> bool {
    match t {
        TermView::BlankNode(b) => id_in(b, lo, hi),
        _ => true,
    }
}

/// Every blank node of the quads is numbered within `[lo, hi)`.
pub open spec fn quads_in(q: Seq<QuadView>, lo: int, hi: int) -> bool {
    forall|i: int|
        0 <= i < q.len() ==> subject_in(#[trigger] q[i].subject, lo, hi) && term_in(q[i].object, lo, hi)
}

/// Every subject of the lists is named or numbered within `[lo, hi)`.
pub open spec fn subjects_in(subjects: Seq<Seq<Option<SubjectView>>>, lo: int, hi: int) -> bool {
    forall|i: int, j: int|
        0 <= i < subjects.len() && 0 <= j < subjects[i].len() ==> (#[trigger] subjects[i][j] matches Some(s)
            ==> subject_in(s, lo, hi))
}

/// Every subject of the list is named or numbered within `[lo, hi)`.
pub open spec fn subject_list_in(subjects: Seq<Option<SubjectView>>, lo: int, hi: int) -> bool {
    forall|j: int| 0 <= j < subjects.len() ==> (#[trigger] subjects[j] matches Some(s) ==> subject_in(s, lo, hi))
}

proof fn lemma_quads_concat(a: Seq<QuadView>, b: Seq<QuadView>, lo: int, hi: int)
    requires
        quads_in(a, lo, hi),
        quads_in(b, lo, hi),
    ensures
        quads_in(a + b, lo, hi),
{
    assert forall|i: int| 0 <= i < (a + b).len() implies subject_in(#[trigger] (a + b)[i].subject, lo, hi)
        && term_in((a + b)[i].object, lo, hi) by {
        if i < a.len() {
            assert((a + b)[i] == a[i]);
        } else {
            assert((a + b)[i] == b[i - a.len()]);
        }
    }
}

proof fn lemma_quads_widen(q: Seq<QuadView>, lo: int, hi: int, lo2: int, hi2: int)
    requires
        quads_in(q, lo, hi),
        lo2 <= lo,
        hi <= hi2,
    ensures
        quads_in(q, lo2, hi2),
{
    assert forall|i: int| 0 <= i < q.len() implies subject_in(#[trigger] q[i].subject, lo2, hi2)
        && term_in(q[i].object, lo2, hi2) by {
        assert(subject_in(q[i].subject, lo, hi) && term_in(q[i].object, lo, hi));
    }
}

/// The number of blank nodes that a value's entries may take at their own
/// level: one for an object, one per item for an array.
pub open spec fn direct_count(entries: Seq<(String, JsonValue)>, k: int) -> int
    decreases k,
{
    if k <= 0 {
        0
    } else {
        direct_count(entries, k - 1) + match entries[k - 1].1 {
            JsonValue::Object(_) => 1int,
            JsonValue::Array(items) => items@.len() as int,
            _ => 0int,
        }
    }
}

/// The number of blank nodes that walking a value may take below itself.
pub open spec fn nested_objects(v: JsonValue) -> int
    decreases v, 2nat, 0int,
{
    match v {
        JsonValue::Object(entries) => direct_count(entries@, entries@.len() as int) + deeper_from(v, 0),
        JsonValue::Array(_) => item_sum(v, 0),
        _ => 0,
    }
}

/// The blank nodes that the entries `[i..]` of an object may take below
/// their own level.
pub open spec fn deeper_from(v: JsonValue, i: int) -> int
    decreases v, 1nat, (match v {
        JsonValue::Object(entries) => entries@.len() - i,
        _ => 0,
    }),
{
    match v {
        JsonValue::Object(entries) => if 0 <= i < entries@.len() {
            entry_deeper(entries@[i].1) + deeper_from(v, i + 1)
        } else {
            0
        },
        _ => 0,
    }
}

/// The blank nodes that the value of an entry may take below its own level.
pub open spec fn entry_deeper(x: JsonValue) -> int
    decreases x, 3nat, 0int,
{
    match x {
        JsonValue::Object(_) => nested_objects(x),
        JsonValue::Array(_) => item_sum(x, 0),
        _ => 0,
    }
}

/// The blank nodes that the items `[j..]` of an array may take below
/// themselves.
pub open spec fn item_sum(v: JsonValue, j: int) -> int
    decreases v, 1nat, (match v {
        JsonValue::Array(items) => items@.len() - j,
        _ => 0,
    }),
{
    match v {
        JsonValue::Array(items) => if 0 <= j < items@.len() {
            nested_objects(items@[j]) + item_sum(v, j + 1)
        } else {
            0
        },
        _ => 0,
    }
}

proof fn lemma_counts_nonneg(v: JsonValue)
    ensures
        nested_objects(v) >= 0,
    decreases v, 2nat, 0int,
{
    match v {
        JsonValue::Object(entries) => {
            lemma_direct_nonneg(entries@, entries@.len() as int);
            lemma_deeper_nonneg(v, 0);
        },
        JsonValue::Array(_) => lemma_items_nonneg(v, 0),
        _ => {},
    }
}

proof fn lemma_direct_nonneg(entries: Seq<(String, JsonValue)>, k: int)
    ensures
        direct_count(entries, k) >= 0,
    decreases k,
{
    if k > 0 {
        lemma_direct_nonneg(entries, k - 1);
    }
}

proof fn lemma_deeper_nonneg(v: JsonValue, i: int)
    ensures
        deeper_from(v, i) >= 0,
    decreases v, 1nat, (match v {
        JsonValue::Object(entries) => entries@.len() - i,
        _ => 0,
    }),
{
    match v {
        JsonValue::Object(entries) => if 0 <= i < entries@.len() {
            lemma_entry_deeper_nonneg(entries@[i].1);
            lemma_deeper_nonneg(v, i + 1);
        },
        _ => {},
    }
}

proof fn lemma_entry_deeper_nonneg(x: JsonValue)
    ensures
        entry_deeper(x) >= 0,
    decreases x, 3nat, 0int,
{
    match x {
        JsonValue::Object(_) => lemma_counts_nonneg(x),
        JsonValue::Array(_) => lemma_items_nonneg(x, 0),
        _ => {},
    }
}

proof fn lemma_items_nonneg(v: JsonValue, j: int)
    ensures
        item_sum(v, j) >= 0,
    decreases v, 1nat, (match v {
        JsonValue::Array(items) => items@.len() - j,
        _ => 0,
    }),
{
    match v {
        JsonValue::Array(items) => if 0 <= j < items@.len() {
            lemma_counts_nonneg(items@[j]);
            lemma_items_nonneg(v, j + 1);
        },
        _ => {},
    }
}

/// A value in object position is never a blank node.
proof fn lemma_object_term_not_blank(prefixes: Map<Seq<char>, Seq<char>>, v: JsonValue)
    ensures
        object_term(prefixes, v) matches Ok(t) ==> !(t is BlankNode),
{
}

proof fn lemma_nested_subject(url: Seq<char>, entries: Seq<(String, JsonValue)>, next: u128)
    requires
        next < u128::MAX,
    ensures
        nested_subject(url, entries, next) matches Ok((s, n)) ==> next <= n <= next + 1 && subject_in(
            s,
            next as int,
            n as int,
        ),
{
    lemma_hex_round_trip(next as nat);
}

proof fn lemma_item_level(
    prefixes: Map<Seq<char>, Seq<char>>,
    url: Seq<char>,
    subj: SubjectView,
    pred: Seq<char>,
    item: JsonValue,
    next: u128,
    lo: int,
)
    requires
        next < u128::MAX,
        lo <= next,
        subject_in(subj, lo, next as int),
    ensures
        item_level(prefixes, url, subj, pred, item, next) matches Ok((q, s, n)) ==> {
            &&& next <= n <= next + 1
            &&& quads_in(q, lo, n as int)
            &&& (s matches Some(x) ==> subject_in(x, next as int, n as int))
        },
{
    match item {
        JsonValue::Object(nested) => lemma_nested_subject(url, nested@, next),
        _ => lemma_object_term_not_blank(prefixes, item),
    }
}

proof fn lemma_items_level(
    prefixes: Map<Seq<char>, Seq<char>>,
    url: Seq<char>,
    subj: SubjectView,
    pred: Seq<char>,
    items: Seq<JsonValue>,
    k: int,
    next: u128,
    lo: int,
)
    requires
        k <= items.len(),
        next + k <= u128::MAX,
        lo <= next,
        subject_in(subj, lo, next as int),
    ensures
        items_level(prefixes, url, subj, pred, items, k, next) matches Ok((q, ss, n)) ==> {
            &&& next <= n <= next + (if k > 0 { k } else { 0 })
            &&& quads_in(q, lo, n as int)
            &&& subject_list_in(ss, next as int, n as int)
        },
    decreases k,
{
    if k > 0 {
        lemma_item_level(prefixes, url, subj, pred, items[k - 1], next, lo);
        match item_level(prefixes, url, subj, pred, items[k - 1], next) {
            Ok((q, s, n1)) => {
                lemma_items_level(prefixes, url, subj, pred, items, k - 1, n1, lo);
                match items_level(prefixes, url, subj, pred, items, k - 1, n1) {
                    Ok((qs, ss, n2)) => {
                        lemma_quads_widen(q, lo, n1 as int, lo, n2 as int);
                        lemma_quads_concat(q, qs, lo, n2 as int);
                        let all = ss.push(s);
                        assert forall|j: int| 0 <= j < all.len() implies (#[trigger] all[j] matches Some(x)
                            ==> subject_in(x, next as int, n2 as int)) by {
                            if j < ss.len() {
                                assert(all[j] == ss[j]);
                            }
                        }
                    },
                    Err(_) => {},
                }
            },
            Err(_) => {},
        }
    }
}

proof fn lemma_entry_level(
    prefixes: Map<Seq<char>, Seq<char>>,
    url: Seq<char>,
    subj: SubjectView,
    entry: (String, JsonValue),
    next: u128,
    lo: int,
)
    requires
        next + match entry.1 {
            JsonValue::Object(_) => 1int,
            JsonValue::Array(items) => items@.len() as int,
            _ => 0int,
        } <= u128::MAX,
        lo <= next,
        subject_in(subj, lo, next as int),
    ensures
        entry_level(prefixes, url, subj, entry, next) matches Ok((q, ss, n)) ==> {
            &&& next <= n <= next + match entry.1 {
                JsonValue::Object(_) => 1int,
                JsonValue::Array(items) => items@.len() as int,
                _ => 0int,
            }
            &&& quads_in(q, lo, n as int)
            &&& subject_list_in(ss, next as int, n as int)
        },
{
    if entry.0@ != "id"@ {
        match entry.1 {
            JsonValue::Object(nested) => lemma_nested_subject(url, nested@, next),
            JsonValue::Array(items) => {
                match named_iri(iri_join(url, entry.0@)) {
                    Ok(pred) => lemma_items_level(
                        prefixes,
                        url,
                        subj,
                        pred,
                        items@,
                        items@.len() as int,
                        next,
                        lo,
                    ),
                    Err(_) => {},
                }
            },
            _ => lemma_object_term_not_blank(prefixes, entry.1),
        }
    }
}

proof fn lemma_object_level(
    prefixes: Map<Seq<char>, Seq<char>>,
    url: Seq<char>,
    subj: SubjectView,
    entries: Seq<(String, JsonValue)>,
    k: int,
    next: u128,
    lo: int,
)
    requires
        k <= entries.len(),
        next + direct_count(entries, k) <= u128::MAX,
        lo <= next,
        subject_in(subj, lo, next as int),
    ensures
        object_level(prefixes, url, subj, entries, k, next) matches Ok((q, ss, n)) ==> {
            &&& next <= n <= next + direct_count(entries, k)
            &&& quads_in(q, lo, n as int)
            &&& subjects_in(ss, next as int, n as int)
        },
    decreases k,
{
    if k > 0 {
        lemma_direct_nonneg(entries, k - 1);
        lemma_entry_level(prefixes, url, subj, entries[k - 1], next, lo);
        match entry_level(prefixes, url, subj, entries[k - 1], next) {
            Ok((q, s, n1)) => {
                lemma_object_level(prefixes, url, subj, entries, k - 1, n1, lo);
                match object_level(prefixes, url, subj, entries, k - 1, n1) {
                    Ok((qs, ss, n2)) => {
                        lemma_quads_widen(q, lo, n1 as int, lo, n2 as int);
                        lemma_quads_concat(q, qs, lo, n2 as int);
                        let all = ss.push(s);
                        assert forall|i: int, j: int|
                            0 <= i < all.len() && 0 <= j < all[i].len() implies (#[trigger] all[i][j] matches Some(
                            x,
                        ) ==> subject_in(x, next as int, n2 as int)) by {
                            if i < ss.len() {
                                assert(all[i] == ss[i]);
                            } else {
                                assert(all[i] == s);
                                assert(s[j] matches Some(x) ==> subject_in(x, next as int, n1 as int));
                            }
                        }
                    },
                    Err(_) => {},
                }
            },
            Err(_) => {},
        }
    } else {
        assert(subjects_in(seq![], next as int, next as int));
    }
}

proof fn lemma_subject_list_widen(subjects: Seq<Option<SubjectView>>, lo: int, hi: int, lo2: int, hi2: int)
    requires
        subject_list_in(subjects, lo, hi),
        lo2 <= lo,
        hi <= hi2,
    ensures
        subject_list_in(subjects, lo2, hi2),
{
    assert forall|j: int| 0 <= j < subjects.len() implies (#[trigger] subjects[j] matches Some(s)
        ==> subject_in(s, lo2, hi2)) by {
        match subjects[j] {
            Some(s) => assert(subject_in(s, lo, hi)),
            None => {},
        }
    }
}

proof fn lemma_subjects_widen(subjects: Seq<Seq<Option<SubjectView>>>, lo: int, hi: int, lo2: int, hi2: int)
    requires
        subjects_in(subjects, lo, hi),
        lo2 <= lo,
        hi <= hi2,
    ensures
        subjects_in(subjects, lo2, hi2),
{
    assert forall|i: int, j: int|
        0 <= i < subjects.len() && 0 <= j < subjects[i].len() implies (#[trigger] subjects[i][j] matches Some(
        s,
    ) ==> subject_in(s, lo2, hi2)) by {
        match subjects[i][j] {
            Some(s) => assert(subject_in(s, lo, hi)),
            None => {},
        }
    }
}

/// The blank nodes that the items `[j..]` of the array in entry `i` of the
/// object `v` may take below themselves.
pub open spec fn items_below(v: JsonValue, i: int, j: int) -> int {
    match v {
        JsonValue::Object(entries) => if 0 <= i < entries@.len() {
            item_sum(entries@[i].1, j)
        } else {
            0
        },
        _ => 0,
    }
}

/// The blank nodes that entry `i` of the object `v` may take below its own
/// level.
pub open spec fn entry_below(v: JsonValue, i: int) -> int {
    match v {
        JsonValue::Object(entries) => if 0 <= i < entries@.len() {
            entry_deeper(entries@[i].1)
        } else {
            0
        },
        _ => 0,
    }
}

/// Walking a value under a subject numbers its blank nodes from the counter
/// on, and takes no more than the value's nested objects.
proof fn lemma_frame_fresh(
    prefixes: Map<Seq<char>, Seq<char>>,
    url: Seq<char>,
    subj: SubjectView,
    v: JsonValue,
    next: u128,
    lo: int,
)
    requires
        next + nested_objects(v) <= u128::MAX,
        lo <= next,
        subject_in(subj, lo, next as int),
    ensures
        frame_quads(prefixes, url, subj, v, next) matches Ok((q, n)) ==> {
            &&& next <= n <= next + nested_objects(v)
            &&& quads_in(q, lo, n as int)
        },
    decreases v, 3nat, 0nat,
{
    match v {
        JsonValue::Object(entries) => {
            let k = entries@.len() as int;
            lemma_direct_nonneg(entries@, k);
            lemma_deeper_nonneg(v, 0);
            lemma_object_level(prefixes, url, subj, entries@, k, next, lo);
            match object_level(prefixes, url, subj, entries@, k, next) {
                Ok((q1, subjects, n1)) => {
                    lemma_subjects_widen(subjects, next as int, n1 as int, lo, n1 as int);
                    lemma_children_fresh(prefixes, url, v, 0, subjects, n1, lo);
                    match children_quads(prefixes, url, v, 0, subjects, n1) {
                        Ok((q2, n2)) => {
                            lemma_quads_widen(q1, lo, n1 as int, lo, n2 as int);
                            lemma_quads_concat(q1, q2, lo, n2 as int);
                        },
                        Err(_) => {},
                    }
                },
                Err(_) => {},
            }
        },
        JsonValue::Array(_) => lemma_array_fresh(prefixes, url, subj, v, 0, next, lo),
        _ => lemma_object_term_not_blank(prefixes, v),
    }
}

proof fn lemma_array_fresh(
    prefixes: Map<Seq<char>, Seq<char>>,
    url: Seq<char>,
    subj: SubjectView,
    v: JsonValue,
    j: int,
    next: u128,
    lo: int,
)
    requires
        next + item_sum(v, j) <= u128::MAX,
        lo <= next,
        subject_in(subj, lo, next as int),
    ensures
        array_quads(prefixes, url, subj, v, j, next) matches Ok((q, n)) ==> {
            &&& next <= n <= next + item_sum(v, j)
            &&& quads_in(q, lo, n as int)
        },
    decreases v, 2nat, (match v {
        JsonValue::Array(items) => items@.len() - j,
        _ => 0,
    }),
{
    match v {
        JsonValue::Array(items) => if 0 <= j < items@.len() {
            lemma_counts_nonneg(items@[j]);
            lemma_items_nonneg(v, j + 1);
            lemma_frame_fresh(prefixes, url, subj, items@[j], next, lo);
            match frame_quads(prefixes, url, subj, items@[j], next) {
                Ok((q1, n1)) => {
                    lemma_array_fresh(prefixes, url, subj, v, j + 1, n1, lo);
                    match array_quads(prefixes, url, subj, v, j + 1, n1) {
                        Ok((q2, n2)) => {
                            lemma_quads_widen(q1, lo, n1 as int, lo, n2 as int);
                            lemma_quads_concat(q1, q2, lo, n2 as int);
                        },
                        Err(_) => {},
                    }
                },
                Err(_) => {},
            }
        } else {
            assert(quads_in(seq![], lo, next as int));
        },
        _ => {
            assert(quads_in(seq![], lo, next as int));
        },
    }
}

proof fn lemma_children_fresh(
    prefixes: Map<Seq<char>, Seq<char>>,
    url: Seq<char>,
    v: JsonValue,
    i: int,
    subjects: Seq<Seq<Option<SubjectView>>>,
    next: u128,
    lo: int,
)
    requires
        next + deeper_from(v, i) <= u128::MAX,
        lo <= next,
        subjects_in(subjects, lo, next as int),
    ensures
        children_quads(prefixes, url, v, i, subjects, next) matches Ok((q, n)) ==> {
            &&& next <= n <= next + deeper_from(v, i)
            &&& quads_in(q, lo, n as int)
        },
    decreases v, 2nat, (match v {
        JsonValue::Object(entries) => entries@.len() - i,
        _ => 0,
    }),
{
    match v {
        JsonValue::Object(entries) => if 0 <= i < entries@.len() && i < subjects.len() {
            lemma_entry_deeper_nonneg(entries@[i].1);
            lemma_deeper_nonneg(v, i + 1);
            assert(subject_list_in(subjects[i], lo, next as int)) by {
                assert forall|j: int| 0 <= j < subjects[i].len() implies (#[trigger] subjects[i][j] matches Some(
                    s,
                ) ==> subject_in(s, lo, next as int)) by {}
            }
            lemma_entry_children_fresh(prefixes, url, v, i, subjects[i], next, lo);
            match entry_children(prefixes, url, v, i, subjects[i], next) {
                Ok((q1, n1)) => {
                    lemma_subjects_widen(subjects, lo, next as int, lo, n1 as int);
                    lemma_children_fresh(prefixes, url, v, i + 1, subjects, n1, lo);
                    match children_quads(prefixes, url, v, i + 1, subjects, n1) {
                        Ok((q2, n2)) => {
                            lemma_quads_widen(q1, lo, n1 as int, lo, n2 as int);
                            lemma_quads_concat(q1, q2, lo, n2 as int);
                        },
                        Err(_) => {},
                    }
                },
                Err(_) => {},
            }
        } else {
            lemma_deeper_nonneg(v, i);
            assert(quads_in(seq![], lo, next as int));
        },
        _ => {
            assert(quads_in(seq![], lo, next as int));
        },
    }
}

proof fn lemma_entry_children_fresh(
    prefixes: Map<Seq<char>, Seq<char>>,
    url: Seq<char>,
    v: JsonValue,
    i: int,
    subjects: Seq<Option<SubjectView>>,
    next: u128,
    lo: int,
)
    requires
        next + entry_below(v, i) <= u128::MAX,
        lo <= next,
        subject_list_in(subjects, lo, next as int),
    ensures
        entry_children(prefixes, url, v, i, subjects, next) matches Ok((q, n)) ==> {
            &&& next <= n <= next + entry_below(v, i)
            &&& quads_in(q, lo, n as int)
        },
    decreases v, 1nat, 0nat,
{
    assert(quads_in(seq![], lo, next as int));
    match v {
        JsonValue::Object(entries) => if 0 <= i < entries@.len() {
            lemma_entry_deeper_nonneg(entries@[i].1);
            match entries@[i].1 {
                JsonValue::Object(_) => if subjects.len() > 0 && subjects[0] is Some {
                    assert(subject_in(subjects[0]->0, lo, next as int));
                    lemma_frame_fresh(prefixes, url, subjects[0]->0, entries@[i].1, next, lo);
                },
                JsonValue::Array(_) => lemma_item_children_fresh(prefixes, url, v, i, 0, subjects, next, lo),
                _ => {},
            }
        },
        _ => {},
    }
}

proof fn lemma_item_children_fresh(
    prefixes: Map<Seq<char>, Seq<char>>,
    url: Seq<char>,
    v: JsonValue,
    i: int,
    j: int,
    subjects: Seq<Option<SubjectView>>,
    next: u128,
    lo: int,
)
    requires
        next + items_below(v, i, j) <= u128::MAX,
        lo <= next,
        subject_list_in(subjects, lo, next as int),
    ensures
        item_children(prefixes, url, v, i, j, subjects, next) matches Ok((q, n)) ==> {
            &&& next <= n <= next + items_below(v, i, j)
            &&& quads_in(q, lo, n as int)
        },
    decreases v, 0nat, (match v {
        JsonValue::Object(entries) => if 0 <= i < entries@.len() {
            match entries@[i].1 {
                JsonValue::Array(items) => items@.len() - j,
                _ => 0,
            }
        } else {
            0
        },
        _ => 0,
    }),
{
    assert(quads_in(seq![], lo, next as int));
    match v {
        JsonValue::Object(entries) => if 0 <= i < entries@.len() {
            match entries@[i].1 {
                JsonValue::Array(items) => if 0 <= j < items@.len() {
                    let x = entries@[i].1;
                    lemma_counts_nonneg(items@[j]);
                    lemma_items_nonneg(x, j + 1);
                    let here = if j < subjects.len() && subjects[j] is Some && items@[j] is Object {
                        assert(subject_in(subjects[j]->0, lo, next as int));
                        lemma_frame_fresh(prefixes, url, subjects[j]->0, items@[j], next, lo);
                        frame_quads(prefixes, url, subjects[j]->0, items@[j], next)
                    } else {
                        Ok((seq![], next))
                    };
                    match here {
                        Ok((q1, n1)) => {
                            lemma_subject_list_widen(subjects, lo, next as int, lo, n1 as int);
                            lemma_item_children_fresh(prefixes, url, v, i, j + 1, subjects, n1, lo);
                            match item_children(prefixes, url, v, i, j + 1, subjects, n1) {
                                Ok((q2, n2)) => {
                                    lemma_quads_widen(q1, lo, n1 as int, lo, n2 as int);
                                    lemma_quads_concat(q1, q2, lo, n2 as int);
                                },
                                Err(_) => {},
                            }
                        },
                        Err(_) => {},
                    }
                } else {
                    lemma_items_nonneg(entries@[i].1, j);
                },
                _ => {},
            }
        },
        _ => {},
    }
}

/// The blank-node identifiers that occur in quads.
pub open spec fn blank_ids(q: Seq<QuadView>) -> Set<Seq<char>> {
    Set::new(
        |b: Seq<char>|
            exists|i: int|
                0 <= i < q.len() && (q[i].subject == SubjectView::BlankNode(b) || q[i].object
                    == TermView::BlankNode(b)),
    )
}

/// Law: the blank nodes of a description loaded with counter `next` are
/// numbered from `next` on, below the counter that the load leaves, which
/// moves on by at most the number of objects nested in the description.
pub proof fn lemma_description_blank_nodes_fresh(
    prefixes: Map<Seq<char>, Seq<char>>,
    prefix_key: Seq<char>,
    v: JsonValue,
    next: u128,
)
    requires
        next + nested_objects(v) <= u128::MAX,
    ensures
        description_quads(prefixes, prefix_key, v, next) matches Ok((q, n)) ==> {
            &&& next <= n <= next + nested_objects(v)
            &&& quads_in(q, next as int, n as int)
        },
{
    if prefixes.contains_key(prefix_key) {
        let url = prefixes[prefix_key];
        match named_iri(iri_join(url, "ROOT"@)) {
            Ok(root) => lemma_frame_fresh(prefixes, url, SubjectView::NamedNode(root), v, next, next as int),
            Err(_) => {},
        }
    }
}

/// Blank nodes numbered within two ranges that do not meet are different.
proof fn lemma_disjoint_ranges(q1: Seq<QuadView>, q2: Seq<QuadView>, a: int, b: int, c: int)
    requires
        quads_in(q1, a, b),
        quads_in(q2, b, c),
    ensures
        blank_ids(q1).disjoint(blank_ids(q2)),
{
    assert forall|x: Seq<char>| blank_ids(q1).contains(x) implies !blank_ids(q2).contains(x) by {
        let i = choose|i: int|
            0 <= i < q1.len() && (q1[i].subject == SubjectView::BlankNode(x) || q1[i].object
                == TermView::BlankNode(x));
        assert(subject_in(q1[i].subject, a, b) && term_in(q1[i].object, a, b));
        assert(hex_value(x) < b);
        if blank_ids(q2).contains(x) {
            let j = choose|j: int|
                0 <= j < q2.len() && (q2[j].subject == SubjectView::BlankNode(x) || q2[j].object
                    == TermView::BlankNode(x));
            assert(subject_in(q2[j].subject, b, c) && term_in(q2[j].object, b, c));
            assert(hex_value(x) >= b);
        }
    }
}

/// The number of nodes below a syntax node: each may take a blank node
/// when the node is walked.
pub open spec fn descendants(node: SyntaxNode) -> int
    decreases node, 2nat, 0int,
{
    node.named_children@.len() + deeper_children(node, 0)
}

/// The nodes below the named children `[i..]` of a node.
pub open spec fn deeper_children(node: SyntaxNode, i: int) -> int
    decreases node, 1nat, node.named_children@.len() - i,
{
    if 0 <= i < node.named_children@.len() {
        descendants(node.named_children@[i].1) + deeper_children(node, i + 1)
    } else {
        0
    }
}

proof fn lemma_descendants_nonneg(node: SyntaxNode)
    ensures
        descendants(node) >= 0,
    decreases node, 2nat, 0int,
{
    lemma_deeper_children_nonneg(node, 0);
}

proof fn lemma_deeper_children_nonneg(node: SyntaxNode, i: int)
    ensures
        deeper_children(node, i) >= 0,
    decreases node, 1nat, node.named_children@.len() - i,
{
    if 0 <= i < node.named_children@.len() {
        lemma_descendants_nonneg(node.named_children@[i].1);
        lemma_deeper_children_nonneg(node, i + 1);
    }
}

proof fn lemma_code_child_level(subj: SubjectView, child: (Option<String>, SyntaxNode), next: u128, lo: int)
    requires
        next < u128::MAX,
        lo <= next,
        subject_in(subj, lo, next as int),
    ensures
        code_child_level(subj, child, next) matches Ok((q, s, n)) ==> {
            &&& next <= n <= next + 1
            &&& quads_in(q, lo, n as int)
            &&& (s matches Some(x) ==> subject_in(x, next as int, n as int))
        },
{
    lemma_hex_round_trip(next as nat);
}

proof fn lemma_code_level(
    subj: SubjectView,
    children: Seq<(Option<String>, SyntaxNode)>,
    k: int,
    next: u128,
    lo: int,
)
    requires
        k <= children.len(),
        next + k <= u128::MAX,
        lo <= next,
        subject_in(subj, lo, next as int),
    ensures
        code_level(subj, children, k, next) matches Ok((q, ss, n)) ==> {
            &&& next <= n <= next + (if k > 0 { k } else { 0 })
            &&& quads_in(q, lo, n as int)
            &&& subject_list_in(ss, next as int, n as int)
        },
    decreases k,
{
    if k > 0 {
        lemma_code_child_level(subj, children[k - 1], next, lo);
        match code_child_level(subj, children[k - 1], next) {
            Ok((q, s, n1)) => {
                lemma_code_level(subj, children, k - 1, n1, lo);
                match code_level(subj, children, k - 1, n1) {
                    Ok((qs, ss, n2)) => {
                        lemma_quads_widen(q, lo, n1 as int, lo, n2 as int);
                        lemma_quads_concat(q, qs, lo, n2 as int);
                        let all = ss.push(s);
                        assert forall|j: int| 0 <= j < all.len() implies (#[trigger] all[j] matches Some(x)
                            ==> subject_in(x, next as int, n2 as int)) by {
                            if j < ss.len() {
                                assert(all[j] == ss[j]);
                            }
                        }
                    },
                    Err(_) => {},
                }
            },
            Err(_) => {},
        }
    } else {
        assert(quads_in(seq![], lo, next as int));
        assert(subject_list_in(seq![], next as int, next as int));
    }
}

/// Walking a syntax node numbers its blank nodes from the counter on, and
/// takes no more than the node has nodes below it.
proof fn lemma_code_frame_fresh(subj: SubjectView, node: SyntaxNode, next: u128, lo: int)
    requires
        next + descendants(node) <= u128::MAX,
        lo <= next,
        subject_in(subj, lo, next as int),
    ensures
        code_frame(subj, node, next) matches Ok((q, n)) ==> {
            &&& next <= n <= next + descendants(node)
            &&& quads_in(q, lo, n as int)
        },
    decreases node, 2nat, 0int,
{
    let k = node.named_children@.len() as int;
    lemma_deeper_children_nonneg(node, 0);
    lemma_code_level(subj, node.named_children@, k, next, lo);
    match code_level(subj, node.named_children@, k, next) {
        Ok((q1, subs, n1)) => {
            lemma_subject_list_widen(subs, next as int, n1 as int, lo, n1 as int);
            lemma_code_children_fresh(node, 0, subs, n1, lo);
            match code_children(node, 0, subs, n1) {
                Ok((q2, n2)) => {
                    lemma_quads_widen(q1, lo, n1 as int, lo, n2 as int);
                    lemma_quads_concat(q1, q2, lo, n2 as int);
                },
                Err(_) => {},
            }
        },
        Err(_) => {},
    }
}

proof fn lemma_code_children_fresh(
    node: SyntaxNode,
    i: int,
    subs: Seq<Option<SubjectView>>,
    next: u128,
    lo: int,
)
    requires
        next + deeper_children(node, i) <= u128::MAX,
        lo <= next,
        subject_list_in(subs, lo, next as int),
    ensures
        code_children(node, i, subs, next) matches Ok((q, n)) ==> {
            &&& next <= n <= next + deeper_children(node, i)
            &&& quads_in(q, lo, n as int)
        },
    decreases node, 1nat, node.named_children@.len() - i,
{
    assert(quads_in(seq![], lo, next as int));
    lemma_deeper_children_nonneg(node, i);
    if 0 <= i < node.named_children@.len() && i < subs.len() {
        let child = node.named_children@[i].1;
        lemma_descendants_nonneg(child);
        lemma_deeper_children_nonneg(node, i + 1);
        let here = match subs[i] {
            Some(s) => {
                assert(subject_in(s, lo, next as int));
                lemma_code_frame_fresh(s, child, next, lo);
                code_frame(s, child, next)
            },
            None => Ok((seq![], next)),
        };
        match here {
            Ok((q1, n1)) => {
                lemma_subject_list_widen(subs, lo, next as int, lo, n1 as int);
                lemma_code_children_fresh(node, i + 1, subs, n1, lo);
                match code_children(node, i + 1, subs, n1) {
                    Ok((q2, n2)) => {
                        lemma_quads_widen(q1, lo, n1 as int, lo, n2 as int);
                        lemma_quads_concat(q1, q2, lo, n2 as int);
                    },
                    Err(_) => {},
                }
            },
            Err(_) => {},
        }
    }
}

/// Law: the blank nodes of a source file loaded with counter `next` are
/// numbered from `next` on, below the counter that the load leaves, which
/// moves on by at most one more than the nodes below the root.
pub proof fn lemma_source_code_blank_nodes_fresh(root: SyntaxNode, next: u128)
    requires
        next + 1 + descendants(root) <= u128::MAX,
    ensures
        source_code_quads(root, next) matches Ok((q, n)) ==> {
            &&& next <= n <= next + 1 + descendants(root)
            &&& quads_in(q, next as int, n as int)
        },
{
    lemma_descendants_nonneg(root);
    lemma_hex_round_trip(next as nat);
    let b = hex_text(next as nat);
    let first = next_blank(next);
    lemma_code_frame_fresh(SubjectView::BlankNode(b), root, first, next as int);
    match named_iri(code_iri(root.kind@)) {
        Ok(p) => match code_frame(SubjectView::BlankNode(b), root, first) {
            Ok((q, n)) => {
                let head = seq![
                    quad(
                        SubjectView::NamedNode(crate::source_code::code_root_iri()),
                        p,
                        TermView::BlankNode(b),
                    ),
                ];
                assert(quads_in(head, next as int, n as int));
                lemma_quads_widen(q, next as int, n as int, next as int, n as int);
                lemma_quads_concat(head, q, next as int, n as int);
            },
            Err(_) => {},
        },
        Err(_) => {},
    }
}

/// What is loaded into the database: a description with its prefixes and
/// default prefix, or the syntax tree of a source file.
pub enum Load {
    Description(Map<Seq<char>, Seq<char>>, Seq<char>, JsonValue),
    SourceCode(SyntaxNode),
}

/// The quads of a load with blank nodes numbered from `next` on, and the
/// counter after them.
pub open spec fn load_quads(l: Load, next: u128) -> Result<(Seq<QuadView>, u128), LoadFailure> {
    match l {
        Load::Description(prefixes, key, v) => description_quads(prefixes, key, v, next),
        Load::SourceCode(root) => source_code_quads(root, next),
    }
}

/// The most blank nodes a load can take.
pub open spec fn load_budget(l: Load) -> int {
    match l {
        Load::Description(_, _, v) => nested_objects(v),
        Load::SourceCode(root) => 1 + descendants(root),
    }
}

proof fn lemma_load_fresh(l: Load, next: u128)
    requires
        next + load_budget(l) <= u128::MAX,
    ensures
        load_budget(l) >= 0,
        load_quads(l, next) matches Ok((q, n)) ==> {
            &&& next <= n <= next + load_budget(l)
            &&& quads_in(q, next as int, n as int)
        },
{
    match l {
        Load::Description(prefixes, key, v) => {
            lemma_counts_nonneg(v);
            lemma_description_blank_nodes_fresh(prefixes, key, v, next);
        },
        Load::SourceCode(root) => {
            lemma_descendants_nonneg(root);
            lemma_source_code_blank_nodes_fresh(root, next);
        },
    }
}

/// Law: two loads one after the other (descriptions or source files), the
/// second from the counter that the first left, share no blank node.
pub proof fn lemma_loads_share_no_blank_node(first: Load, second: Load, next: u128)
    requires
        next + load_budget(first) + load_budget(second) <= u128::MAX,
    ensures
        load_quads(first, next) matches Ok((q1, n1)) ==> (load_quads(second, n1) matches Ok((q2, n2))
            ==> blank_ids(q1).disjoint(blank_ids(q2))),
{
    match first {
        Load::Description(_, _, v) => lemma_counts_nonneg(v),
        Load::SourceCode(root) => lemma_descendants_nonneg(root),
    }
    match second {
        Load::Description(_, _, v) => lemma_counts_nonneg(v),
        Load::SourceCode(root) => lemma_descendants_nonneg(root),
    }
    lemma_load_fresh(first, next);
    match load_quads(first, next) {
        Ok((q1, n1)) => {
            lemma_load_fresh(second, n1);
            match load_quads(second, n1) {
                Ok((q2, n2)) => lemma_disjoint_ranges(q1, q2, next as int, n1 as int, n2 as int),
                Err(_) => {},
            }
        },
        Err(_) => {},
    }
}

} // verus!
