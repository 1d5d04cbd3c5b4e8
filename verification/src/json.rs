//! JSON documents as plain values: the descriptions that are loaded into the
//! database arrive in this form.
use vstd::prelude::*;

verus! {

/// A JSON number, held as its decimal text and whether it is a float.
#[derive(Debug)]
pub struct JsonNumber {
    pub text: String,
    pub is_float: bool,
}

/// A JSON value. The entries of an object keep the order in which the
/// document's map yields them.
#[derive(Debug)]
pub enum JsonValue {
    Null,
    Bool(bool),
    Number(JsonNumber),
    String(String),
    Array(Vec<JsonValue>),
    Object(Vec<(String, JsonValue)>),
}

/// Index of the first entry with key `key`.
pub open spec fn entry_index(entries: Seq<(String, JsonValue)>, key: Seq<char>) -> Option<int>
    decreases entries.len(),
{
    if entries.len() == 0 {
        None
    } else if entries[0].0@ == key {
        Some(0)
    } else {
        match entry_index(entries.drop_first(), key) {
            Some(i) => Some(i + 1),
            None => None,
        }
    }
}

/// `entry_index` finds the first entry with the key, or reports that there is none.
pub proof fn lemma_entry_index(entries: Seq<(String, JsonValue)>, key: Seq<char>)
    ensures
        match entry_index(entries, key) {
            Some(i) => 0 <= i < entries.len() && entries[i].0@ == key && forall|j: int|
                0 <= j < i ==> entries[j].0@ != key,
            None => forall|j: int| 0 <= j < entries.len() ==> entries[j].0@ != key,
        },
    decreases entries.len(),
{
    if entries.len() > 0 && entries[0].0@ != key {
        lemma_entry_index(entries.drop_first(), key);
        assert forall|j: int| 1 <= j < entries.len() implies entries[j] == entries.drop_first()[j
            - 1] by {}
    }
}

/// The value of the first entry with key `key`.
pub fn object_get<'a>(entries: &'a Vec<(String, JsonValue)>, key: &str) -> (r: Option<&'a JsonValue>)
    ensures
        match entry_index(entries@, key@) {
            Some(i) => r == Some(&entries@[i].1),
            None => r is None,
        },
{
    let wanted = key.to_owned();
    let n = entries.len();
    let mut i: usize = 0;
    while i < n
        invariant
            n == entries@.len(),
            wanted@ == key@,
            i <= n,
            forall|j: int| 0 <= j < i ==> entries@[j].0@ != key@,
        decreases n - i,
    {
        if entries[i].0 == wanted {
            proof {
                lemma_entry_index(entries@, key@);
            }
            return Some(&entries[i].1);
        }
        i = i + 1;
    }
    proof {
        lemma_entry_index(entries@, key@);
    }
    None
}

/// A JSON value as plain data.
pub enum JsonView {
    Null,
    Bool(bool),
    Number(Seq<char>, bool),
    String(Seq<char>),
    Array(Seq<JsonView>),
    Object(Seq<(Seq<char>, JsonView)>),
}

/// A JSON value as plain data.
pub open spec fn json_view(v: JsonValue) -> JsonView
    decreases v, 1nat, 0int,
{
    match v {
        JsonValue::Null => JsonView::Null,
        JsonValue::Bool(b) => JsonView::Bool(b),
        JsonValue::Number(n) => JsonView::Number(n.text@, n.is_float),
        JsonValue::String(s) => JsonView::String(s@),
        JsonValue::Array(items) => JsonView::Array(json_items(v, items@.len() as int)),
        JsonValue::Object(entries) => JsonView::Object(json_entries(v, entries@.len() as int)),
    }
}

/// The first `n` items of the array `v`, as plain data.
pub open spec fn json_items(v: JsonValue, n: int) -> Seq<JsonView>
    decreases v, 0nat, n,
{
    match v {
        JsonValue::Array(items) => if 0 < n <= items@.len() {
            json_items(v, n - 1).push(json_view(items@[n - 1]))
        } else {
            seq![]
        },
        _ => seq![],
    }
}

/// The first `n` entries of the object `v`, as plain data.
pub open spec fn json_entries(v: JsonValue, n: int) -> Seq<(Seq<char>, JsonView)>
    decreases v, 0nat, n,
{
    match v {
        JsonValue::Object(entries) => if 0 < n <= entries@.len() {
            json_entries(v, n - 1).push((entries@[n - 1].0@, json_view(entries@[n - 1].1)))
        } else {
            seq![]
        },
        _ => seq![],
    }
}

/// Items as plain data.
pub open spec fn items_view(items: Seq<JsonValue>) -> Seq<JsonView> {
    items.map_values(|x: JsonValue| json_view(x))
}

/// Entries as plain data.
pub open spec fn entries_view(entries: Seq<(String, JsonValue)>) -> Seq<(Seq<char>, JsonView)> {
    entries.map_values(|e: (String, JsonValue)| (e.0@, json_view(e.1)))
}

/// An array is its items as plain data.
pub proof fn lemma_array_view(items: Vec<JsonValue>)
    ensures
        json_view(JsonValue::Array(items)) == JsonView::Array(items_view(items@)),
{
    lemma_items_prefix(items, items@.len() as int);
    assert(items@.take(items@.len() as int) =~= items@);
}

proof fn lemma_items_prefix(items: Vec<JsonValue>, n: int)
    requires
        0 <= n <= items@.len(),
    ensures
        json_items(JsonValue::Array(items), n) == items_view(items@.take(n)),
    decreases n,
{
    if n > 0 {
        lemma_items_prefix(items, n - 1);
        assert(items_view(items@.take(n)) =~= items_view(items@.take(n - 1)).push(
            json_view(items@[n - 1]),
        ));
    } else {
        assert(items_view(items@.take(n)) =~= seq![]);
    }
}

/// An object is its entries as plain data.
pub proof fn lemma_object_view(entries: Vec<(String, JsonValue)>)
    ensures
        json_view(JsonValue::Object(entries)) == JsonView::Object(entries_view(entries@)),
{
    lemma_entries_prefix(entries, entries@.len() as int);
    assert(entries@.take(entries@.len() as int) =~= entries@);
}

proof fn lemma_entries_prefix(entries: Vec<(String, JsonValue)>, n: int)
    requires
        0 <= n <= entries@.len(),
    ensures
        json_entries(JsonValue::Object(entries), n) == entries_view(entries@.take(n)),
    decreases n,
{
    if n > 0 {
        lemma_entries_prefix(entries, n - 1);
        assert(entries_view(entries@.take(n)) =~= entries_view(entries@.take(n - 1)).push(
            (entries@[n - 1].0@, json_view(entries@[n - 1].1)),
        ));
    } else {
        assert(entries_view(entries@.take(n)) =~= seq![]);
    }
}

} // verus!
