//! Maps keyed by strings, held as a list of pairs with distinct keys.
use vstd::prelude::*;

verus! {

/// Key/value pairs, each key at most once.
pub open spec fn keys_distinct<V>(pairs: Seq<(String, V)>) -> bool {
    forall|i: int, j: int|
        0 <= i < pairs.len() && 0 <= j < pairs.len() && i != j ==> pairs[i].0@ != pairs[j].0@
}

/// The map that a list of pairs with distinct keys stands for.
pub open spec fn pairs_map<V: View>(pairs: Seq<(String, V)>) -> Map<Seq<char>, V::V>
    decreases pairs.len(),
{
    if pairs.len() == 0 {
        Map::empty()
    } else {
        pairs_map(pairs.drop_last()).insert(pairs.last().0@, pairs.last().1@)
    }
}

/// A map keyed by strings.
#[derive(Debug)]
pub struct KeyMap<V: View> {
    pairs: Vec<(String, V)>,
}

impl<V: View> View for KeyMap<V> {
    type V = Map<Seq<char>, V::V>;

    closed spec fn view(&self) -> Map<Seq<char>, V::V> {
        pairs_map(self.pairs@)
    }
}

impl<V: View> KeyMap<V> {
    #[verifier::type_invariant]
    spec fn distinct_keys(&self) -> bool {
        keys_distinct(self.pairs@)
    }

    /// The empty map.
    pub fn new() -> (r: Self)
        ensures
            r@ == Map::<Seq<char>, V::V>::empty(),
    {
        KeyMap { pairs: Vec::new() }
    }

    /// Sets `key` to `value`, replacing an earlier value of the key.
    pub fn insert(&mut self, key: String, value: V)
        ensures
            final(self)@ == old(self)@.insert(key@, value@),
    {
        proof {
            use_type_invariant(&*self);
        }
        let mut pairs: Vec<(String, V)> = Vec::new();
        std::mem::swap(&mut pairs, &mut self.pairs);
        let n = pairs.len();
        let mut i: usize = 0;
        while i < n
            invariant
                n == pairs@.len(),
                pairs@ == old(self).pairs@,
                keys_distinct(pairs@),
                i <= n,
                forall|j: int| 0 <= j < i ==> pairs@[j].0@ != key@,
            decreases n - i,
        {
            if pairs[i].0 == key {
                proof {
                    lemma_pairs_map_update(pairs@, i as int, key, value);
                }
                pairs.set(i, (key, value));
                self.pairs = pairs;
                return;
            }
            i = i + 1;
        }
        proof {
            lemma_pairs_map_push(pairs@, key, value);
        }
        pairs.push((key, value));
        self.pairs = pairs;
    }

    /// The value stored for `key`.
    pub fn get(&self, key: &str) -> (r: Option<&V>)
        ensures
            match r {
                Some(v) => self@.contains_key(key@) && self@[key@] == v@,
                None => !self@.contains_key(key@),
            },
    {
        proof {
            use_type_invariant(self);
        }
        let wanted = key.to_owned();
        let n = self.pairs.len();
        let mut i: usize = 0;
        while i < n
            invariant
                n == self.pairs@.len(),
                wanted@ == key@,
                keys_distinct(self.pairs@),
                i <= n,
                forall|j: int| 0 <= j < i ==> self.pairs@[j].0@ != key@,
            decreases n - i,
        {
            if self.pairs[i].0 == wanted {
                proof {
                    lemma_pairs_map_at(self.pairs@, i as int);
                }
                return Some(&self.pairs[i].1);
            }
            i = i + 1;
        }
        proof {
            lemma_pairs_map_absent(self.pairs@, key@);
        }
        None
    }

    /// The pairs of the map, each key once.
    pub fn entries(&self) -> (r: &Vec<(String, V)>)
        ensures
            keys_distinct(r@),
            pairs_map(r@) == self@,
    {
        proof {
            use_type_invariant(self);
        }
        &self.pairs
    }

    /// The number of keys.
    pub fn len(&self) -> (r: usize)
        ensures
            r == self@.len(),
    {
        proof {
            use_type_invariant(self);
            lemma_pairs_map_len(self.pairs@);
        }
        self.pairs.len()
    }
}

/// The keys of a map built from pairs are those of the pairs.
pub proof fn lemma_pairs_map_dom<V: View>(pairs: Seq<(String, V)>, k: Seq<char>)
    ensures
        pairs_map(pairs).contains_key(k) <==> exists|j: int| 0 <= j < pairs.len() && pairs[j].0@ == k,
    decreases pairs.len(),
{
    if pairs.len() > 0 {
        lemma_pairs_map_dom(pairs.drop_last(), k);
        if pairs_map(pairs).contains_key(k) && pairs.last().0@ != k {
            let j = choose|j: int| 0 <= j < pairs.drop_last().len() && pairs.drop_last()[j].0@ == k;
            assert(pairs[j].0@ == k);
        }
        if exists|j: int| 0 <= j < pairs.len() && pairs[j].0@ == k {
            let j = choose|j: int| 0 <= j < pairs.len() && pairs[j].0@ == k;
            if j < pairs.len() - 1 {
                assert(pairs.drop_last()[j].0@ == k);
            }
        }
    }
}

/// The value of a key in a map built from distinct pairs is that of its pair.
pub proof fn lemma_pairs_map_at<V: View>(pairs: Seq<(String, V)>, i: int)
    requires
        keys_distinct(pairs),
        0 <= i < pairs.len(),
    ensures
        pairs_map(pairs).contains_key(pairs[i].0@),
        pairs_map(pairs)[pairs[i].0@] == pairs[i].1@,
    decreases pairs.len(),
{
    if i < pairs.len() - 1 {
        let d = pairs.drop_last();
        assert(keys_distinct(d)) by {
            assert forall|a: int, b: int| 0 <= a < d.len() && 0 <= b < d.len() && a != b implies d[a].0@
                != d[b].0@ by {
                assert(d[a] == pairs[a] && d[b] == pairs[b]);
            }
        }
        lemma_pairs_map_at(d, i);
        assert(pairs[i].0@ != pairs[pairs.len() - 1].0@);
    }
}

/// A key held by no pair is absent from the map.
pub proof fn lemma_pairs_map_absent<V: View>(pairs: Seq<(String, V)>, k: Seq<char>)
    requires
        forall|j: int| 0 <= j < pairs.len() ==> pairs[j].0@ != k,
    ensures
        !pairs_map(pairs).contains_key(k),
{
    lemma_pairs_map_dom(pairs, k);
}

/// The size of a map built from distinct pairs is the number of pairs.
pub proof fn lemma_pairs_map_len<V: View>(pairs: Seq<(String, V)>)
    requires
        keys_distinct(pairs),
    ensures
        pairs_map(pairs).len() == pairs.len(),
        pairs_map(pairs).dom().finite(),
    decreases pairs.len(),
{
    if pairs.len() > 0 {
        let d = pairs.drop_last();
        assert(keys_distinct(d)) by {
            assert forall|a: int, b: int| 0 <= a < d.len() && 0 <= b < d.len() && a != b implies d[a].0@
                != d[b].0@ by {
                assert(d[a] == pairs[a] && d[b] == pairs[b]);
            }
        }
        lemma_pairs_map_len(d);
        lemma_pairs_map_absent(d, pairs.last().0@);
    }
}

/// Appending a pair with a new key inserts it into the map.
pub proof fn lemma_pairs_map_push<V: View>(pairs: Seq<(String, V)>, key: String, value: V)
    requires
        keys_distinct(pairs),
        forall|j: int| 0 <= j < pairs.len() ==> pairs[j].0@ != key@,
    ensures
        keys_distinct(pairs.push((key, value))),
        pairs_map(pairs.push((key, value))) == pairs_map(pairs).insert(key@, value@),
{
    let p = pairs.push((key, value));
    assert(p.drop_last() =~= pairs);
    assert forall|a: int, b: int| 0 <= a < p.len() && 0 <= b < p.len() && a != b implies p[a].0@
        != p[b].0@ by {
        if a < pairs.len() && b < pairs.len() {
            assert(p[a] == pairs[a] && p[b] == pairs[b]);
        }
    }
}

/// Replacing the value of an existing pair updates the map.
pub proof fn lemma_pairs_map_update<V: View>(pairs: Seq<(String, V)>, i: int, key: String, value: V)
    requires
        keys_distinct(pairs),
        0 <= i < pairs.len(),
        pairs[i].0@ == key@,
    ensures
        keys_distinct(pairs.update(i, (key, value))),
        pairs_map(pairs.update(i, (key, value))) == pairs_map(pairs).insert(key@, value@),
    decreases pairs.len(),
{
    let u = pairs.update(i, (key, value));
    assert forall|a: int, b: int| 0 <= a < u.len() && 0 <= b < u.len() && a != b implies u[a].0@
        != u[b].0@ by {
        assert(u[a].0@ == pairs[a].0@ && u[b].0@ == pairs[b].0@);
    }
    let d = pairs.drop_last();
    assert(keys_distinct(d)) by {
        assert forall|a: int, b: int| 0 <= a < d.len() && 0 <= b < d.len() && a != b implies d[a].0@
            != d[b].0@ by {
            assert(d[a] == pairs[a] && d[b] == pairs[b]);
        }
    }
    if i == pairs.len() - 1 {
        assert(u.drop_last() =~= d);
        lemma_pairs_map_absent(d, key@);
        assert forall|j: int| 0 <= j < d.len() implies d[j].0@ != key@ by {
            assert(d[j] == pairs[j]);
        }
        assert(pairs_map(u) =~= pairs_map(pairs).insert(key@, value@));
    } else {
        assert(u.drop_last() =~= d.update(i, (key, value)));
        lemma_pairs_map_update(d, i, key, value);
        assert(u.last() == pairs.last());
        assert(pairs.last().0@ != key@);
        assert(pairs_map(u) =~= pairs_map(pairs).insert(key@, value@));
    }
}

/// A map from strings to strings.
pub type StringMap = KeyMap<String>;

} // verus!
