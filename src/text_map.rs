//! Association lists read as maps, and `TextMap`, a string-keyed map with
//! unique keys used for request headers and captured path parameters.
use vstd::prelude::*;

verus! {

/// The map that a list of pairs describes when it is read left to right,
/// each pair overwriting any earlier one with the same key.
pub open spec fn pairs_map<K, V>(s: Seq<(K, V)>) -> Map<K, V>
    decreases s.len(),
{
    if s.len() == 0 {
        Map::empty()
    } else {
        pairs_map(s.drop_last()).insert(s.last().0, s.last().1)
    }
}

/// Index `i` holds the last pair with key `k`.
pub open spec fn is_last_key<K, V>(s: Seq<(K, V)>, k: K, i: int) -> bool {
    &&& 0 <= i < s.len()
    &&& s[i].0 == k
    &&& forall|j: int| i < j < s.len() ==> s[j].0 != k
}

pub open spec fn unique_keys<K, V>(s: Seq<(K, V)>) -> bool {
    forall|i: int, j: int| 0 <= i < s.len() && 0 <= j < s.len() && i != j ==> s[i].0 != s[j].0
}

pub proof fn lemma_pairs_map_push<K, V>(s: Seq<(K, V)>, k: K, v: V)
    ensures
        pairs_map(s.push((k, v))) == pairs_map(s).insert(k, v),
{
    assert(s.push((k, v)).drop_last() =~= s);
}

pub proof fn lemma_pairs_map_absent<K, V>(s: Seq<(K, V)>, k: K)
    requires
        forall|j: int| 0 <= j < s.len() ==> s[j].0 != k,
    ensures
        !pairs_map(s).contains_key(k),
    decreases s.len(),
{
    if s.len() > 0 {
        lemma_pairs_map_absent(s.drop_last(), k);
    }
}

pub proof fn lemma_pairs_map_last<K, V>(s: Seq<(K, V)>, k: K, i: int)
    requires
        is_last_key(s, k, i),
    ensures
        pairs_map(s).contains_key(k),
        pairs_map(s)[k] == s[i].1,
    decreases s.len(),
{
    if i < s.len() - 1 {
        lemma_pairs_map_last(s.drop_last(), k, i);
    }
}

pub proof fn lemma_pairs_map_update<K, V>(s: Seq<(K, V)>, k: K, i: int, v: V)
    requires
        is_last_key(s, k, i),
    ensures
        pairs_map(s.update(i, (k, v))) == pairs_map(s).insert(k, v),
    decreases s.len(),
{
    let t = s.update(i, (k, v));
    if i == s.len() - 1 {
        assert(t.drop_last() =~= s.drop_last());
        assert(pairs_map(t) =~= pairs_map(s).insert(k, v));
    } else {
        assert(t.drop_last() =~= s.drop_last().update(i, (k, v)));
        lemma_pairs_map_update(s.drop_last(), k, i, v);
        assert(pairs_map(t) =~= pairs_map(s).insert(k, v));
    }
}

pub proof fn lemma_pairs_map_len<K, V>(s: Seq<(K, V)>)
    requires
        unique_keys(s),
    ensures
        pairs_map(s).dom().finite(),
        pairs_map(s).dom().len() == s.len(),
    decreases s.len(),
{
    if s.len() > 0 {
        let r = s.drop_last();
        lemma_pairs_map_len(r);
        lemma_pairs_map_absent(r, s.last().0);
    }
}

pub open spec fn text_pairs(s: Seq<(String, String)>) -> Seq<(Seq<char>, Seq<char>)> {
    s.map_values(|e: (String, String)| (e.0@, e.1@))
}

/// A map from strings to strings; inserting an existing key replaces its value.
pub struct TextMap {
    entries: Vec<(String, String)>,
}

impl View for TextMap {
    type V = Map<Seq<char>, Seq<char>>;

    closed spec fn view(&self) -> Map<Seq<char>, Seq<char>> {
        pairs_map(text_pairs(self.entries@))
    }
}

impl TextMap {
    #[verifier::type_invariant]
    closed spec fn keys_unique(&self) -> bool {
        unique_keys(text_pairs(self.entries@))
    }

    pub fn new() -> (m: TextMap)
        ensures
            m@ == Map::<Seq<char>, Seq<char>>::empty(),
    {
        let m = TextMap { entries: Vec::new() };
        assert(text_pairs(m.entries@) =~= Seq::empty());
        m
    }

    /// The position of the last entry for `key`, if there is one.
    fn find(&self, key: &str) -> (r: Option<usize>)
        ensures
            r is None <==> !self@.contains_key(key@),
            r matches Some(i) ==> is_last_key(text_pairs(self.entries@), key@, i as int)
                && self@[key@] == self.entries@[i as int].1@,
    {
        let ghost s = text_pairs(self.entries@);
        let mut i: usize = self.entries.len();
        while i > 0
            invariant
                s == text_pairs(self.entries@),
                i <= self.entries@.len(),
                forall|j: int| i <= j < s.len() ==> s[j].0 != key@,
            decreases i,
        {
            i -= 1;
            if crate::text::text_eq(self.entries[i].0.as_str(), key) {
                proof {
                    lemma_pairs_map_last(s, key@, i as int);
                }
                return Some(i);
            }
        }
        proof {
            lemma_pairs_map_absent(s, key@);
        }
        None
    }

    /// The value stored under `key`.
    pub fn get(&self, key: &str) -> (r: Option<&String>)
        ensures
            r is Some <==> self@.contains_key(key@),
            r matches Some(v) ==> v@ == self@[key@],
    {
        match self.find(key) {
            Some(i) => Some(&self.entries[i].1),
            None => None,
        }
    }

    pub fn contains_key(&self, key: &str) -> (r: bool)
        ensures
            r == self@.contains_key(key@),
    {
        self.find(key).is_some()
    }

    /// Stores `value` under `key`, replacing any earlier value.
    pub fn insert(&mut self, key: String, value: String)
        ensures
            final(self)@ == old(self)@.insert(key@, value@),
    {
        let found = self.find(key.as_str());
        let mut held = TextMap::new();
        std::mem::swap(self, &mut held);
        proof {
            use_type_invariant(&held);
        }
        let TextMap { mut entries } = held;
        let ghost s = text_pairs(entries@);
        let ghost kv = key@;
        let ghost vv = value@;
        match found {
            Some(i) => {
                proof {
                    lemma_pairs_map_update(s, kv, i as int, vv);
                }
                entries.set(i, (key, value));
                assert(text_pairs(entries@) =~= s.update(i as int, (kv, vv)));
            },
            None => {
                proof {
                    lemma_pairs_map_push(s, kv, vv);
                    assert forall|j: int| 0 <= j < s.len() implies s[j].0 != kv by {
                        if s[j].0 == kv {
                            lemma_pairs_map_last(s, kv, j);
                        }
                    }
                }
                entries.push((key, value));
                assert(text_pairs(entries@) =~= s.push((kv, vv)));
            },
        }
        *self = TextMap { entries };
    }

    /// The number of keys.
    pub fn len(&self) -> (r: usize)
        ensures
            r == self@.dom().len(),
    {
        proof {
            use_type_invariant(self);
            lemma_pairs_map_len(text_pairs(self.entries@));
        }
        self.entries.len()
    }

    pub fn is_empty(&self) -> (r: bool)
        ensures
            r == (self@.dom().len() == 0),
    {
        self.len() == 0
    }
}

} // verus!
