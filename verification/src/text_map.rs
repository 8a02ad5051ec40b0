//! A map from strings to values.
use vstd::prelude::*;
use crate::text::str_eq;

verus! {

/// A map from strings to values. Each key stands in it once; the entries keep
/// the order in which the keys came.
#[derive(Debug)]
pub struct TextMap<V> {
    entries: Vec<(String, V)>,
}

pub open spec fn key_at<V>(entries: Seq<(String, V)>, key: Seq<char>, i: int) -> bool {
    0 <= i < entries.len() && entries[i].0@ == key
}

pub open spec fn has_key<V>(entries: Seq<(String, V)>, key: Seq<char>) -> bool {
    exists|i: int| key_at(entries, key, i)
}

pub open spec fn keys_distinct<V>(entries: Seq<(String, V)>) -> bool {
    forall|i: int, j: int|
        0 <= i < entries.len() && 0 <= j < entries.len() && i != j ==> (#[trigger] entries[i]).0@
            != (#[trigger] entries[j]).0@
}

/// The map of a list of entries with distinct keys.
pub open spec fn map_of<V>(entries: Seq<(String, V)>) -> Map<Seq<char>, V> {
    Map::new(
        |k: Seq<char>| has_key(entries, k),
        |k: Seq<char>| entries[choose|i: int| key_at(entries, k, i)].1,
    )
}

proof fn lemma_entry<V>(entries: Seq<(String, V)>, i: int)
    requires
        keys_distinct(entries),
        0 <= i < entries.len(),
    ensures
        map_of(entries).dom().contains(entries[i].0@),
        map_of(entries)[entries[i].0@] == entries[i].1,
{
    let key = entries[i].0@;
    assert(key_at(entries, key, i));
    let j = choose|j: int| key_at(entries, key, j);
    assert(key_at(entries, key, j));
    assert(i == j);
}

proof fn lemma_push<V>(entries: Seq<(String, V)>, key: String, value: V)
    requires
        keys_distinct(entries),
        !has_key(entries, key@),
    ensures
        keys_distinct(entries.push((key, value))),
        map_of(entries.push((key, value))) == map_of(entries).insert(key@, value),
{
    let after = entries.push((key, value));
    assert forall|i: int| 0 <= i < entries.len() implies (#[trigger] entries[i]).0@ != key@ by {
        if entries[i].0@ == key@ {
            assert(key_at(entries, key@, i));
        }
    }
    assert forall|i: int, j: int|
        0 <= i < after.len() && 0 <= j < after.len() && i != j implies (#[trigger] after[i]).0@ != (
    #[trigger] after[j]).0@ by {
        if i < entries.len() {
            assert(after[i] == entries[i]);
        }
        if j < entries.len() {
            assert(after[j] == entries[j]);
        }
    }
    assert forall|k: Seq<char>| #[trigger]
        map_of(after).dom().contains(k) == map_of(entries).insert(key@, value).dom().contains(k) by {
        if has_key(entries, k) {
            let i = choose|i: int| key_at(entries, k, i);
            assert(key_at(after, k, i));
        }
        if has_key(after, k) {
            let i = choose|i: int| key_at(after, k, i);
            if i < entries.len() {
                assert(key_at(entries, k, i));
            }
        }
        if k == key@ {
            assert(key_at(after, k, entries.len() as int));
        }
    }
    assert forall|k: Seq<char>| #[trigger] map_of(after).dom().contains(k) implies map_of(after)[k]
        == map_of(entries).insert(key@, value)[k] by {
        let i = choose|i: int| key_at(after, k, i);
        lemma_entry(after, i);
        if i < entries.len() {
            assert(after[i] == entries[i]);
            lemma_entry(entries, i);
        }
    }
    assert(map_of(after) =~= map_of(entries).insert(key@, value));
}

proof fn lemma_update<V>(entries: Seq<(String, V)>, at: int, value: V)
    requires
        keys_distinct(entries),
        0 <= at < entries.len(),
    ensures
        keys_distinct(entries.update(at, (entries[at].0, value))),
        map_of(entries.update(at, (entries[at].0, value))) == map_of(entries).insert(
            entries[at].0@,
            value,
        ),
{
    let after = entries.update(at, (entries[at].0, value));
    let key = entries[at].0@;
    assert forall|i: int| 0 <= i < after.len() implies (#[trigger] after[i]).0@
        == entries[i].0@ by {}
    assert(keys_distinct(after)) by {
        assert forall|i: int, j: int|
            0 <= i < after.len() && 0 <= j < after.len() && i != j implies (#[trigger] after[i]).0@
            != (#[trigger] after[j]).0@ by {
            assert(entries[i].0@ != entries[j].0@);
        }
    }
    assert forall|k: Seq<char>| #[trigger]
        map_of(after).dom().contains(k) == map_of(entries).insert(key, value).dom().contains(k) by {
        if has_key(entries, k) {
            let i = choose|i: int| key_at(entries, k, i);
            assert(key_at(after, k, i));
        }
        if has_key(after, k) {
            let i = choose|i: int| key_at(after, k, i);
            assert(key_at(entries, k, i));
        }
        assert(key_at(after, key, at));
    }
    assert forall|k: Seq<char>| #[trigger] map_of(after).dom().contains(k) implies map_of(after)[k]
        == map_of(entries).insert(key, value)[k] by {
        let i = choose|i: int| key_at(after, k, i);
        lemma_entry(after, i);
        lemma_entry(entries, i);
        if k == key {
            assert(i == at) by {
                if i != at {
                    assert(entries[i].0@ != entries[at].0@);
                }
            }
        }
    }
    assert(map_of(after) =~= map_of(entries).insert(key, value));
}

impl<V> View for TextMap<V> {
    type V = Map<Seq<char>, V>;

    closed spec fn view(&self) -> Map<Seq<char>, V> {
        map_of(self.entries@)
    }
}

impl<V> TextMap<V> {
    #[verifier::type_invariant]
    spec fn well_formed(self) -> bool {
        keys_distinct(self.entries@)
    }

    /// The map that holds nothing.
    pub fn new() -> (r: TextMap<V>)
        ensures
            r@ == Map::<Seq<char>, V>::empty(),
    {
        let r = TextMap { entries: Vec::new() };
        proof {
            assert(r@ =~= Map::<Seq<char>, V>::empty());
        }
        r
    }

    /// Where the key stands.
    fn position(&self, key: &str) -> (r: Option<usize>)
        ensures
            match r {
                Some(i) => key_at(self.entries@, key@, i as int),
                None => !has_key(self.entries@, key@),
            },
    {
        let mut i: usize = 0;
        while i < self.entries.len()
            invariant
                i <= self.entries.len(),
                forall|k: int| 0 <= k < i ==> (#[trigger] self.entries@[k]).0@ != key@,
            decreases self.entries.len() - i,
        {
            if str_eq(self.entries[i].0.as_str(), key) {
                return Some(i);
            }
            i = i + 1;
        }
        None
    }

    /// The value of a key.
    pub fn get(&self, key: &str) -> (r: Option<&V>)
        ensures
            match r {
                Some(v) => self@.dom().contains(key@) && self@[key@] == *v,
                None => !self@.dom().contains(key@),
            },
    {
        proof {
            use_type_invariant(self);
        }
        match self.position(key) {
            Some(i) => {
                proof {
                    lemma_entry(self.entries@, i as int);
                }
                Some(&self.entries[i].1)
            },
            None => None,
        }
    }

    /// Gives a key its value, in place of the one it had.
    pub fn insert(&mut self, key: &str, value: V)
        ensures
            final(self)@ == old(self)@.insert(key@, value),
    {
        proof {
            use_type_invariant(&*self);
        }
        let at = self.position(key);
        let mut entries: Vec<(String, V)> = Vec::new();
        std::mem::swap(&mut entries, &mut self.entries);
        match at {
            Some(i) => {
                let name = entries[i].0.clone();
                proof {
                    lemma_update(entries@, i as int, value);
                }
                entries.set(i, (name, value));
            },
            None => {
                let name = key.to_owned();
                proof {
                    lemma_push(entries@, name, value);
                }
                entries.push((name, value));
            },
        }
        self.entries = entries;
    }

    /// How many keys there are. Each of them has one entry.
    pub fn len(&self) -> (r: usize)
        ensures
            r == self.entries_model().len(),
            keys_distinct(self.entries_model()),
    {
        proof {
            use_type_invariant(self);
        }
        self.entries.len()
    }

    /// The entries in the order in which their keys came.
    pub closed spec fn entries_model(&self) -> Seq<(String, V)> {
        self.entries@
    }

    /// The entry at a place.
    pub fn entry(&self, i: usize) -> (r: (&str, &V))
        requires
            i < self.entries_model().len(),
        ensures
            self.entries_model()[i as int].0@ == r.0@,
            self.entries_model()[i as int].1 == *r.1,
            self@.dom().contains(r.0@),
            self@[r.0@] == *r.1,
    {
        proof {
            use_type_invariant(self);
            lemma_entry(self.entries@, i as int);
        }
        (self.entries[i].0.as_str(), &self.entries[i].1)
    }
}

/// Every key of a map stands at one place of its entries.
pub proof fn every_key_has_an_entry<V>(m: &TextMap<V>, key: Seq<char>)
    requires
        m@.dom().contains(key),
    ensures
        exists|i: int| 0 <= i < m.entries_model().len() && #[trigger] m.entries_model()[i].0@ == key,
{
    let i = choose|i: int| key_at(m.entries@, key, i);
    assert(key_at(m.entries@, key, i));
    assert(m.entries_model()[i].0@ == key);
}

/// The texts that a map of strings gives.
pub open spec fn texts_map(m: Map<Seq<char>, String>) -> Map<Seq<char>, Seq<char>> {
    m.map_values(|s: String| s@)
}

} // verus!
