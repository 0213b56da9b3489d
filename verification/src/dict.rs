use vstd::prelude::*;

use crate::text::str_eq;

verus! {

/// A key-value pair of strings, as characters.
pub type Entry = (Seq<char>, Seq<char>);

/// No key occurs twice among the entries.
pub open spec fn keys_distinct(e: Seq<Entry>) -> bool {
    forall|i: int, j: int| 0 <= i < e.len() && 0 <= j < e.len() && i != j ==> e[i].0 != e[j].0
}

/// The position of key `k` among the entries, or -1 when it does not occur.
pub open spec fn key_position(e: Seq<Entry>, k: Seq<char>) -> int
    decreases e.len(),
{
    if e.len() == 0 {
        -1
    } else if e.last().0 == k {
        e.len() - 1
    } else {
        key_position(e.drop_last(), k)
    }
}

/// The entries after storing `v` under `k`: the value of an existing key is replaced
/// in place, a new key is appended.
pub open spec fn entries_insert(e: Seq<Entry>, k: Seq<char>, v: Seq<char>) -> Seq<Entry> {
    let j = key_position(e, k);
    if j < 0 {
        e.push((k, v))
    } else {
        e.update(j, (k, v))
    }
}

/// The entries after storing each pair in turn.
pub open spec fn entries_insert_all(pairs: Seq<Entry>) -> Seq<Entry>
    decreases pairs.len(),
{
    if pairs.len() == 0 {
        Seq::empty()
    } else {
        let e = entries_insert_all(pairs.drop_last());
        entries_insert(e, pairs.last().0, pairs.last().1)
    }
}

/// The map that the entries describe.
pub open spec fn entries_map(e: Seq<Entry>) -> Map<Seq<char>, Seq<char>>
    decreases e.len(),
{
    if e.len() == 0 {
        Map::empty()
    } else {
        entries_map(e.drop_last()).insert(e.last().0, e.last().1)
    }
}

/// Where a key stands among the entries: its position holds it, no position before
/// the last one holding it does when the keys are distinct, and -1 means it is absent.
pub proof fn lemma_key_position(e: Seq<Entry>, k: Seq<char>)
    ensures
        -1 <= key_position(e, k) < e.len(),
        key_position(e, k) >= 0 ==> e[key_position(e, k)].0 == k,
        key_position(e, k) < 0 <==> forall|i: int| 0 <= i < e.len() ==> e[i].0 != k,
        keys_distinct(e) ==> forall|i: int| 0 <= i < e.len() && e[i].0 == k ==> key_position(e, k) == i,
    decreases e.len(),
{
    if e.len() > 0 {
        lemma_key_position(e.drop_last(), k);
        if e.last().0 != k {
            assert forall|i: int| 0 <= i < e.len() - 1 implies e[i] == e.drop_last()[i] by {}
        }
    }
}

/// Storing a key keeps the keys distinct.
pub proof fn lemma_insert_distinct(e: Seq<Entry>, k: Seq<char>, v: Seq<char>)
    requires
        keys_distinct(e),
    ensures
        keys_distinct(entries_insert(e, k, v)),
{
    lemma_key_position(e, k);
}

/// Storing pairs whose keys are distinct, one after another, gives those pairs back.
pub proof fn lemma_insert_all_distinct(pairs: Seq<Entry>)
    requires
        keys_distinct(pairs),
    ensures
        entries_insert_all(pairs) == pairs,
    decreases pairs.len(),
{
    if pairs.len() > 0 {
        let init = pairs.drop_last();
        assert(keys_distinct(init));
        lemma_insert_all_distinct(init);
        lemma_key_position(init, pairs.last().0);
        assert(init.push(pairs.last()) =~= pairs);
    }
}

/// A dictionary of strings, keyed by string, in insertion order.
#[derive(Debug, PartialEq, Eq)]
pub struct Dict {
    entries: Vec<(String, String)>,
}

impl Dict {
    /// The entries, as characters, in insertion order.
    pub closed spec fn entries(&self) -> Seq<Entry> {
        self.entries@.map_values(|p: (String, String)| (p.0@, p.1@))
    }

    #[verifier::type_invariant]
    closed spec fn distinct(&self) -> bool {
        keys_distinct(self.entries())
    }

    /// Creates an empty dictionary.
    pub fn new() -> (d: Dict)
        ensures
            d.entries() == Seq::<Entry>::empty(),
    {
        let d = Dict { entries: Vec::new() };
        assert(d.entries() =~= Seq::<Entry>::empty());
        d
    }

    /// The number of entries.
    pub fn len(&self) -> (n: usize)
        ensures
            n == self.entries().len(),
    {
        self.entries.len()
    }

    /// The entry at position `i`.
    pub fn entry(&self, i: usize) -> (p: (&String, &String))
        requires
            i < self.entries().len(),
        ensures
            p.0@ == self.entries()[i as int].0,
            p.1@ == self.entries()[i as int].1,
    {
        let e = &self.entries[i];
        (&e.0, &e.1)
    }

    /// The position of `key`, when present.
    fn position(&self, key: &str) -> (r: Option<usize>)
        ensures
            r matches Some(j) ==> j == key_position(self.entries(), key@) && j < self.entries@.len(),
            r is None ==> key_position(self.entries(), key@) < 0,
    {
        proof {
            use_type_invariant(self);
            lemma_key_position(self.entries(), key@);
        }
        let mut j: usize = 0;
        while j < self.entries.len()
            invariant
                0 <= j <= self.entries@.len(),
                self.entries().len() == self.entries@.len(),
                keys_distinct(self.entries()),
                forall|i: int| 0 <= i < j ==> self.entries()[i].0 != key@,
                -1 <= key_position(self.entries(), key@) < self.entries().len(),
                forall|i: int| 0 <= i < self.entries().len() && self.entries()[i].0 == key@
                    ==> key_position(self.entries(), key@) == i,
                key_position(self.entries(), key@) < 0 <==> forall|i: int|
                    0 <= i < self.entries().len() ==> self.entries()[i].0 != key@,
            decreases self.entries@.len() - j,
        {
            if str_eq(self.entries[j].0.as_str(), key) {
                assert(self.entries()[j as int].0 == key@);
                return Some(j);
            }
            j = j + 1;
        }
        None
    }

    /// Whether `key` is present.
    pub fn contains_key(&self, key: &str) -> (r: bool)
        ensures
            r == (key_position(self.entries(), key@) >= 0),
            r == entries_map(self.entries()).contains_key(key@),
    {
        proof {
            use_type_invariant(self);
            lemma_entries_map(self.entries(), key@);
        }
        self.position(key).is_some()
    }

    /// The value stored under `key`, when present.
    pub fn get(&self, key: &str) -> (r: Option<&String>)
        ensures
            r matches Some(v) ==> key_position(self.entries(), key@) >= 0 && v@ == self.entries()[key_position(self.entries(), key@)].1,
            r is None ==> key_position(self.entries(), key@) < 0,
            r matches Some(v) ==> entries_map(self.entries()).contains_key(key@) && entries_map(self.entries())[key@] == v@,
            r is None ==> !entries_map(self.entries()).contains_key(key@),
    {
        proof {
            use_type_invariant(self);
            lemma_entries_map(self.entries(), key@);
        }
        match self.position(key) {
            Some(j) => {
                assert(self.entries()[j as int] == (self.entries@[j as int].0@, self.entries@[j as int].1@));
                Some(&self.entries[j].1)
            },
            None => None,
        }
    }

    /// Stores `value` under `key`, replacing the value of an existing key.
    pub fn insert(&mut self, key: String, value: String)
        ensures
            final(self).entries() == entries_insert(old(self).entries(), key@, value@),
            final(self)@ == old(self)@.insert(key@, value@),
    {
        proof {
            use_type_invariant(&*self);
            lemma_key_position(self.entries(), key@);
            lemma_insert_distinct(self.entries(), key@, value@);
            lemma_insert_view(self.entries(), key@, value@);
        }
        let pos = self.position(key.as_str());
        let mut entries: Vec<(String, String)> = Vec::new();
        std::mem::swap(&mut entries, &mut self.entries);
        let ghost before = entries@;
        match pos {
            Some(j) => {
                entries.set(j, (key, value));
            },
            None => {
                entries.push((key, value));
            },
        }
        proof {
            let f = |p: (String, String)| (p.0@, p.1@);
            assert(entries@.map_values(f) =~= entries_insert(before.map_values(f), key@, value@));
        }
        self.entries = entries;
    }
}

/// The map of the entries holds each key at its position's value.
pub proof fn lemma_entries_map(e: Seq<Entry>, k: Seq<char>)
    requires
        keys_distinct(e),
    ensures
        entries_map(e).contains_key(k) <==> key_position(e, k) >= 0,
        key_position(e, k) >= 0 ==> entries_map(e)[k] == e[key_position(e, k)].1,
    decreases e.len(),
{
    if e.len() > 0 {
        let init = e.drop_last();
        assert(keys_distinct(init));
        lemma_entries_map(init, k);
        lemma_key_position(e, k);
        lemma_key_position(init, k);
    }
}

/// Storing a value under a key in entries whose keys are distinct stores it in the map
/// they describe: a read of that key gives the value back, every other key keeps its own.
pub proof fn lemma_insert_view(e: Seq<Entry>, k: Seq<char>, v: Seq<char>)
    requires
        keys_distinct(e),
    ensures
        entries_map(entries_insert(e, k, v)) == entries_map(e).insert(k, v),
    decreases e.len(),
{
    lemma_key_position(e, k);
    let j = key_position(e, k);
    if j < 0 {
        assert(e.push((k, v)).drop_last() =~= e);
    } else {
        let init = e.drop_last();
        let u = e.update(j, (k, v));
        if j == e.len() - 1 {
            assert(u.drop_last() =~= init);
            assert(entries_map(u) =~= entries_map(e).insert(k, v));
        } else {
            assert(keys_distinct(init));
            lemma_key_position(init, k);
            assert(init[j].0 == k);
            assert(key_position(init, k) == j);
            lemma_insert_view(init, k, v);
            assert(u.drop_last() =~= init.update(j, (k, v)));
            assert(u.last() == e.last());
            assert(e.last().0 != k);
            assert(entries_map(u) =~= entries_map(e).insert(k, v));
        }
    }
}

impl View for Dict {
    type V = Map<Seq<char>, Seq<char>>;

    open spec fn view(&self) -> Map<Seq<char>, Seq<char>> {
        entries_map(self.entries())
    }
}

impl DeepView for Dict {
    type V = Seq<Entry>;

    open spec fn deep_view(&self) -> Seq<Entry> {
        self.entries()
    }
}

} // verus!
