//! A map keyed by text, as the labels, environments and variable tables of
//! this library need one: at most one entry per key, in the order the keys
//! were first inserted.

use vstd::prelude::*;

use crate::text::str_eq;

verus! {

/// The index of the last pair whose key is `key`, or -1 when there is none.
pub open spec fn last_index_of<V>(pairs: Seq<(Seq<char>, V)>, key: Seq<char>) -> int
    decreases pairs.len(),
{
    if pairs.len() == 0 {
        -1
    } else if pairs.last().0 == key {
        pairs.len() - 1
    } else {
        last_index_of(pairs.drop_last(), key)
    }
}

/// The map a sequence of pairs denotes, a later pair winning over an
/// earlier one with the same key.
pub open spec fn pairs_to_map<V>(pairs: Seq<(Seq<char>, V)>) -> Map<Seq<char>, V> {
    Map::new(
        |k: Seq<char>| last_index_of(pairs, k) >= 0,
        |k: Seq<char>| pairs[last_index_of(pairs, k)].1,
    )
}

/// No key occurs twice.
pub open spec fn keys_distinct<V>(pairs: Seq<(Seq<char>, V)>) -> bool {
    forall|i: int, j: int| 0 <= i < j < pairs.len() ==> #[trigger] pairs[i].0 != #[trigger] pairs[j].0
}

/// `last_index_of` is -1 or a position holding `key`, and -1 exactly
/// when no entry holds it.
pub proof fn lemma_last_index_of_bounds<V>(pairs: Seq<(Seq<char>, V)>, key: Seq<char>)
    ensures
        -1 <= last_index_of(pairs, key) < pairs.len(),
        last_index_of(pairs, key) >= 0 ==> pairs[last_index_of(pairs, key)].0 == key,
        last_index_of(pairs, key) == -1 <==> (forall|i: int| 0 <= i < pairs.len() ==> #[trigger] pairs[i].0 != key),
    decreases pairs.len(),
{
    if pairs.len() > 0 {
        lemma_last_index_of_bounds(pairs.drop_last(), key);
        if pairs.last().0 != key {
            assert forall|i: int| 0 <= i < pairs.len() - 1 implies #[trigger] pairs[i].0 == pairs.drop_last()[i].0 by {}
        }
    }
}

/// With distinct keys, each entry is the last one holding its key.
pub proof fn lemma_last_index_of_distinct<V>(pairs: Seq<(Seq<char>, V)>, i: int)
    requires
        keys_distinct(pairs),
        0 <= i < pairs.len(),
    ensures
        last_index_of(pairs, pairs[i].0) == i,
    decreases pairs.len(),
{
    if i < pairs.len() - 1 {
        assert(pairs.last().0 != pairs[i].0) by {
            assert(pairs[i].0 != pairs[pairs.len() - 1].0);
        }
        assert(keys_distinct(pairs.drop_last())) by {
            assert forall|a: int, b: int| 0 <= a < b < pairs.drop_last().len() implies
                #[trigger] pairs.drop_last()[a].0 != #[trigger] pairs.drop_last()[b].0 by {
                assert(pairs[a].0 != pairs[b].0);
            }
        }
        lemma_last_index_of_distinct(pairs.drop_last(), i);
        assert(pairs.drop_last()[i] == pairs[i]);
    }
}

/// An appended entry is the last one holding its key; the others keep
/// their positions.
pub proof fn lemma_last_index_of_push<V>(pairs: Seq<(Seq<char>, V)>, p: (Seq<char>, V), key: Seq<char>)
    ensures
        last_index_of(pairs.push(p), key) == if p.0 == key { pairs.len() as int } else { last_index_of(pairs, key) },
{
    assert(pairs.push(p).drop_last() == pairs);
}

/// Replacing an entry's value moves no key.
pub proof fn lemma_last_index_of_update<V>(pairs: Seq<(Seq<char>, V)>, i: int, v: V, key: Seq<char>)
    requires
        0 <= i < pairs.len(),
    ensures
        last_index_of(pairs.update(i, (pairs[i].0, v)), key) == last_index_of(pairs, key),
    decreases pairs.len(),
{
    let updated = pairs.update(i, (pairs[i].0, v));
    if i == pairs.len() - 1 {
        assert(updated.drop_last() == pairs.drop_last());
    } else {
        assert(updated.drop_last() == pairs.drop_last().update(i, (pairs[i].0, v)));
        lemma_last_index_of_update(pairs.drop_last(), i, v, key);
    }
}

/// Entries with each key taken as its characters.
pub open spec fn pairs_of<V>(entries: Seq<(String, V)>) -> Seq<(Seq<char>, V)> {
    entries.map_values(|e: (String, V)| (e.0@, e.1))
}

/// A map from text keys to values, holding one entry per key in the order
/// the keys were first inserted.
pub struct TextMap<V> {
    entries: Vec<(String, V)>,
}

impl<V> TextMap<V> {
    /// The entries, with each key as its characters.
    pub closed spec fn pairs(&self) -> Seq<(Seq<char>, V)> {
        pairs_of(self.entries@)
    }

    #[verifier::type_invariant]
    closed spec fn inv(self) -> bool {
        keys_distinct(self.pairs())
    }

    /// The keys, in insertion order.
    pub open spec fn key_seq(&self) -> Seq<Seq<char>> {
        self.pairs().map_values(|p: (Seq<char>, V)| p.0)
    }

    /// An empty map.
    pub fn new() -> (m: Self)
        ensures
            m@ == Map::<Seq<char>, V>::empty(),
            m.pairs().len() == 0,
    {
        let m = TextMap { entries: Vec::new() };
        assert(m@ =~= Map::<Seq<char>, V>::empty());
        m
    }

    /// How many entries there are — one per distinct key.
    pub fn len(&self) -> (n: usize)
        ensures
            n == self.pairs().len(),
    {
        self.entries.len()
    }

    /// Whether there are no entries.
    pub fn is_empty(&self) -> (empty: bool)
        ensures
            empty == (self.pairs().len() == 0),
            empty == (self@.dom() == Set::<Seq<char>>::empty()),
    {
        proof {
            if self.pairs().len() > 0 {
                let k = self.pairs()[0].0;
                lemma_last_index_of_bounds(self.pairs(), k);
                assert(self@.dom().contains(k));
            } else {
                assert(self@.dom() =~= Set::<Seq<char>>::empty());
            }
        }
        self.entries.len() == 0
    }

    /// The position of `key` among the entries, if it has one.
    fn position(&self, key: &str) -> (i: Option<usize>)
        ensures
            match i {
                Some(i) => i < self.pairs().len() && self.pairs()[i as int].0 == key@
                    && last_index_of(self.pairs(), key@) == i,
                None => last_index_of(self.pairs(), key@) == -1,
            },
    {
        proof {
            use_type_invariant(self);
        }
        let mut i: usize = 0;
        while i < self.entries.len()
            invariant
                i <= self.entries.len(),
                self.pairs().len() == self.entries.len(),
                keys_distinct(self.pairs()),
                forall|j: int| 0 <= j < i ==> #[trigger] self.pairs()[j].0 != key@,
            decreases self.entries.len() - i,
        {
            if str_eq(self.entries[i].0.as_str(), key) {
                proof {
                    lemma_last_index_of_distinct(self.pairs(), i as int);
                }
                return Some(i);
            }
            i = i + 1;
        }
        proof {
            lemma_last_index_of_bounds(self.pairs(), key@);
        }
        None
    }

    /// The value stored under `key`.
    pub fn get(&self, key: &str) -> (v: Option<&V>)
        ensures
            v is Some <==> self@.contains_key(key@),
            v matches Some(v) ==> *v == self@[key@],
    {
        match self.position(key) {
            Some(i) => Some(&self.entries[i].1),
            None => None,
        }
    }

    /// Whether `key` has an entry.
    pub fn contains_key(&self, key: &str) -> (found: bool)
        ensures
            found == self@.contains_key(key@),
    {
        self.position(key).is_some()
    }

    /// The key of the `i`th entry, in insertion order.
    pub fn key_at(&self, i: usize) -> (k: &String)
        requires
            i < self.pairs().len(),
        ensures
            k@ == self.pairs()[i as int].0,
    {
        &self.entries[i].0
    }

    /// The value of the `i`th entry, in insertion order.
    pub fn value_at(&self, i: usize) -> (v: &V)
        requires
            i < self.pairs().len(),
        ensures
            *v == self.pairs()[i as int].1,
    {
        &self.entries[i].1
    }

    /// Stores `value` under `key`, replacing what was there; a new key goes
    /// after every existing one.
    pub fn insert(&mut self, key: String, value: V)
        ensures
            final(self)@ == old(self)@.insert(key@, value),
            old(self)@.contains_key(key@) ==> final(self).key_seq() == old(self).key_seq(),
            !old(self)@.contains_key(key@) ==> final(self).key_seq() == old(self).key_seq().push(key@),
    {
        proof {
            use_type_invariant(&*self);
        }
        let ghost old_pairs = self.pairs();
        let ghost k = key@;
        let position = self.position(key.as_str());
        let mut taken = TextMap { entries: Vec::new() };
        std::mem::swap(self, &mut taken);
        let TextMap { mut entries } = taken;
        proof {
            lemma_last_index_of_bounds(old_pairs, k);
        }
        match position {
            Some(i) => {
                entries.set(i, (key, value));
                let ghost new_pairs = pairs_of(entries@);
                proof {
                    assert(new_pairs =~= old_pairs.update(i as int, (old_pairs[i as int].0, value)));
                    assert(keys_distinct(new_pairs)) by {
                        assert forall|a: int, b: int| 0 <= a < b < new_pairs.len() implies
                            #[trigger] new_pairs[a].0 != #[trigger] new_pairs[b].0 by {
                            assert(old_pairs[a].0 != old_pairs[b].0);
                        }
                    }
                }
                *self = TextMap { entries };
                proof {
                    let expected = old(self)@.insert(k, value);
                    assert forall|q: Seq<char>| #[trigger] self@.contains_key(q) == expected.contains_key(q)
                        && (self@.contains_key(q) ==> self@[q] == expected[q]) by {
                        lemma_last_index_of_update(old_pairs, i as int, value, q);
                        lemma_last_index_of_bounds(old_pairs, q);
                    }
                    assert(self@ =~= expected);
                    assert(self.key_seq() =~= old(self).key_seq());
                }
            },
            None => {
                entries.push((key, value));
                let ghost new_pairs = pairs_of(entries@);
                proof {
                    assert(new_pairs =~= old_pairs.push((k, value)));
                    assert(keys_distinct(new_pairs)) by {
                        assert forall|a: int, b: int| 0 <= a < b < new_pairs.len() implies
                            #[trigger] new_pairs[a].0 != #[trigger] new_pairs[b].0 by {
                            if b == old_pairs.len() {
                                assert(old_pairs[a].0 != k);
                            } else {
                                assert(old_pairs[a].0 != old_pairs[b].0);
                            }
                        }
                    }
                }
                *self = TextMap { entries };
                proof {
                    let expected = old(self)@.insert(k, value);
                    assert forall|q: Seq<char>| #[trigger] self@.contains_key(q) == expected.contains_key(q)
                        && (self@.contains_key(q) ==> self@[q] == expected[q]) by {
                        lemma_last_index_of_push(old_pairs, (k, value), q);
                        lemma_last_index_of_bounds(old_pairs, q);
                    }
                    assert(self@ =~= expected);
                    assert(self.key_seq() =~= old(self).key_seq().push(k));
                }
            },
        }
    }
}

impl TextMap<String> {
    /// The map with each value taken as its characters too.
    pub open spec fn text(&self) -> Map<Seq<char>, Seq<char>> {
        self@.map_values(|v: String| v@)
    }

    /// A copy of this map, entry for entry.
    pub fn duplicate(&self) -> (copy: Self)
        ensures
            copy@ == self@,
    {
        let mut copy: TextMap<String> = TextMap::new();
        let mut i: usize = 0;
        while i < self.len()
            invariant
                i <= self.pairs().len(),
                copy@ == pairs_to_map(self.pairs().take(i as int)),
            decreases self.pairs().len() - i,
        {
            let key = self.key_at(i).clone();
            let value = self.value_at(i).clone();
            let ghost before = copy@;
            copy.insert(key, value);
            proof {
                let taken = self.pairs().take(i as int);
                let p = self.pairs()[i as int];
                assert(self.pairs().take(i + 1) =~= taken.push(p));
                let expected = pairs_to_map(taken.push(p));
                assert forall|q: Seq<char>| #[trigger] copy@.contains_key(q) == expected.contains_key(q)
                    && (copy@.contains_key(q) ==> copy@[q] == expected[q]) by {
                    lemma_last_index_of_push(taken, p, q);
                    lemma_last_index_of_bounds(taken, q);
                }
                assert(copy@ =~= expected);
            }
            i = i + 1;
        }
        assert(self.pairs().take(i as int) =~= self.pairs());
        copy
    }
}

impl<V> View for TextMap<V> {
    type V = Map<Seq<char>, V>;

    open spec fn view(&self) -> Map<Seq<char>, V> {
        pairs_to_map(self.pairs())
    }
}

} // verus!
