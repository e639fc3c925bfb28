//! A map keyed by strings that keeps its keys in insertion order.
use vstd::prelude::*;

use crate::text::str_eq;

verus! {

/// The map described by a list of entries, later entries winning.
pub open spec fn map_of<V>(entries: Seq<(String, V)>) -> Map<Seq<char>, V>
    decreases entries.len(),
{
    if entries.len() == 0 {
        Map::<Seq<char>, V>::empty()
    } else {
        map_of(entries.drop_last()).insert(entries.last().0@, entries.last().1)
    }
}

/// The keys of a list of entries, in order.
pub open spec fn keys_of<V>(entries: Seq<(String, V)>) -> Seq<Seq<char>> {
    entries.map_values(|e: (String, V)| e.0@)
}

/// A map from strings to values. Each key occurs once; keys keep the order in
/// which they were first inserted.
pub struct StrMap<V> {
    entries: Vec<(String, V)>,
}

impl<V> View for StrMap<V> {
    type V = Map<Seq<char>, V>;

    closed spec fn view(&self) -> Map<Seq<char>, V> {
        map_of(self.entries@)
    }
}

proof fn lemma_map_of<V>(es: Seq<(String, V)>)
    requires
        keys_of(es).no_duplicates(),
    ensures
        map_of(es).dom() == keys_of(es).to_set(),
        forall|i: int| 0 <= i < es.len() ==> map_of(es)[#[trigger] es[i].0@] == es[i].1,
    decreases es.len(),
{
    if es.len() > 0 {
        let p = es.drop_last();
        assert(keys_of(p) =~= keys_of(es).drop_last());
        lemma_map_of(p);
        assert(keys_of(es) =~= keys_of(p).push(es.last().0@));
        assert(keys_of(es).to_set() =~= keys_of(p).to_set().insert(es.last().0@)) by {
            broadcast use vstd::seq_lib::group_seq_properties;
        }
        assert forall|i: int| 0 <= i < es.len() implies map_of(es)[#[trigger] es[i].0@] == es[i].1 by {
            if i < es.len() - 1 {
                assert(keys_of(es)[i] != keys_of(es)[es.len() - 1]);
                assert(p[i] == es[i]);
            }
        }
    }
}

impl<V> StrMap<V> {
    #[verifier::type_invariant]
    spec fn keys_unique(self) -> bool {
        keys_of(self.entries@).no_duplicates()
    }

    /// The keys in insertion order.
    pub closed spec fn key_seq(&self) -> Seq<Seq<char>> {
        keys_of(self.entries@)
    }

    /// An empty map.
    pub fn new() -> (r: Self)
        ensures
            r@ == Map::<Seq<char>, V>::empty(),
            r.key_seq() == Seq::<Seq<char>>::empty(),
    {
        let r = StrMap { entries: Vec::new() };
        proof {
            assert(keys_of(r.entries@) =~= Seq::<Seq<char>>::empty());
        }
        r
    }

    /// Number of keys. Also states that the insertion order lists each key of
    /// the map exactly once.
    pub fn len(&self) -> (r: usize)
        ensures
            r == self.key_seq().len(),
            self.key_seq().no_duplicates(),
            self@.dom() == self.key_seq().to_set(),
            self@.dom().finite(),
            self@.dom().len() == r,
    {
        proof {
            use_type_invariant(self);
            lemma_map_of(self.entries@);
            self.key_seq().unique_seq_to_set();
        }
        self.entries.len()
    }

    fn index_of(&self, key: &str) -> (r: Option<usize>)
        ensures
            match r {
                Some(i) => i < self.entries@.len() && self.entries@[i as int].0@ == key@,
                None => !keys_of(self.entries@).contains(key@),
            },
    {
        let mut i: usize = 0;
        while i < self.entries.len()
            invariant
                i <= self.entries@.len(),
                forall|k: int| 0 <= k < i ==> self.entries@[k].0@ != key@,
            decreases self.entries@.len() - i,
        {
            if str_eq(self.entries[i].0.as_str(), key) {
                return Some(i);
            }
            i += 1;
        }
        proof {
            if keys_of(self.entries@).contains(key@) {
                let k = choose|k: int| 0 <= k < keys_of(self.entries@).len() && keys_of(self.entries@)[k] == key@;
                assert(self.entries@[k].0@ == key@);
            }
        }
        None
    }

    /// The value stored under `key`.
    pub fn get(&self, key: &str) -> (r: Option<&V>)
        ensures
            match r {
                Some(v) => self@.contains_key(key@) && *v == self@[key@],
                None => !self@.contains_key(key@),
            },
    {
        proof {
            use_type_invariant(self);
            lemma_map_of(self.entries@);
        }
        match self.index_of(key) {
            Some(i) => {
                proof {
                    assert(keys_of(self.entries@)[i as int] == key@);
                }
                Some(&self.entries[i].1)
            },
            None => None,
        }
    }

    /// Whether `key` is present.
    pub fn contains_key(&self, key: &str) -> (r: bool)
        ensures
            r == self@.contains_key(key@),
    {
        proof {
            use_type_invariant(self);
            lemma_map_of(self.entries@);
        }
        let r = self.index_of(key);
        proof {
            if let Some(i) = r {
                assert(keys_of(self.entries@)[i as int] == key@);
                assert(keys_of(self.entries@).to_set().contains(key@));
            }
        }
        r.is_some()
    }

    /// Stores `value` under `key`, replacing any earlier value; a new key goes last.
    pub fn insert(&mut self, key: String, value: V)
        ensures
            final(self)@ == old(self)@.insert(key@, value),
            old(self)@.contains_key(key@) ==> final(self).key_seq() == old(self).key_seq(),
            !old(self)@.contains_key(key@) ==> final(self).key_seq() == old(self).key_seq().push(key@),
    {
        proof {
            use_type_invariant(&*self);
            lemma_map_of(self.entries@);
        }
        let ghost old_entries = self.entries@;
        match self.index_of(key.as_str()) {
            Some(i) => {
                let mut entries = Vec::new();
                std::mem::swap(&mut entries, &mut self.entries);
                entries.set(i, (key, value));
                proof {
                    let ne = entries@;
                    assert(keys_of(ne) =~= keys_of(old_entries));
                    lemma_map_of(ne);
                    assert(keys_of(old_entries)[i as int] == key@);
                    assert(map_of(old_entries).contains_key(key@));
                    assert(map_of(ne).dom() =~= map_of(old_entries).insert(key@, value).dom());
                    assert forall|k: Seq<char>| #[trigger] map_of(ne).contains_key(k) implies map_of(
                        ne,
                    )[k] == map_of(old_entries).insert(key@, value)[k] by {
                        assert(keys_of(ne).to_set().contains(k));
                        let j = choose|j: int| 0 <= j < keys_of(ne).len() && keys_of(ne)[j] == k;
                        assert(ne[j].0@ == k);
                        if j != i {
                            assert(ne[j] == old_entries[j]);
                            assert(keys_of(old_entries)[j] != keys_of(old_entries)[i as int]);
                        }
                    }
                    assert(map_of(ne) =~= map_of(old_entries).insert(key@, value));
                }
                self.entries = entries;
            },
            None => {
                let mut entries = Vec::new();
                std::mem::swap(&mut entries, &mut self.entries);
                entries.push((key, value));
                proof {
                    let ne = entries@;
                    assert(ne.drop_last() =~= old_entries);
                    assert(keys_of(ne) =~= keys_of(old_entries).push(key@));
                    assert(keys_of(ne).no_duplicates()) by {
                        assert forall|a: int, b: int|
                            0 <= a < keys_of(ne).len() && 0 <= b < keys_of(ne).len() && a != b implies keys_of(
                            ne,
                        )[a] != keys_of(ne)[b] by {
                            if a < old_entries.len() && b < old_entries.len() {
                            } else if a < old_entries.len() {
                                assert(keys_of(old_entries).contains(keys_of(ne)[a]));
                            } else {
                                assert(keys_of(old_entries).contains(keys_of(ne)[b]));
                            }
                        }
                    }
                }
                self.entries = entries;
            },
        }
    }

    /// The key at position `i` of the insertion order.
    pub fn key_at(&self, i: usize) -> (r: &String)
        requires
            i < self.key_seq().len(),
        ensures
            r@ == self.key_seq()[i as int],
    {
        &self.entries[i].0
    }

    /// The value stored under the key at position `i` of the insertion order.
    pub fn value_at(&self, i: usize) -> (r: &V)
        requires
            i < self.key_seq().len(),
        ensures
            self@.contains_key(self.key_seq()[i as int]),
            *r == self@[self.key_seq()[i as int]],
    {
        proof {
            use_type_invariant(self);
            lemma_map_of(self.entries@);
            assert(keys_of(self.entries@).contains(keys_of(self.entries@)[i as int]));
        }
        &self.entries[i].1
    }
}

} // verus!
