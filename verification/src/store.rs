//! An in-memory key-value store with a map view.
//!
//! The handler is written against this explicit store interface instead of a
//! host runtime's scoped store handle: the host injects the state as a value
//! and performs the durable reads and writes itself.  Keys and values are
//! byte strings; the view of a store is the map from key bytes to value
//! bytes.

use vstd::prelude::*;

verus! {

/// The map described by an association list, later entries overriding
/// earlier ones (the store keeps its keys unique, so no overriding occurs).
pub open spec fn map_of(s: Seq<(Vec<u8>, Vec<u8>)>) -> Map<Seq<u8>, Seq<u8>>
    decreases s.len(),
{
    if s.len() == 0 {
        Map::empty()
    } else {
        map_of(s.drop_last()).insert(s.last().0@, s.last().1@)
    }
}

/// No two entries share a key.
pub open spec fn keys_unique(s: Seq<(Vec<u8>, Vec<u8>)>) -> bool {
    forall|i: int, j: int| 0 <= i < j < s.len() ==> s[i].0@ != s[j].0@
}

/// A key held by no entry is not in the map.
proof fn lemma_map_of_absent(s: Seq<(Vec<u8>, Vec<u8>)>, k: Seq<u8>)
    requires
        forall|i: int| 0 <= i < s.len() ==> s[i].0@ != k,
    ensures
        !map_of(s).dom().contains(k),
    decreases s.len(),
{
    if s.len() > 0 {
        assert(forall|i: int| 0 <= i < s.drop_last().len() ==> s.drop_last()[i] == s[i]);
        lemma_map_of_absent(s.drop_last(), k);
    }
}

/// With unique keys, the entry at index `i` gives the map's value at its key.
proof fn lemma_map_of_found(s: Seq<(Vec<u8>, Vec<u8>)>, i: int)
    requires
        keys_unique(s),
        0 <= i < s.len(),
    ensures
        map_of(s).dom().contains(s[i].0@),
        map_of(s)[s[i].0@] == s[i].1@,
    decreases s.len(),
{
    if i < s.len() - 1 {
        assert(forall|a: int| 0 <= a < s.drop_last().len() ==> s.drop_last()[a] == s[a]);
        assert(keys_unique(s.drop_last()));
        lemma_map_of_found(s.drop_last(), i);
    }
}

/// Replacing the entry at index `i` by one with the same key updates the
/// map at that key and nothing else.
proof fn lemma_map_of_update(s: Seq<(Vec<u8>, Vec<u8>)>, i: int, kv: (Vec<u8>, Vec<u8>))
    requires
        keys_unique(s),
        0 <= i < s.len(),
        kv.0@ == s[i].0@,
    ensures
        map_of(s.update(i, kv)) == map_of(s).insert(kv.0@, kv.1@),
    decreases s.len(),
{
    let s2 = s.update(i, kv);
    if i == s.len() - 1 {
        assert(s2.drop_last() =~= s.drop_last());
        assert(s2.last() == kv);
        assert(map_of(s2) =~= map_of(s).insert(kv.0@, kv.1@));
    } else {
        assert(forall|a: int| 0 <= a < s.drop_last().len() ==> s.drop_last()[a] == s[a]);
        assert(keys_unique(s.drop_last()));
        assert(s2.drop_last() =~= s.drop_last().update(i, kv));
        lemma_map_of_update(s.drop_last(), i, kv);
        assert(s2.last() == s.last());
        // The two insertions are at distinct keys, so they commute.
        assert(s.last().0@ != kv.0@);
        assert(map_of(s2) =~= map_of(s).insert(kv.0@, kv.1@));
    }
}

/// A key-value store over byte strings, seen in specifications as the map
/// from keys to values.
pub struct KvStore {
    entries: Vec<(Vec<u8>, Vec<u8>)>,
}

impl KvStore {
    #[verifier::type_invariant]
    spec fn wf(self) -> bool {
        keys_unique(self.entries@)
    }

    pub closed spec fn view(&self) -> Map<Seq<u8>, Seq<u8>> {
        map_of(self.entries@)
    }

    /// A fresh store holding nothing.
    pub fn new() -> (s: KvStore)
        ensures
            s@ == Map::<Seq<u8>, Seq<u8>>::empty(),
    {
        KvStore { entries: Vec::new() }
    }

    /// The index of the entry holding `key`, where there is one.
    #[verifier::loop_isolation(false)]
    fn find_key(entries: &Vec<(Vec<u8>, Vec<u8>)>, key: &Vec<u8>) -> (r: Option<usize>)
        ensures
            match r {
                Some(i) => i < entries@.len() && entries@[i as int].0@ == key@,
                None => forall|j: int| 0 <= j < entries@.len() ==> entries@[j].0@ != key@,
            },
    {
        let n = entries.len();
        let mut i: usize = 0;
        while i < n
            invariant
                i <= n,
                forall|j: int| 0 <= j < i ==> entries@[j].0@ != key@,
            decreases n - i,
        {
            if entries[i].0 == *key {
                proof {
                    assert(entries@[i as int].0@ =~= key@);
                }
                return Some(i);
            }
            i += 1;
        }
        None
    }

    /// The value at `key`, or `None` where the key is absent.
    pub fn get(&self, key: &Vec<u8>) -> (r: Option<&Vec<u8>>)
        ensures
            match r {
                Some(v) => self@.dom().contains(key@) && v@ == self@[key@],
                None => !self@.dom().contains(key@),
            },
    {
        proof {
            use_type_invariant(&*self);
        }
        match Self::find_key(&self.entries, key) {
            Some(i) => {
                proof {
                    lemma_map_of_found(self.entries@, i as int);
                }
                Some(&self.entries[i].1)
            },
            None => {
                proof {
                    lemma_map_of_absent(self.entries@, key@);
                }
                None
            },
        }
    }

    /// Writes `val` at `key`, replacing any value already there.
    pub fn set(&mut self, key: Vec<u8>, val: Vec<u8>)
        ensures
            final(self)@ == old(self)@.insert(key@, val@),
    {
        proof {
            use_type_invariant(&*self);
        }
        let ghost m0 = self@;
        let ghost k = key@;
        let ghost v = val@;
        let mut entries: Vec<(Vec<u8>, Vec<u8>)> = Vec::new();
        core::mem::swap(&mut entries, &mut self.entries);
        match Self::find_key(&entries, &key) {
            Some(i) => {
                proof {
                    lemma_map_of_update(entries@, i as int, (key, val));
                    assert(forall|a: int, b: int|
                        0 <= a < b < entries@.len() ==> entries@.update(i as int, (key, val))[a].0@
                            != entries@.update(i as int, (key, val))[b].0@);
                }
                entries[i] = (key, val);
            },
            None => {
                proof {
                    let pushed = entries@.push((key, val));
                    assert(pushed.drop_last() =~= entries@);
                    assert(forall|a: int, b: int|
                        0 <= a < b < pushed.len() ==> pushed[a].0@ != pushed[b].0@);
                }
                entries.push((key, val));
            },
        }
        self.entries = entries;
        proof {
            assert(self@ =~= m0.insert(k, v));
        }
    }
}

} // verus!
