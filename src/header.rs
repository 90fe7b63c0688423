//! Block headers, and a map from hash to header whose keys are unique.
use std::sync::Arc;
use vstd::prelude::*;

use crate::hash::Digest;

verus! {

/// Immutable block metadata, as kept by the storage layer.
#[derive(Clone, Debug)]
pub struct Header {
    pub hash: Digest,
    /// One sequence of parent hashes per reachability level; level 0 holds
    /// the direct DAG parents.
    pub parents_by_level: Vec<Vec<Digest>>,
    pub blue_score: u64,
    /// Commitment to the blocks that a log-path proof may step to.
    pub pochm_merkle_root: Digest,
    /// Commitment to the ids of the transactions that this block accepted.
    pub accepted_id_merkle_root: Digest,
    /// Commitment to the transactions in this block's body.
    pub hash_merkle_root: Digest,
    pub timestamp: u64,
}

impl Header {
    /// The direct DAG parents (level 0); none when no level is recorded.
    pub open spec fn direct_parents(self) -> Seq<Digest> {
        if self.parents_by_level@.len() > 0 {
            self.parents_by_level@[0]@
        } else {
            Seq::empty()
        }
    }

    /// Whether `parent` is among the direct parents.
    pub open spec fn has_direct_parent(self, parent: Seq<u8>) -> bool {
        exists|i: int| 0 <= i < self.direct_parents().len() && self.direct_parents()[i]@ == parent
    }
}

/// A map from block hash to header, kept as a list of entries; the first
/// entry with a given key is the one that counts.
#[derive(Clone, Debug)]
pub struct HeaderMap {
    entries: Vec<(Digest, Arc<Header>)>,
}

/// Whether some entry of `s` has key `k`.
pub open spec fn has_key(s: Seq<(Digest, Arc<Header>)>, k: Seq<u8>) -> bool {
    exists|i: int| 0 <= i < s.len() && s[i].0@ == k
}

/// Whether entry `i` of `s` is the first one with key `k`.
pub open spec fn is_first(s: Seq<(Digest, Arc<Header>)>, k: Seq<u8>, i: int) -> bool {
    &&& 0 <= i < s.len()
    &&& s[i].0@ == k
    &&& forall|j: int| 0 <= j < i ==> s[j].0@ != k
}

/// The map obtained by inserting the pairs of `s` in order, a later pair
/// replacing an earlier one with the same key.
pub open spec fn map_of_pairs(s: Seq<(Digest, Arc<Header>)>) -> Map<Seq<u8>, Header>
    decreases s.len(),
{
    if s.len() == 0 {
        Map::empty()
    } else {
        map_of_pairs(s.drop_last()).insert(s.last().0@, *s.last().1)
    }
}

proof fn lemma_first_exists(s: Seq<(Digest, Arc<Header>)>, k: Seq<u8>)
    requires
        has_key(s, k),
    ensures
        exists|i: int| is_first(s, k, i),
    decreases s.len(),
{
    if s.last().0@ == k && !has_key(s.drop_last(), k) {
        assert forall|j: int| 0 <= j < s.len() - 1 implies s[j].0@ != k by {
            if s[j].0@ == k {
                assert(s.drop_last()[j].0@ == k);
            }
        };
        assert(is_first(s, k, s.len() - 1));
    } else {
        let i = choose|i: int| 0 <= i < s.len() && s[i].0@ == k;
        if i == s.len() - 1 {
            assert(has_key(s.drop_last(), k));
        } else {
            assert(s.drop_last()[i].0@ == k);
        }
        lemma_first_exists(s.drop_last(), k);
        let f = choose|f: int| is_first(s.drop_last(), k, f);
        assert forall|j: int| 0 <= j < f implies s[j].0@ != k by {
            assert(s.drop_last()[j] == s[j]);
        };
        assert(s.drop_last()[f] == s[f]);
        assert(is_first(s, k, f));
    }
}

proof fn lemma_first_unique(s: Seq<(Digest, Arc<Header>)>, k: Seq<u8>, i: int, j: int)
    requires
        is_first(s, k, i),
        is_first(s, k, j),
    ensures
        i == j,
{
}

impl HeaderMap {
    /// What the map holds, keyed by the bytes of each hash.
    pub closed spec fn view(&self) -> Map<Seq<u8>, Header> {
        Map::new(
            |k: Seq<u8>| has_key(self.entries@, k),
            |k: Seq<u8>| *self.entries@[choose|i: int| is_first(self.entries@, k, i)].1,
        )
    }

    /// The number of entries.
    pub closed spec fn len(&self) -> nat {
        self.entries@.len()
    }

    /// The number of entries.
    pub fn count(&self) -> (r: usize)
        ensures
            r == self.len(),
    {
        self.entries.len()
    }

    /// The empty map.
    pub fn new() -> (r: HeaderMap)
        ensures
            r@ == Map::<Seq<u8>, Header>::empty(),
            r.len() == 0,
    {
        let r = HeaderMap { entries: Vec::new() };
        assert(r@ =~= Map::<Seq<u8>, Header>::empty());
        r
    }

    /// The position of the first entry with key `key`, if any.
    fn find(&self, key: &Digest) -> (r: Option<usize>)
        ensures
            match r {
                Some(i) => is_first(self.entries@, key@, i as int),
                None => !has_key(self.entries@, key@),
            },
    {
        let mut i: usize = 0;
        while i < self.entries.len()
            invariant
                i <= self.entries@.len(),
                forall|j: int| 0 <= j < i ==> self.entries@[j].0@ != key@,
            decreases self.entries@.len() - i,
        {
            if self.entries[i].0.equals(key) {
                return Some(i);
            }
            i = i + 1;
        }
        None
    }

    /// The header stored under `key`, if any.
    pub fn get(&self, key: &Digest) -> (r: Option<&Arc<Header>>)
        ensures
            r is Some <==> self@.contains_key(key@),
            r is Some ==> **r.unwrap() == self@[key@],
    {
        match self.find(key) {
            Some(i) => {
                let r = &self.entries[i].1;
                proof {
                    let c = choose|j: int| is_first(self.entries@, key@, j);
                    lemma_first_unique(self.entries@, key@, c, i as int);
                }
                Some(r)
            },
            None => None,
        }
    }

    /// Stores `header` under `key`, replacing what was there.
    pub fn insert(&mut self, key: Digest, header: Arc<Header>)
        ensures
            final(self)@ == old(self)@.insert(key@, *header),
            final(self).len() == old(self).len() + if old(self)@.contains_key(key@) {
                0int
            } else {
                1int
            },
    {
        let ghost old_entries = self.entries@;
        let ghost old_view = self@;
        let found = self.find(&key);
        match found {
            Some(i) => {
                self.entries.set(i, (key, header));
            },
            None => {
                self.entries.push((key, header));
            },
        }
        proof {
            let s = self.entries@;
            assert forall|j: int| 0 <= j < old_entries.len() && s[j].0@ != key@ implies s[j]
                == old_entries[j] by {
                if let Some(i) = found {
                    if j == i as int {
                        assert(s[j].0@ == key@);
                    }
                }
            };
            assert forall|k: Seq<u8>| #[trigger] has_key(s, k) == (has_key(old_entries, k) || k
                == key@) by {
                if has_key(old_entries, k) && k != key@ {
                    let j = choose|j: int| 0 <= j < old_entries.len() && old_entries[j].0@ == k;
                    if let Some(i) = found {
                        if j == i as int {
                            assert(old_entries[j].0@ == key@);
                        }
                    }
                    assert(s[j] == old_entries[j]);
                }
                if k == key@ {
                    match found {
                        Some(i) => assert(s[i as int].0@ == k),
                        None => assert(s[old_entries.len() as int].0@ == k),
                    }
                }
                if has_key(s, k) && k != key@ {
                    let j = choose|j: int| 0 <= j < s.len() && s[j].0@ == k;
                    if j < old_entries.len() {
                        assert(old_entries[j].0@ == k);
                    }
                }
            };
            assert forall|k: Seq<u8>| has_key(s, k) implies #[trigger] self@[k] == (
            if k == key@ {
                *header
            } else {
                old_view[k]
            }) by {
                lemma_first_exists(s, k);
                let c = choose|c: int| is_first(s, k, c);
                if k == key@ {
                    match found {
                        Some(i) => {
                            assert forall|j: int| 0 <= j < i implies s[j].0@ != k by {
                                assert(old_entries[j].0@ != k);
                            };
                            assert(is_first(s, k, i as int));
                            lemma_first_unique(s, k, c, i as int);
                        },
                        None => {
                            assert forall|j: int| 0 <= j < old_entries.len() implies s[j].0@ != k by {
                                assert(old_entries[j].0@ != k);
                            };
                            assert(is_first(s, k, old_entries.len() as int));
                            lemma_first_unique(s, k, c, old_entries.len() as int);
                        },
                    }
                } else {
                    assert(c < old_entries.len());
                    assert forall|j: int| 0 <= j < c implies old_entries[j].0@ != k by {
                        assert(s[j].0@ != k);
                        if old_entries[j].0@ == key@ {
                        } else {
                            assert(s[j] == old_entries[j]);
                        }
                    };
                    assert(is_first(old_entries, k, c));
                    let d = choose|d: int| is_first(old_entries, k, d);
                    lemma_first_unique(old_entries, k, c, d);
                }
            };
            assert(self@ =~= old_view.insert(key@, *header));
        }
    }

    /// The map holding the pairs of `pairs`, inserted in order.
    pub fn from_pairs(pairs: Vec<(Digest, Arc<Header>)>) -> (r: HeaderMap)
        ensures
            r@ == map_of_pairs(pairs@),
    {
        let ghost all = pairs@;
        let n: usize = pairs.len();
        let mut rest = pairs;
        let mut m = HeaderMap::new();
        let mut i: usize = 0;
        while rest.len() > 0
            invariant
                i <= all.len(),
                i + rest@.len() == all.len(),
                all.len() == n,
                rest@ == all.skip(i as int),
                m@ == map_of_pairs(all.take(i as int)),
            decreases rest@.len(),
        {
            let (k, h) = rest.remove(0);
            assert(all.take(i + 1).drop_last() =~= all.take(i as int));
            assert(all[i as int] == (k, h));
            m.insert(k, h);
            assert(rest@ =~= all.skip(i + 1));
            i = i + 1;
        }
        assert(all.take(i as int) =~= all);
        m
    }
}

} // verus!
