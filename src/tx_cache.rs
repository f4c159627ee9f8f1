use vstd::prelude::*;

use crate::block_txs::{CacheEntry, Completed};
use crate::keyed::{
    find_key, has_key, key_index, keys_unique, lemma_absent, lemma_index, lemma_push, lemma_remove, pairs_map,
};
use crate::types::Byte32;

verus! {

/// The entries after storing `(k, v)` as the most recent one: an entry
/// with key `k` leaves its place, and the least recent entry goes when
/// the cache would exceed `cap`.
pub open spec fn put_seq(s: Seq<(Byte32, CacheEntry)>, cap: nat, k: Byte32, v: CacheEntry) -> Seq<
    (Byte32, CacheEntry),
> {
    if has_key(s, k) {
        s.remove(key_index(s, k)).push((k, v))
    } else if s.len() + 1 > cap {
        s.push((k, v)).subrange(1, s.len() + 1 as int)
    } else {
        s.push((k, v))
    }
}

/// The entries after storing each update in turn as a finished result.
pub open spec fn update_seq(
    s: Seq<(Byte32, CacheEntry)>,
    cap: nat,
    updates: Seq<(Byte32, Completed)>,
) -> Seq<(Byte32, CacheEntry)>
    decreases updates.len(),
{
    if updates.len() == 0 {
        s
    } else {
        put_seq(
            update_seq(s, cap, updates.drop_last()),
            cap,
            updates.last().0,
            CacheEntry::Completed(updates.last().1),
        )
    }
}

/// Verification results by transaction hash, least recently stored first,
/// holding at most `capacity` of them.
pub struct TxVerificationCache {
    entries: Vec<(Byte32, CacheEntry)>,
    capacity: usize,
}

impl View for TxVerificationCache {
    type V = Seq<(Byte32, CacheEntry)>;

    closed spec fn view(&self) -> Seq<(Byte32, CacheEntry)> {
        self.entries@
    }
}

impl TxVerificationCache {
    pub closed spec fn capacity_spec(&self) -> nat {
        self.capacity as nat
    }

    pub open spec fn wf(&self) -> bool {
        &&& keys_unique(self@)
        &&& self@.len() <= self.capacity_spec()
        &&& self.capacity_spec() >= 1
    }

    pub open spec fn map(&self) -> Map<Byte32, CacheEntry> {
        pairs_map(self@)
    }

    pub fn new(capacity: usize) -> (r: TxVerificationCache)
        requires
            capacity >= 1,
        ensures
            r.wf(),
            r@.len() == 0,
            r.capacity_spec() == capacity,
    {
        TxVerificationCache { entries: Vec::new(), capacity }
    }

    pub fn len(&self) -> (r: usize)
        ensures
            r == self@.len(),
    {
        self.entries.len()
    }

    /// The entry for `hash`; the order of use is left as it is.
    pub fn peek(&self, hash: &Byte32) -> (r: Option<CacheEntry>)
        requires
            self.wf(),
        ensures
            r == (if self.map().contains_key(*hash) {
                Some(self.map()[*hash])
            } else {
                None::<CacheEntry>
            }),
    {
        match find_key(&self.entries, hash) {
            Some(i) => {
                proof {
                    lemma_index(self@, i as int);
                }
                Some(self.entries[i].1)
            },
            None => None,
        }
    }

    /// The entries for a batch of hashes, each looked up as `peek` does.
    pub fn fetch(&self, hashes: &[Byte32]) -> (r: Vec<Option<CacheEntry>>)
        requires
            self.wf(),
        ensures
            r@.len() == hashes@.len(),
            forall|i: int|
                0 <= i < r@.len() ==> #[trigger] r@[i] == (if self.map().contains_key(hashes@[i]) {
                    Some(self.map()[hashes@[i]])
                } else {
                    None::<CacheEntry>
                }),
    {
        let mut out: Vec<Option<CacheEntry>> = Vec::new();
        let mut i: usize = 0;
        while i < hashes.len()
            invariant
                self.wf(),
                i <= hashes@.len(),
                out@.len() == i,
                forall|j: int|
                    0 <= j < i ==> #[trigger] out@[j] == (if self.map().contains_key(hashes@[j]) {
                        Some(self.map()[hashes@[j]])
                    } else {
                        None::<CacheEntry>
                    }),
            decreases hashes@.len() - i,
        {
            out.push(self.peek(&hashes[i]));
            i = i + 1;
        }
        out
    }

    /// Stores `entry` under `hash` as the most recent entry; when that
    /// makes the cache exceed its capacity, the least recent entry goes.
    pub fn put(&mut self, hash: Byte32, entry: CacheEntry)
        requires
            old(self).wf(),
        ensures
            final(self).wf(),
            final(self).capacity_spec() == old(self).capacity_spec(),
            final(self)@ == put_seq(old(self)@, old(self).capacity_spec(), hash, entry),
            final(self)@.last() == (hash, entry),
            final(self).map().contains_key(hash),
            final(self).map()[hash] == entry,
            old(self).map().contains_key(hash) || old(self)@.len() < old(self).capacity_spec()
                ==> final(self).map() == old(self).map().insert(hash, entry),
            !old(self).map().contains_key(hash) && old(self)@.len() == old(self).capacity_spec()
                ==> final(self).map() == old(self).map().insert(hash, entry).remove(old(self)@[0].0),
    {
        let ghost m0 = self.map();
        match find_key(&self.entries, &hash) {
            Some(i) => {
                proof {
                    lemma_index(self@, i as int);
                    lemma_remove(self@, i as int);
                }
                let ghost s0 = self@;
                self.entries.remove(i);
                assert(self@ == s0.remove(key_index(s0, hash)));
                proof {
                    assert(!has_key(self@, hash)) by {
                        if has_key(self@, hash) {
                            assert(pairs_map(self@).contains_key(hash));
                        }
                    }
                    lemma_push(self@, hash, entry);
                    assert(m0.remove(hash).insert(hash, entry) =~= m0.insert(hash, entry));
                }
                self.entries.push((hash, entry));
            },
            None => {
                proof {
                    lemma_push(self@, hash, entry);
                }
                let ghost first = self@[0];
                self.entries.push((hash, entry));
                if self.entries.len() > self.capacity {
                    proof {
                        lemma_remove(self@, 0);
                        assert(self@[0] == first);
                        lemma_index(self@, 0);
                        assert(first.0 != hash);
                    }
                    let ghost s1 = self@;
                    self.entries.remove(0);
                    assert(self@ =~= s1.subrange(1, s1.len() as int));
                    proof {
                        let k = self@.len() - 1;
                        assert(self@[k] == (hash, entry));
                        lemma_index(self@, k);
                    }
                }
            },
        }
        proof {
            lemma_index(self@, self@.len() - 1);
        }
    }

    /// Writes a batch of finished verifications, in order, as `put` does.
    pub fn update(&mut self, updates: &[(Byte32, Completed)])
        requires
            old(self).wf(),
        ensures
            final(self).wf(),
            final(self).capacity_spec() == old(self).capacity_spec(),
            updates@.len() > 0 ==> final(self).map().contains_key(updates@.last().0)
                && final(self).map()[updates@.last().0] == CacheEntry::Completed(updates@.last().1),
            updates@.len() == 0 ==> final(self)@ == old(self)@,
            final(self)@ == update_seq(old(self)@, old(self).capacity_spec(), updates@),
    {
        let mut i: usize = 0;
        while i < updates.len()
            invariant
                self.wf(),
                self.capacity_spec() == old(self).capacity_spec(),
                i <= updates@.len(),
                i == 0 ==> self@ == old(self)@,
                self@ == update_seq(old(self)@, old(self).capacity_spec(), updates@.subrange(0, i as int)),
                i > 0 ==> self.map().contains_key(updates@[i - 1].0) && self.map()[updates@[i
                    - 1].0] == CacheEntry::Completed(updates@[i - 1].1),
            decreases updates@.len() - i,
        {
            let (k, v) = updates[i];
            self.put(k, CacheEntry::Completed(v));
            assert(updates@.subrange(0, i + 1).drop_last() =~= updates@.subrange(0, i as int));
            i = i + 1;
        }
        assert(updates@.subrange(0, updates@.len() as int) =~= updates@);
    }
}

} // verus!
