use vstd::prelude::*;

use crate::shrink::shrink_to_fit;
use crate::types::{short_id_of, Cycle, PeerIndex, ProposalShortId, TransactionView};

verus! {

/// Above this many entries the queue reports itself full.
pub const DEFAULT_MAX_VERIFY_TRANSACTIONS: usize = 100;

const SHRINK_THRESHOLD: usize = 120;

/// A transaction waiting for verification, with the cycles that a remote peer
/// declared for it and that peer. Two entries are equal when they hold the
/// same transaction.
#[derive(Clone, Debug)]
pub struct Entry {
    pub tx: TransactionView,
    pub remote: Option<(Cycle, PeerIndex)>,
}

impl PartialEq for Entry {
    fn eq(&self, other: &Entry) -> (r: bool)
        ensures
            r == (self.tx.hash == other.tx.hash),
    {
        self.tx.hash == other.tx.hash
    }
}

impl vstd::std_specs::cmp::PartialEqSpecImpl for Entry {
    open spec fn obeys_eq_spec() -> bool {
        true
    }

    open spec fn eq_spec(&self, other: &Entry) -> bool {
        self.tx.hash == other.tx.hash
    }
}

#[derive(Clone, Copy, Debug, PartialEq, Eq, PartialOrd, Ord, Hash, Structural)]
pub enum VerifyStatus {
    Fresh,
    Verifying,
    Completed,
}

#[derive(Clone, Debug)]
pub struct VerifyEntry {
    pub id: ProposalShortId,
    pub status: VerifyStatus,
    pub inner: Entry,
}

pub open spec fn has_id(s: Seq<VerifyEntry>, id: ProposalShortId) -> bool {
    exists|i: int| 0 <= i < s.len() && s[i].id == id
}

/// The set of transactions awaiting verification, one per proposal id.
pub struct VerifyQueue {
    inner: Vec<VerifyEntry>,
}

impl View for VerifyQueue {
    type V = Seq<VerifyEntry>;

    closed spec fn view(&self) -> Seq<VerifyEntry> {
        self.inner@
    }
}

impl VerifyQueue {
    pub open spec fn wf(&self) -> bool {
        forall|i: int, j: int| 0 <= i < j < self@.len() ==> self@[i].id != self@[j].id
    }

    pub fn new() -> (r: VerifyQueue)
        ensures
            r.wf(),
            r@ == Seq::<VerifyEntry>::empty(),
    {
        VerifyQueue { inner: Vec::new() }
    }

    pub fn len(&self) -> (r: usize)
        ensures
            r == self@.len(),
    {
        self.inner.len()
    }

    pub fn is_empty(&self) -> (r: bool)
        ensures
            r == (self@.len() == 0),
    {
        self.inner.len() == 0
    }

    pub fn is_full(&self) -> (r: bool)
        ensures
            r == (self@.len() > DEFAULT_MAX_VERIFY_TRANSACTIONS),
    {
        self.len() > DEFAULT_MAX_VERIFY_TRANSACTIONS
    }

    fn position(&self, id: &ProposalShortId) -> (r: Option<usize>)
        ensures
            match r {
                Some(i) => i < self@.len() && self@[i as int].id == *id,
                None => !has_id(self@, *id),
            },
    {
        let mut i: usize = 0;
        while i < self.inner.len()
            invariant
                i <= self@.len(),
                forall|j: int| 0 <= j < i ==> self@[j].id != *id,
            decreases self@.len() - i,
        {
            if self.inner[i].id == *id {
                return Some(i);
            }
            i = i + 1;
        }
        None
    }

    pub fn contains_key(&self, id: &ProposalShortId) -> (r: bool)
        ensures
            r == has_id(self@, *id),
    {
        self.position(id).is_some()
    }

    /// Releases memory that the queue no longer needs.
    pub fn shrink_to_fit(&mut self)
        ensures
            final(self)@ == old(self)@,
    {
        shrink_to_fit(&mut self.inner, SHRINK_THRESHOLD);
    }

    /// Takes out the entry with proposal id `id`; `None` when there is none.
    pub fn remove_tx(&mut self, id: &ProposalShortId) -> (r: Option<Entry>)
        requires
            old(self).wf(),
        ensures
            final(self).wf(),
            match r {
                Some(e) => exists|i: int|
                    0 <= i < old(self)@.len() && old(self)@[i].id == *id && e == old(self)@[i].inner
                        && final(self)@ == old(self)@.remove(i),
                None => !has_id(old(self)@, *id) && final(self)@ == old(self)@,
            },
    {
        match self.position(id) {
            Some(i) => {
                let ghost before = self@;
                let ve = self.inner.remove(i);
                self.shrink_to_fit();
                assert forall|a: int, b: int| 0 <= a < b < self@.len() implies self@[a].id
                    != self@[b].id by {
                    let a0 = if a < i {
                        a
                    } else {
                        a + 1
                    };
                    let b0 = if b < i {
                        b
                    } else {
                        b + 1
                    };
                    assert(self@[a] == before[a0] && self@[b] == before[b0]);
                }
                Some(ve.inner)
            },
            None => None,
        }
    }

    /// Takes out every entry whose proposal id is in `ids`.
    pub fn remove_txs(&mut self, ids: &[ProposalShortId])
        requires
            old(self).wf(),
        ensures
            final(self).wf(),
            forall|id: ProposalShortId|
                #[trigger] has_id(final(self)@, id) == (has_id(old(self)@, id) && !ids@.contains(
                    id,
                )),
            forall|i: int|
                0 <= i < final(self)@.len() ==> old(self)@.contains(#[trigger] final(self)@[i]),
    {
        let mut k: usize = 0;
        while k < ids.len()
            invariant
                self.wf(),
                k <= ids@.len(),
                forall|id: ProposalShortId|
                    #[trigger] has_id(self@, id) == (has_id(old(self)@, id) && !ids@.subrange(
                        0,
                        k as int,
                    ).contains(id)),
                forall|i: int| 0 <= i < self@.len() ==> old(self)@.contains(#[trigger] self@[i]),
            decreases ids@.len() - k,
        {
            let ghost before = self@;
            let r = self.remove_tx(&ids[k]);
            proof {
                let sub = ids@.subrange(0, k as int);
                let nsub = ids@.subrange(0, k + 1);
                assert(nsub =~= sub.push(ids@[k as int]));
                assert forall|id: ProposalShortId| #[trigger] nsub.contains(id) == (sub.contains(id)
                    || id == ids@[k as int]) by {
                    if sub.contains(id) {
                        let j = choose|j: int| 0 <= j < sub.len() && sub[j] == id;
                        assert(nsub[j] == id);
                    }
                    if id == ids@[k as int] {
                        assert(nsub[k as int] == id);
                    }
                    if nsub.contains(id) && id != ids@[k as int] {
                        let j = choose|j: int| 0 <= j < nsub.len() && nsub[j] == id;
                        assert(sub[j] == id);
                    }
                }
                if r is Some {
                    let i = choose|i: int|
                        0 <= i < before.len() && before[i].id == ids@[k as int] && self@
                            == before.remove(i);
                    assert forall|id: ProposalShortId| #[trigger]
                        has_id(self@, id) == (has_id(before, id) && id != ids@[k as int]) by {
                        if has_id(self@, id) {
                            let a = choose|a: int| 0 <= a < self@.len() && self@[a].id == id;
                            let a0 = if a < i {
                                a
                            } else {
                                a + 1
                            };
                            assert(self@[a] == before[a0]);
                        }
                        if has_id(before, id) && id != ids@[k as int] {
                            let a0 = choose|a: int| 0 <= a < before.len() && before[a].id == id;
                            let a = if a0 < i {
                                a0
                            } else {
                                a0 - 1
                            };
                            assert(self@[a] == before[a0]);
                        }
                    }
                    assert forall|a: int| 0 <= a < self@.len() implies old(self)@.contains(
                        #[trigger] self@[a],
                    ) by {
                        let a0 = if a < i {
                            a
                        } else {
                            a + 1
                        };
                        assert(self@[a] == before[a0]);
                        assert(old(self)@.contains(before[a0]));
                    }
                }
            }
            k = k + 1;
        }
        assert(ids@.subrange(0, ids@.len() as int) =~= ids@);
        self.shrink_to_fit();
    }

    /// Queues `tx` as fresh. Returns `false`, and changes nothing, when a
    /// transaction with the same proposal id is already queued.
    pub fn add_tx(&mut self, tx: TransactionView, remote: Option<(Cycle, PeerIndex)>) -> (r: bool)
        requires
            old(self).wf(),
        ensures
            final(self).wf(),
            r == !has_id(old(self)@, short_id_of(tx.hash)),
            r ==> final(self)@ == old(self)@.push(
                VerifyEntry {
                    id: short_id_of(tx.hash),
                    status: VerifyStatus::Fresh,
                    inner: Entry { tx, remote },
                },
            ),
            !r ==> final(self)@ == old(self)@,
    {
        let id = tx.proposal_short_id();
        if self.contains_key(&id) {
            return false;
        }
        let entry = Entry { tx, remote };
        self.inner.push(VerifyEntry { id, status: VerifyStatus::Fresh, inner: entry });
        assert forall|i: int, j: int| 0 <= i < j < self@.len() implies self@[i].id
            != self@[j].id by {
            if j == self@.len() - 1 {
                assert(self@[i] == old(self)@[i]);
            }
        }
        true
    }

    /// Removes every entry.
    pub fn clear(&mut self)
        ensures
            final(self).wf(),
            final(self)@ == Seq::<VerifyEntry>::empty(),
    {
        self.inner.clear();
        self.shrink_to_fit()
    }
}

} // verus!
