use vstd::prelude::*;

use crate::block::{BlockView, HeaderView};
use crate::error::Error;
use crate::block::UncleBlockView;
use crate::store::{first_uncle, ChainStore, StoredBlock};
use crate::types::{short_id_of, BlockNumber, Byte32, ProposalShortId};

verus! {

/// The proposal ids that a stored block carries, its own and its uncles'.
pub open spec fn block_proposals(b: StoredBlock) -> Set<ProposalShortId> {
    Set::new(
        |id: ProposalShortId|
            b.proposals@.contains(id) || exists|u: int|
                0 <= u < b.uncles@.len() && b.uncles@[u].proposals@.contains(id),
    )
}

/// The proposals of the blocks numbered `start..=end` on the branch that
/// ends at `hash`, walking parent links and stopping at genesis; `None`
/// when a block on the way is missing.
pub open spec fn window_proposals(store: ChainStore, hash: Byte32, end: int, start: int) -> Option<
    Set<ProposalShortId>,
>
    decreases end - start + 1,
{
    if end < start {
        Some(Set::empty())
    } else if !store.has_block(hash) {
        None
    } else if store.block(hash).header.number == 0 {
        Some(Set::empty())
    } else if end == 0 {
        Some(block_proposals(store.block(hash)))
    } else {
        match window_proposals(store, store.block(hash).header.parent_hash, end - 1, start) {
            None => None,
            Some(rest) => Some(block_proposals(store.block(hash)).union(rest)),
        }
    }
}

pub open spec fn combine(acc: Set<ProposalShortId>, rest: Option<Set<ProposalShortId>>) -> Option<
    Set<ProposalShortId>,
> {
    match rest {
        None => None,
        Some(s) => Some(acc.union(s)),
    }
}

pub open spec fn sat_sub(a: u64, b: u64) -> int {
    if a >= b {
        a - b
    } else {
        0
    }
}

/// Whether every transaction after the cellbase was proposed in the window.
pub open spec fn all_proposed(block: BlockView, proposed: Set<ProposalShortId>) -> bool {
    forall|k: int|
        1 <= k < block.transactions@.len() ==> proposed.contains(
            short_id_of(#[trigger] block.transactions@[k].hash),
        )
}

pub open spec fn commit_check(store: ChainStore, block: BlockView, farthest: u64, closest: u64) -> Result<
    (),
    Error,
> {
    let number = block.header.number;
    let start = sat_sub(number, farthest);
    let end = sat_sub(number, closest);
    if number == 0 {
        Ok(())
    } else if end >= store.main_spec().len() {
        Err(Error::CommitAncestorNotFound)
    } else {
        match window_proposals(store, store.main_spec()[end], end, start) {
            None => Err(Error::CommitAncestorNotFound),
            Some(s) => if all_proposed(block, s) {
                Ok(())
            } else {
                Err(Error::CommitInvalid)
            },
        }
    }
}

fn append_block_proposals(b: &StoredBlock, ids: &mut Vec<ProposalShortId>)
    ensures
        forall|id: ProposalShortId|
            #[trigger] final(ids)@.contains(id) == (old(ids)@.contains(id) || block_proposals(
                *b,
            ).contains(id)),
{
    let ghost ids0 = ids@;
    let mut i: usize = 0;
    while i < b.proposals.len()
        invariant
            i <= b.proposals@.len(),
            forall|id: ProposalShortId|
                #[trigger] ids@.contains(id) == (ids0.contains(id) || b.proposals@.subrange(
                    0,
                    i as int,
                ).contains(id)),
        decreases b.proposals@.len() - i,
    {
        let ghost before = ids@;
        ids.push(b.proposals[i]);
        proof {
            assert forall|id: ProposalShortId| #[trigger] ids@.contains(id) == (ids0.contains(id)
                || b.proposals@.subrange(0, i + 1).contains(id)) by {
                let sub = b.proposals@.subrange(0, i as int);
                let nsub = b.proposals@.subrange(0, i + 1);
                assert(nsub =~= sub.push(b.proposals@[i as int]));
                if ids@.contains(id) {
                    let j = choose|j: int| 0 <= j < ids@.len() && ids@[j] == id;
                    if j < before.len() {
                        assert(before.contains(id));
                    } else {
                        assert(nsub[i as int] == id);
                    }
                }
                if sub.contains(id) {
                    let j = choose|j: int| 0 <= j < sub.len() && sub[j] == id;
                    assert(nsub[j] == id);
                }
                if nsub.contains(id) {
                    let j = choose|j: int| 0 <= j < nsub.len() && nsub[j] == id;
                    if j < i {
                        assert(sub[j] == id);
                    } else {
                        assert(ids@[ids@.len() - 1] == id);
                    }
                }
                if before.contains(id) {
                    let j = choose|j: int| 0 <= j < before.len() && before[j] == id;
                    assert(ids@[j] == id);
                }
            }
        }
        i = i + 1;
    }
    assert(b.proposals@.subrange(0, b.proposals@.len() as int) =~= b.proposals@);
    let ghost ids1 = ids@;
    let mut u: usize = 0;
    while u < b.uncles.len()
        invariant
            u <= b.uncles@.len(),
            forall|id: ProposalShortId|
                #[trigger] ids@.contains(id) == (ids1.contains(id) || exists|v: int|
                    0 <= v < u && b.uncles@[v].proposals@.contains(id)),
        decreases b.uncles@.len() - u,
    {
        let ghost ids2 = ids@;
        let mut i: usize = 0;
        while i < b.uncles[u].proposals.len()
            invariant
                u < b.uncles@.len(),
                i <= b.uncles@[u as int].proposals@.len(),
                forall|id: ProposalShortId|
                    #[trigger] ids@.contains(id) == (ids2.contains(id) || b.uncles@[u as int].proposals@.subrange(
                        0,
                        i as int,
                    ).contains(id)),
            decreases b.uncles@[u as int].proposals@.len() - i,
        {
            let ghost before = ids@;
            let ghost ps = b.uncles@[u as int].proposals@;
            ids.push(b.uncles[u].proposals[i]);
            proof {
                assert forall|id: ProposalShortId| #[trigger] ids@.contains(id) == (ids2.contains(id)
                    || ps.subrange(0, i + 1).contains(id)) by {
                    let sub = ps.subrange(0, i as int);
                    let nsub = ps.subrange(0, i + 1);
                    if ids@.contains(id) {
                        let j = choose|j: int| 0 <= j < ids@.len() && ids@[j] == id;
                        if j < before.len() {
                            assert(before.contains(id));
                        } else {
                            assert(nsub[i as int] == id);
                        }
                    }
                    if sub.contains(id) {
                        let j = choose|j: int| 0 <= j < sub.len() && sub[j] == id;
                        assert(nsub[j] == id);
                    }
                    if nsub.contains(id) {
                        let j = choose|j: int| 0 <= j < nsub.len() && nsub[j] == id;
                        if j < i {
                            assert(sub[j] == id);
                        } else {
                            assert(ids@[ids@.len() - 1] == id);
                        }
                    }
                    if before.contains(id) {
                        let j = choose|j: int| 0 <= j < before.len() && before[j] == id;
                        assert(ids@[j] == id);
                    }
                }
            }
            i = i + 1;
        }
        proof {
            let ps = b.uncles@[u as int].proposals@;
            assert(ps.subrange(0, ps.len() as int) =~= ps);
            assert forall|id: ProposalShortId| #[trigger] ids@.contains(id) == (ids1.contains(id)
                || exists|v: int| 0 <= v < u + 1 && b.uncles@[v].proposals@.contains(id)) by {
                if b.uncles@[u as int].proposals@.contains(id) {
                    assert(0 <= u < u + 1);
                }
            }
        }
        u = u + 1;
    }
}

/// Checks that every transaction a block commits was proposed within the
/// proposal window `[number - farthest, number - closest]` before it.
pub struct TwoPhaseCommitVerifier<'a> {
    pub store: &'a ChainStore,
    pub block: &'a BlockView,
    pub farthest: u64,
    pub closest: u64,
}

impl<'a> TwoPhaseCommitVerifier<'a> {
    pub fn new(store: &'a ChainStore, block: &'a BlockView, farthest: u64, closest: u64) -> (r:
        TwoPhaseCommitVerifier<'a>)
        ensures
            r.store == store,
            r.block == block,
            r.farthest == farthest,
            r.closest == closest,
    {
        TwoPhaseCommitVerifier { store, block, farthest, closest }
    }

    pub fn verify(&self) -> (r: Result<(), Error>)
        requires
            self.store.wf(),
        ensures
            r == commit_check(*self.store, *self.block, self.farthest, self.closest),
    {
        let store = self.store;
        let number = self.block.header.number;
        if number == 0 {
            return Ok(());
        }
        let proposal_start = number.saturating_sub(self.farthest);
        let mut proposal_end = number.saturating_sub(self.closest);
        let ghost end0 = proposal_end as int;
        let mut block_hash = match store.get_block_hash(proposal_end) {
            Some(h) => h,
            None => {
                return Err(Error::CommitAncestorNotFound);
            },
        };
        let ghost h0 = block_hash;
        assert(proposal_start as int == sat_sub(number, self.farthest));
        assert(end0 == sat_sub(number, self.closest));
        let mut ids: Vec<ProposalShortId> = Vec::new();
        let mut done = false;
        while !done && proposal_end >= proposal_start
            invariant
                store.wf(),
                number == self.block.header.number,
                number > 0,
                proposal_start as int == sat_sub(number, self.farthest),
                end0 == sat_sub(number, self.closest),
                end0 < store.main_spec().len(),
                h0 == store.main_spec()[end0],
                store == self.store,
                window_proposals(*store, h0, end0, proposal_start as int) == (if done {
                    Some(Set::new(|id: ProposalShortId| ids@.contains(id)))
                } else {
                    combine(
                        Set::new(|id: ProposalShortId| ids@.contains(id)),
                        window_proposals(*store, block_hash, proposal_end as int, proposal_start as int),
                    )
                }),
            decreases proposal_end + 1 - (if done { proposal_end + 1 } else { 0 }),
        {
            let ghost acc = Set::new(|id: ProposalShortId| ids@.contains(id));
            let i = match store.position(&block_hash) {
                Some(i) => i,
                None => {
                    return Err(Error::CommitAncestorNotFound);
                },
            };
            let b = store.block_at(i);
            proof {
                store.lemma_block_at(i as int);
            }
            if b.header.number == 0 {
                done = true;
                assert(acc.union(Set::empty()) =~= acc);
            } else {
                append_block_proposals(b, &mut ids);
                let ghost acc2 = Set::new(|id: ProposalShortId| ids@.contains(id));
                assert(acc2 =~= acc.union(block_proposals(*b)));
                if proposal_end == 0 {
                    done = true;
                } else {
                    block_hash = b.header.parent_hash;
                    proposal_end = proposal_end - 1;
                    proof {
                        let rest = window_proposals(*store, block_hash, proposal_end as int, proposal_start as int);
                        if let Some(rs) = rest {
                            assert(acc.union(block_proposals(*b).union(rs)) =~= acc2.union(rs));
                        }
                    }
                }
            }
        }
        if !done {
            assert(Set::new(|id: ProposalShortId| ids@.contains(id)).union(Set::empty())
                =~= Set::new(|id: ProposalShortId| ids@.contains(id)));
        }
        let ghost window = Set::new(|id: ProposalShortId| ids@.contains(id));
        let txs = &self.block.transactions;
        let mut k: usize = 1;
        while k < txs.len()
            invariant
                number == self.block.header.number,
                number > 0,
                proposal_start as int == sat_sub(number, self.farthest),
                end0 == sat_sub(number, self.closest),
                end0 < store.main_spec().len(),
                h0 == store.main_spec()[end0],
                store == self.store,
                window_proposals(*store, h0, end0, proposal_start as int) == Some(window),
                1 <= k,
                k <= txs@.len() || txs@.len() == 0,
                txs == self.block.transactions,
                window == Set::new(|id: ProposalShortId| ids@.contains(id)),
                forall|j: int| 1 <= j < k && j < txs@.len() ==> window.contains(
                    short_id_of(#[trigger] txs@[j].hash),
                ),
            decreases txs@.len() - k,
        {
            let id = txs[k].proposal_short_id();
            if !contains_id(&ids, &id) {
                assert(!window.contains(short_id_of(txs@[k as int].hash)));
                assert(!all_proposed(*self.block, window));
                return Err(Error::CommitInvalid);
            }
            k = k + 1;
        }
        Ok(())
    }
}

fn contains_id(ids: &Vec<ProposalShortId>, id: &ProposalShortId) -> (r: bool)
    ensures
        r == ids@.contains(*id),
{
    let mut i: usize = 0;
    while i < ids.len()
        invariant
            i <= ids@.len(),
            forall|j: int| 0 <= j < i ==> ids@[j] != *id,
        decreases ids@.len() - i,
    {
        if ids[i] == *id {
            return true;
        }
        i = i + 1;
    }
    false
}

/// Lookups that the uncle rules make in the store.
pub struct UncleVerifierContext<'a> {
    pub store: &'a ChainStore,
}

impl<'a> UncleVerifierContext<'a> {
    pub fn new(store: &'a ChainStore) -> (r: UncleVerifierContext<'a>)
        ensures
            r.store == store,
    {
        UncleVerifierContext { store }
    }

    /// Whether `hash` is already on the main chain or already an uncle.
    pub fn double_inclusion(&self, hash: &Byte32) -> (r: bool)
        requires
            self.store.wf(),
        ensures
            r == (self.store.on_main(*hash) || self.store.has_uncle(*hash)),
    {
        self.store.get_block_number(hash).is_some() || self.store.is_uncle(hash)
    }

    /// Whether the uncle's parent is a main-chain block or a stored uncle one
    /// height below it.
    pub fn descendant(&self, uncle: &HeaderView) -> (r: bool)
        requires
            self.store.wf(),
        ensures
            r == uncle_descends(*self.store, *uncle),
    {
        let parent_hash = uncle.parent_hash;
        let uncle_number: BlockNumber = uncle.number;
        if self.store.get_block_number(&parent_hash).is_some() {
            proof {
                self.store.lemma_main_number(parent_hash);
            }
            return match self.store.get_block_header(&parent_hash) {
                Some(parent) => parent.number < u64::MAX && parent.number + 1 == uncle_number,
                None => false,
            };
        }
        if let Some(uncle_parent) = self.store.get_uncle_header(&parent_hash) {
            return uncle_parent.number < u64::MAX && uncle_parent.number + 1 == uncle_number;
        }
        false
    }
}

/// Whether an uncle's parent is a main-chain block, or else the first
/// stored uncle with that hash, one height below it.
pub open spec fn uncle_descends(store: ChainStore, u: HeaderView) -> bool {
    if store.on_main(u.parent_hash) {
        store.block(u.parent_hash).header.number + 1 == u.number
    } else {
        match first_uncle(store.uncles_spec(), u.parent_hash) {
            Some(p) => p.number + 1 == u.number,
            None => false,
        }
    }
}

/// The verdict on uncle `i`: distinct from the uncles before it, not
/// included before, and a child of a known block.
pub open spec fn uncle_verdict(store: ChainStore, uncles: Seq<UncleBlockView>, i: int) -> Result<
    (),
    Error,
> {
    let u = uncles[i].header;
    if exists|j: int| 0 <= j < i && uncles[j].header.hash == u.hash {
        Err(Error::UncleDuplicate { hash: u.hash })
    } else if store.on_main(u.hash) || store.has_uncle(u.hash) {
        Err(Error::UncleDoubleInclusion { hash: u.hash })
    } else if !uncle_descends(store, u) {
        Err(Error::UncleNotDescendant { hash: u.hash })
    } else {
        Ok(())
    }
}

/// The verdict on the first `n` uncles: the first failing one's error.
pub open spec fn uncles_verdict(store: ChainStore, uncles: Seq<UncleBlockView>, n: int) -> Result<
    (),
    Error,
>
    decreases n,
{
    if n <= 0 {
        Ok(())
    } else {
        match uncles_verdict(store, uncles, n - 1) {
            Err(e) => Err(e),
            Ok(_) => uncle_verdict(store, uncles, n - 1),
        }
    }
}

pub open spec fn uncles_check(store: ChainStore, block: BlockView, max_uncles: u32) -> Result<
    (),
    Error,
> {
    if block.uncles@.len() > max_uncles {
        Err(Error::UnclesOverCount { max: max_uncles, actual: block.uncles@.len() as u64 })
    } else {
        uncles_verdict(store, block.uncles@, block.uncles@.len() as int)
    }
}

proof fn lemma_uncles_err_stays(store: ChainStore, uncles: Seq<UncleBlockView>, m: int, n: int)
    requires
        1 <= m <= n,
        uncles_verdict(store, uncles, m) is Err,
    ensures
        uncles_verdict(store, uncles, n) == uncles_verdict(store, uncles, m),
    decreases n - m,
{
    if m < n {
        lemma_uncles_err_stays(store, uncles, m + 1, n);
    }
}

/// Checks a block's uncles: at most `max_uncles` of them, each distinct,
/// new to the chain, and a child of a known block.
pub struct UnclesVerifier<'a> {
    pub context: UncleVerifierContext<'a>,
    pub block: &'a BlockView,
    pub max_uncles: u32,
}

impl<'a> UnclesVerifier<'a> {
    pub fn new(context: UncleVerifierContext<'a>, block: &'a BlockView, max_uncles: u32) -> (r:
        UnclesVerifier<'a>)
        ensures
            r.context == context,
            r.block == block,
            r.max_uncles == max_uncles,
    {
        UnclesVerifier { context, block, max_uncles }
    }

    pub fn verify(&self) -> (r: Result<(), Error>)
        requires
            self.context.store.wf(),
        ensures
            r == uncles_check(*self.context.store, *self.block, self.max_uncles),
    {
        let uncles = &self.block.uncles;
        let n = uncles.len();
        if n as u64 > self.max_uncles as u64 {
            return Err(Error::UnclesOverCount { max: self.max_uncles, actual: n as u64 });
        }
        let ghost store = *self.context.store;
        let mut i: usize = 0;
        while i < n
            invariant
                self.context.store.wf(),
                store == *self.context.store,
                n == uncles@.len(),
                uncles == self.block.uncles,
                i <= n,
                n <= self.max_uncles,
                uncles_verdict(store, uncles@, i as int) == Ok::<(), Error>(()),
            decreases n - i,
        {
            let hash = uncles[i].header.hash;
            let mut j: usize = 0;
            while j < i
                invariant
                    self.context.store.wf(),
                    store == *self.context.store,
                    uncles == self.block.uncles,
                    n <= self.max_uncles,
                    uncles_verdict(store, uncles@, i as int) == Ok::<(), Error>(()),
                    i < n,
                    n == uncles@.len(),
                    hash == uncles@[i as int].header.hash,
                    j <= i,
                    forall|k: int| 0 <= k < j ==> uncles@[k].header.hash != hash,
                decreases i - j,
            {
                if uncles[j].header.hash == hash {
                    proof {
                        assert(0 <= j < i && uncles@[j as int].header.hash == hash);
                        lemma_uncles_err_stays(store, uncles@, i + 1, n as int);
                    }
                    return Err(Error::UncleDuplicate { hash });
                }
                j = j + 1;
            }
            if self.context.double_inclusion(&hash) {
                proof {
                    lemma_uncles_err_stays(store, uncles@, i + 1, n as int);
                }
                return Err(Error::UncleDoubleInclusion { hash });
            }
            if !self.context.descendant(&uncles[i].header) {
                proof {
                    lemma_uncles_err_stays(store, uncles@, i + 1, n as int);
                }
                return Err(Error::UncleNotDescendant { hash });
            }
            i = i + 1;
        }
        Ok(())
    }
}

} // verus!
