use vstd::prelude::*;

use crate::block::{BlockView, HeaderView, LonelyBlockWithCallback};
use crate::block_txs::{
    batch_records, cycles_sum, BlockTxsOutcome, BlockTxsVerifier, CacheEntry, TxVerdict,
};
use crate::commit::{
    commit_check, uncles_check, TwoPhaseCommitVerifier, UncleVerifierContext, UnclesVerifier,
};
use crate::contextual::{
    dao_check, epoch_check, extension_check, reward_check, BlockExtensionVerifier,
    DaoHeaderVerifier, EpochVerifier, RewardVerifier,
};
use crate::error::{class_of, Error, ErrorClass};
use crate::orphan_pool::{breadth_first, has_hash, parents_first, OrphanBlockPool};
use crate::store::{absent_from, txs_of, ChainStore, ReorgOutcome, StoredBlock};
use crate::types::limb_base;
use crate::types::{Byte32, Cycle, EpochExt, PeerIndex, Switch, U256};

verus! {

/// What the intake stage does with a block.
#[derive(Clone, Copy, Debug, PartialEq, Eq, Structural)]
pub enum IntakeAction {
    /// Hand the block to the orphan resolver.
    Forward,
    /// Fire the block's callback with `error`; report the peer when `report`.
    Reject { error: Error, report: bool },
}

/// Whether the stateless checks run for a block with this switch.
pub fn needs_non_contextual(switch: Option<Switch>) -> (r: bool)
    ensures
        r == match switch {
            None => true,
            Some(s) => !s.has(crate::types::DISABLE_NON_CONTEXTUAL),
        },
{
    match switch {
        None => true,
        Some(s) => !s.disable_non_contextual(),
    }
}

/// The intake decision, given the outcome of the stateless checks (`Ok`
/// when they did not run).
pub fn intake_decision(non_contextual: Result<(), Error>) -> (r: IntakeAction)
    ensures
        match non_contextual {
            Ok(_) => r == IntakeAction::Forward,
            Err(e) => r == (IntakeAction::Reject {
                error: e,
                report: class_of(e) == ErrorClass::Malformed || class_of(e)
                    == ErrorClass::InvalidContextual,
            }),
        },
{
    match non_contextual {
        Ok(_) => IntakeAction::Forward,
        Err(e) => IntakeAction::Reject { error: e, report: e.punishes_peer() },
    }
}

/// Error for a block that the next stage can no longer take.
pub fn disconnected_error() -> (r: Error)
    ensures
        class_of(r) == ErrorClass::System,
{
    Error::System { code: 1 }
}

/// Error for a block still in flight when the pipeline shuts down.
pub fn shutdown_error() -> (r: Error)
    ensures
        class_of(r) == ErrorClass::System,
{
    Error::System { code: 5 }
}

/// A report to the synchronizer about a block that failed.
#[derive(Clone, Copy, Debug, PartialEq, Eq, Structural)]
pub struct VerifyFailedBlockInfo {
    pub block_hash: Byte32,
    pub peer_id: PeerIndex,
    pub message_bytes: u64,
    pub reason: Error,
}

/// The report owed for a failed block, if it came from a peer and the error
/// is the peer's fault.
pub fn failure_report(
    peer_id_with_msg_bytes: Option<(PeerIndex, u64)>,
    block_hash: Byte32,
    error: Error,
) -> (r: Option<VerifyFailedBlockInfo>)
    ensures
        r == (match peer_id_with_msg_bytes {
            Some((peer_id, message_bytes)) => if class_of(error) == ErrorClass::Malformed
                || class_of(error) == ErrorClass::InvalidContextual {
                Some(VerifyFailedBlockInfo { block_hash, peer_id, message_bytes, reason: error })
            } else {
                None
            },
            None => None,
        }),
{
    match peer_id_with_msg_bytes {
        Some((peer_id, message_bytes)) => if error.punishes_peer() {
            Some(VerifyFailedBlockInfo { block_hash, peer_id, message_bytes, reason: error })
        } else {
            None
        },
        None => None,
    }
}

/// The orphan resolver: buffers blocks whose parent is unknown and releases
/// them, parents first, once it arrives.
pub struct OrphanResolver<C> {
    pub pool: OrphanBlockPool<C>,
    pub unverified_tip: Option<HeaderView>,
    /// Hashes of blocks forwarded for verification and not yet settled.
    pub forwarded: Vec<Byte32>,
}

/// What the resolver does with one incoming block: the blocks to forward
/// now, in order; the blocks that left the pool without a verdict; and the
/// block itself when it was buffered already.
pub struct ResolveOutcome<C> {
    pub ready: Vec<LonelyBlockWithCallback<C>>,
    pub evicted: Vec<LonelyBlockWithCallback<C>>,
    pub duplicate: Option<LonelyBlockWithCallback<C>>,
}

impl<C> OrphanResolver<C> {
    pub fn new(capacity: usize) -> (r: OrphanResolver<C>)
        requires
            capacity >= 1,
        ensures
            r.pool.wf(),
            r.pool@.len() == 0,
            r.pool.capacity_spec() == capacity,
            r.unverified_tip is None,
            r.forwarded@.len() == 0,
    {
        OrphanResolver {
            pool: OrphanBlockPool::with_capacity(capacity),
            unverified_tip: None,
            forwarded: Vec::new(),
        }
    }

    /// Whether a block's parent is known: stored, or forwarded and not yet
    /// settled.
    pub fn is_parent_known(&self, store: &ChainStore, parent_hash: &Byte32) -> (r: bool)
        requires
            store.wf(),
        ensures
            r == (store.has_block(*parent_hash) || self.forwarded@.contains(*parent_hash)),
    {
        if store.get_block_header(parent_hash).is_some() {
            return true;
        }
        let mut i: usize = 0;
        while i < self.forwarded.len()
            invariant
                i <= self.forwarded@.len(),
                forall|j: int| 0 <= j < i ==> self.forwarded@[j] != *parent_hash,
            decreases self.forwarded@.len() - i,
        {
            if self.forwarded[i] == *parent_hash {
                return true;
            }
            i = i + 1;
        }
        false
    }

    /// Drops `hash` from the forwarded blocks once it is committed or refused.
    pub fn forget(&mut self, hash: &Byte32)
        ensures
            forall|x: Byte32|
                #[trigger] final(self).forwarded@.contains(x) == (old(self).forwarded@.contains(x)
                    && x != *hash),
            final(self).pool == old(self).pool,
            final(self).unverified_tip == old(self).unverified_tip,
    {
        let mut kept: Vec<Byte32> = Vec::new();
        let mut i: usize = 0;
        while i < self.forwarded.len()
            invariant
                i <= self.forwarded@.len(),
                self.forwarded == old(self).forwarded,
                forall|x: Byte32|
                    #[trigger] kept@.contains(x) == (self.forwarded@.subrange(0, i as int).contains(x)
                        && x != *hash),
            decreases self.forwarded@.len() - i,
        {
            let x = self.forwarded[i];
            let ghost before = kept@;
            if x != *hash {
                kept.push(x);
            }
            proof {
                let sub = self.forwarded@.subrange(0, i as int);
                let nsub = self.forwarded@.subrange(0, i + 1);
                assert forall|y: Byte32| #[trigger] kept@.contains(y) == (nsub.contains(y) && y != *hash) by {
                    if nsub.contains(y) {
                        let j = choose|j: int| 0 <= j < nsub.len() && nsub[j] == y;
                        if j < i {
                            assert(sub[j] == y);
                        }
                    }
                    if sub.contains(y) {
                        let j = choose|j: int| 0 <= j < sub.len() && sub[j] == y;
                        assert(nsub[j] == y);
                    }
                    if kept@.contains(y) && !before.contains(y) {
                        assert(y == x);
                        assert(nsub[i as int] == y);
                    }
                    if before.contains(y) {
                        let j = choose|j: int| 0 <= j < before.len() && before[j] == y;
                        assert(kept@[j] == y);
                    }
                    if y == x && x != *hash {
                        assert(kept@[kept@.len() - 1] == y);
                    }
                }
            }
            i = i + 1;
        }
        assert(self.forwarded@.subrange(0, self.forwarded@.len() as int) =~= self.forwarded@);
        self.forwarded = kept;
    }

    /// Handles one block. `parent_known` says whether its parent is stored or
    /// already forwarded. A block with an unknown parent waits in the pool;
    /// any other block is forwarded with every buffered descendant, parents
    /// first, and the unverified tip moves to the last block forwarded.
    pub fn process_lonely_block(&mut self, lonely_block: LonelyBlockWithCallback<C>, parent_known: bool) -> (r:
        ResolveOutcome<C>)
        requires
            old(self).pool.wf(),
        ensures
            final(self).pool.wf(),
            final(self).pool.capacity_spec() == old(self).pool.capacity_spec(),
            !parent_known ==> r.ready@.len() == 0,
            !parent_known ==> final(self).forwarded == old(self).forwarded,
            parent_known ==> r.duplicate is None,
            parent_known ==> forall|x: Byte32|
                #[trigger] final(self).forwarded@.contains(x) == (old(self).forwarded@.contains(x)
                    || has_hash(r.ready@, x)),
            parent_known ==> r.evicted@.len() == 0 && r.ready@.len() >= 1 && r.ready@[0]
                == lonely_block && parents_first(r.ready@, lonely_block.parent_spec()),
            parent_known ==> breadth_first(
                r.ready@.subrange(1, r.ready@.len() as int),
                lonely_block.hash_spec(),
                old(self).pool@,
            ),
            parent_known ==> final(self).unverified_tip == Some(
                r.ready@.last().lonely_block.block.header,
            ),
            !parent_known ==> final(self).unverified_tip == old(self).unverified_tip,
            parent_known ==> forall|x: LonelyBlockWithCallback<C>|
                #[trigger] old(self).pool@.contains(x) ==> final(self).pool@.contains(x)
                    || r.ready@.contains(x),
            parent_known ==> forall|x: LonelyBlockWithCallback<C>|
                #[trigger] final(self).pool@.contains(x) ==> old(self).pool@.contains(x),
            parent_known ==> forall|i: int|
                0 <= i < final(self).pool@.len() ==> !has_hash(
                    r.ready@,
                    (#[trigger] final(self).pool@[i]).parent_spec(),
                ),
            !parent_known && has_hash(old(self).pool@, lonely_block.hash_spec()) ==> final(self).pool@
                == old(self).pool@ && r.evicted@.len() == 0 && r.duplicate == Some(lonely_block),
            !parent_known && !has_hash(old(self).pool@, lonely_block.hash_spec()) ==> r.duplicate is None,
            !parent_known && !has_hash(old(self).pool@, lonely_block.hash_spec()) ==> {
                let s = old(self).pool@.push(lonely_block);
                if s.len() > old(self).pool.capacity_spec() {
                    final(self).pool@ == s.subrange(1, s.len() as int) && r.evicted@ == seq![s[0]]
                } else {
                    final(self).pool@ == s && r.evicted@.len() == 0
                }
            },
    {
        if !parent_known {
            if self.pool.contains_block(&lonely_block.hash()) {
                return ResolveOutcome {
                    ready: Vec::new(),
                    evicted: Vec::new(),
                    duplicate: Some(lonely_block),
                };
            }
            let evicted = self.pool.insert(lonely_block);
            return ResolveOutcome { ready: Vec::new(), evicted, duplicate: None };
        }
        let hash = lonely_block.hash();
        let mut ready: Vec<LonelyBlockWithCallback<C>> = Vec::new();
        ready.push(lonely_block);
        let descendants = self.pool.remove_blocks_by_parent(&hash);
        let ghost d = descendants@;
        let mut descendants = descendants;
        let total: usize = descendants.len();
        let mut i: usize = 0;
        let ghost first = ready@[0];
        while descendants.len() > 0
            invariant
                ready@.len() == 1 + i,
                ready@[0] == first,
                first.hash_spec() == hash,
                i + descendants@.len() == d.len(),
                d.len() == total,
                forall|j: int| 0 <= j < i ==> ready@[j + 1] == #[trigger] d[j],
                forall|j: int| 0 <= j < descendants@.len() ==> #[trigger] descendants@[j] == d[i + j],
            decreases descendants@.len(),
        {
            let x = descendants.remove(0);
            ready.push(x);
            i = i + 1;
        }
        proof {
            assert(ready@.subrange(1, ready@.len() as int) =~= d);
            assert forall|k: int| 0 <= k < ready@.len() implies (#[trigger] ready@[k]).parent_spec()
                == first.parent_spec() || exists|j: int|
                0 <= j < k && ready@[j].hash_spec() == ready@[k].parent_spec() by {
                if k >= 1 {
                    assert(ready@[(k - 1) + 1] == d[k - 1]);
                    if d[k - 1].parent_spec() != hash {
                        let j = choose|j: int| 0 <= j < k - 1 && d[j].hash_spec() == d[k - 1].parent_spec();
                        assert(ready@[j + 1] == d[j]);
                    } else {
                        assert(ready@[0].hash_spec() == hash);
                    }
                }
            }
            assert forall|x: LonelyBlockWithCallback<C>|
                #[trigger] old(self).pool@.contains(x) implies self.pool@.contains(x) || ready@.contains(x) by {
                if d.contains(x) {
                    let j = choose|j: int| 0 <= j < d.len() && d[j] == x;
                    assert(ready@[j + 1] == x);
                }
            }
            assert forall|x: LonelyBlockWithCallback<C>|
                #[trigger] self.pool@.contains(x) implies old(self).pool@.contains(x) by {
            }
            assert forall|i: int| 0 <= i < self.pool@.len() implies !has_hash(
                ready@,
                (#[trigger] self.pool@[i]).parent_spec(),
            ) by {
                let p = self.pool@[i].parent_spec();
                if has_hash(ready@, p) {
                    let k = choose|k: int| 0 <= k < ready@.len() && ready@[k].hash_spec() == p;
                    if k >= 1 {
                        assert(ready@[(k - 1) + 1] == d[k - 1]);
                        assert(has_hash(d, p));
                    }
                }
            }
        }
        self.unverified_tip = Some(ready[ready.len() - 1].lonely_block.block.header);
        let mut k: usize = 0;
        let ghost f0 = self.forwarded@;
        let ghost p0 = self.pool;
        let ghost t0 = self.unverified_tip;
        while k < ready.len()
            invariant
                self.pool == p0,
                self.unverified_tip == t0,
                k <= ready@.len(),
                forall|x: Byte32|
                    #[trigger] self.forwarded@.contains(x) == (f0.contains(x) || exists|j: int|
                        0 <= j < k && ready@[j].hash_spec() == x),
            decreases ready@.len() - k,
        {
            let ghost before = self.forwarded@;
            self.forwarded.push(ready[k].hash());
            proof {
                assert forall|x: Byte32| #[trigger] self.forwarded@.contains(x) == (f0.contains(x)
                    || exists|j: int| 0 <= j < k + 1 && ready@[j].hash_spec() == x) by {
                    if before.contains(x) {
                        let j = choose|j: int| 0 <= j < before.len() && before[j] == x;
                        assert(self.forwarded@[j] == x);
                    }
                    if self.forwarded@.contains(x) && !before.contains(x) {
                        let j = choose|j: int| 0 <= j < self.forwarded@.len() && self.forwarded@[j] == x;
                        if j < before.len() {
                            assert(before[j] == x);
                        }
                    }
                    if x == ready@[k as int].hash_spec() {
                        assert(self.forwarded@[self.forwarded@.len() - 1] == x);
                    }
                }
            }
            k = k + 1;
        }
        ResolveOutcome { ready, evicted: Vec::new(), duplicate: None }
    }
}

/// How a block that passed verification joined the chain.
pub enum AcceptKind {
    /// It extended the tip.
    Extend,
    /// Its branch outweighed the main chain and replaced its end; `returned`
    /// are the transactions that go back to the pool.
    Reorg { outcome: ReorgOutcome, returned: Vec<Byte32> },
    /// It was stored beside the main chain.
    SideBranch,
    /// It was stored already; nothing changed.
    Duplicate,
}

pub open spec fn tip_difficulty(store: ChainStore) -> nat {
    store.block(store.tip_hash()).total_difficulty.value()
}

fn copy_tx_hashes(block: &BlockView) -> (r: Vec<Byte32>)
    ensures
        block.transactions@.len() >= 1 ==> r@.len() == block.transactions@.len() - 1,
        forall|i: int| 0 <= i < r@.len() ==> #[trigger] r@[i] == block.transactions@[i + 1].hash,
{
    let mut out: Vec<Byte32> = Vec::new();
    let mut i: usize = 1;
    while i < block.transactions.len()
        invariant
            1 <= i,
            i <= block.transactions@.len() || block.transactions@.len() == 0,
            out@.len() == i - 1,
            forall|j: int| 0 <= j < out@.len() ==> #[trigger] out@[j] == block.transactions@[j + 1].hash,
        decreases block.transactions@.len() - i,
    {
        out.push(block.transactions[i].hash);
        i = i + 1;
    }
    out
}

/// Commits a block whose contextual verification gave `verified`.
/// `difficulty` is the work its compact target stands for. A stored block is
/// a duplicate; a verified block whose parent is stored one height below it
/// is stored and becomes the tip when its parent is the tip or when its
/// total difficulty beats the tip's.
pub fn consume_verified_block(
    store: &mut ChainStore,
    block: &BlockView,
    difficulty: &U256,
    verified: Result<Cycle, Error>,
) -> (r: Result<AcceptKind, Error>)
    requires
        old(store).wf(),
    ensures
        final(store).wf(),
        old(store).has_block(block.header.hash) ==> r is Ok && r->Ok_0 is Duplicate && *final(store)
            == *old(store),
        r is Err ==> *final(store) == *old(store),
        !old(store).has_block(block.header.hash) ==> {
            &&& !old(store).has_block(block.header.parent_hash) ==> r == Err::<AcceptKind, Error>(
                Error::UnknownParent { parent_hash: block.header.parent_hash },
            )
            &&& old(store).has_block(block.header.parent_hash) && verified is Err ==> r == Err::<
                AcceptKind,
                Error,
            >(verified->Err_0)
            &&& old(store).has_block(block.header.parent_hash) && verified is Ok
                && old(store).block(block.header.parent_hash).header.number + 1
                != block.header.number ==> r == Err::<AcceptKind, Error>(Error::InvalidNumber)
            &&& old(store).has_block(block.header.parent_hash) && verified is Ok
                && old(store).block(block.header.parent_hash).header.number + 1
                == block.header.number && old(store).block(
                block.header.parent_hash,
            ).total_difficulty.value() + difficulty.value() < limb_base() * limb_base()
                * limb_base() * limb_base() ==> r is Ok
        },
        r is Ok && r->Ok_0 is Extend ==> final(store).tip_hash() == block.header.hash,
        match r {
            Ok(AcceptKind::Reorg { outcome, returned }) => returned@ == absent_from(
                txs_of(*final(store), outcome.detached@),
                txs_of(*final(store), outcome.attached@),
            ),
            _ => true,
        },
        r is Ok && !(r->Ok_0 is Duplicate) ==> {
            &&& verified is Ok
            &&& old(store).has_block(block.header.parent_hash)
            &&& !old(store).has_block(block.header.hash)
            &&& final(store).has_block(block.header.hash)
            &&& final(store).block(block.header.hash).header == block.header
            &&& final(store).block(block.header.hash).total_difficulty.value() == old(store).block(
                block.header.parent_hash,
            ).total_difficulty.value() + difficulty.value()
            &&& (block.header.parent_hash == old(store).tip_hash() <==> r->Ok_0 is Extend)
            &&& r->Ok_0 is Extend ==> final(store).main_spec() == old(store).main_spec().push(
                block.header.hash,
            )
            &&& r->Ok_0 is Reorg ==> final(store).tip_hash() == block.header.hash
                && final(store).block(block.header.hash).total_difficulty.value() > tip_difficulty(
                *old(store),
            )
            &&& r->Ok_0 is SideBranch ==> final(store).main_spec() == old(store).main_spec()
                && final(store).block(block.header.hash).total_difficulty.value() <= tip_difficulty(
                *old(store),
            )
        },
        tip_difficulty(*final(store)) >= tip_difficulty(*old(store)),
{
    let hash = block.header.hash;
    if store.position(&hash).is_some() {
        return Ok(AcceptKind::Duplicate);
    }
    let parent = match store.get_block_header(&block.header.parent_hash) {
        Some(p) => p,
        None => {
            return Err(Error::UnknownParent { parent_hash: block.header.parent_hash });
        },
    };
    if let Err(e) = verified {
        return Err(e);
    }
    if parent.number >= block.header.number || parent.number + 1 != block.header.number {
        return Err(Error::InvalidNumber);
    }
    let parent_td = match store.get_total_difficulty(&block.header.parent_hash) {
        Some(t) => t,
        None => {
            return Err(Error::UnknownParent { parent_hash: block.header.parent_hash });
        },
    };
    let td = match parent_td.checked_add(difficulty) {
        Some(t) => t,
        None => {
            return Err(Error::System { code: 2 });
        },
    };
    let tip = store.tip_hash_exec();
    proof {
        store.lemma_tip();
    }
    let tip_td = match store.get_total_difficulty(&tip) {
        Some(t) => t,
        None => parent_td,
    };
    let ghost s0 = *store;
    let stored = StoredBlock {
        header: block.header,
        total_difficulty: td,
        proposals: block.proposals.clone(),
        uncles: block.uncles.clone(),
        tx_hashes: copy_tx_hashes(block),
    };
    let inserted = store.insert_block(stored);
    if !inserted {
        return Err(Error::System { code: 3 });
    }
    proof {
        if store.on_main(hash) {
            store.lemma_main_number(hash);
            assert(s0.main_spec().contains(hash));
            s0.lemma_main_number(hash);
        }
        assert(store.block(s0.tip_hash()) == s0.block(s0.tip_hash()));
    }
    if block.header.parent_hash == tip {
        store.extend(&hash);
        Ok(AcceptKind::Extend)
    } else if td.gt(&tip_td) {
        let outcome = store.reorg(&hash);
        let returned = store.returned_transactions(
            outcome.detached.as_slice(),
            outcome.attached.as_slice(),
        );
        Ok(AcceptKind::Reorg { outcome, returned })
    } else {
        Ok(AcceptKind::SideBranch)
    }
}

/// What the outside building blocks computed for one block: its epoch, the
/// DAO field, the reward to finalize with the capacity a cell for it
/// occupies, the extension inputs, and for each transaction after the
/// cellbase its cache entry and its verdict.
pub struct ContextInputs {
    pub epoch: Option<EpochExt>,
    pub dao: Result<Byte32, Error>,
    pub finalized: Result<(Byte32, u64), Error>,
    pub min_cell_capacity: u64,
    pub extension: BlockExtensionVerifier,
    pub fetched: Vec<Option<CacheEntry>>,
    pub verdicts: Vec<TxVerdict>,
}

pub open spec fn tx_hash_seq(block: BlockView) -> Seq<Byte32> {
    Seq::new((block.transactions@.len() - 1) as nat, |i: int| block.transactions@[i + 1].hash)
}

/// The checks after the epoch, in order (uncles, two-phase commit, DAO,
/// reward, extension), each unless the switch turns it off.
pub open spec fn later_checks(
    v: ContextualBlockVerifier,
    block: BlockView,
    parent: HeaderView,
    inputs: ContextInputs,
) -> Result<(), Error> {
    let uncles = if v.switch.has(crate::types::DISABLE_UNCLES) {
        Ok(())
    } else {
        uncles_check(*v.context.store, block, v.context.consensus.max_uncles_num)
    };
    let commit = if v.switch.has(crate::types::DISABLE_TWO_PHASE_COMMIT) {
        Ok(())
    } else {
        commit_check(*v.context.store, block, v.context.consensus.proposal_farthest, v.context.consensus.proposal_closest)
    };
    let dao = if v.switch.has(crate::types::DISABLE_DAOHEADER) {
        Ok(())
    } else {
        dao_check(inputs.dao, block.header)
    };
    let reward = if v.switch.has(crate::types::DISABLE_REWARD) {
        Ok(())
    } else {
        reward_check(
            block.transactions@[0].outputs@,
            parent.number,
            v.context.consensus.finalization_delay_length,
            inputs.finalized,
            inputs.min_cell_capacity,
        )
    };
    let ext = if v.switch.has(crate::types::DISABLE_EXTENSION) {
        Ok(())
    } else {
        match extension_check(
            block.extra_fields_count,
            block.extension,
            inputs.extension.lc_active,
            inputs.extension.tc_active,
            inputs.extension.chain_root,
            inputs.extension.cells_root,
        ) {
            Err(e) => Err(e),
            Ok(_) => if inputs.extension.calc_extra_hash != block.header.extra_hash {
                Err(Error::InvalidExtraHash)
            } else {
                Ok(())
            },
        }
    };
    if uncles is Err {
        uncles
    } else if commit is Err {
        commit
    } else if dao is Err {
        dao
    } else if reward is Err {
        reward
    } else {
        ext
    }
}

/// Consensus parameters that the contextual checks read.
#[derive(Clone, Copy, Debug, PartialEq, Eq, Structural)]
pub struct Consensus {
    pub proposal_farthest: u64,
    pub proposal_closest: u64,
    pub finalization_delay_length: u64,
    pub max_block_cycles: Cycle,
    pub max_uncles_num: u32,
}

/// The chain state and consensus parameters that a block is checked against.
#[derive(Clone, Copy)]
pub struct VerifyContext<'a> {
    pub store: &'a ChainStore,
    pub consensus: Consensus,
}

impl<'a> VerifyContext<'a> {
    pub fn new(store: &'a ChainStore, consensus: Consensus) -> (r: VerifyContext<'a>)
        ensures
            r.store == store,
            r.consensus == consensus,
    {
        VerifyContext { store, consensus }
    }

    pub fn get_header(&self, hash: &Byte32) -> (r: Option<HeaderView>)
        requires
            self.store.wf(),
        ensures
            r == (if self.store.has_block(*hash) {
                Some(self.store.block(*hash).header)
            } else {
                None::<HeaderView>
            }),
    {
        self.store.get_block_header(hash)
    }

    /// Whether a header that a transaction depends on may be used: it must
    /// be on the main chain.
    pub fn check_valid(&self, hash: &Byte32) -> (r: Result<(), Error>)
        requires
            self.store.wf(),
        ensures
            r is Ok <==> self.store.on_main(*hash),
            r is Err ==> r == Err::<(), Error>(Error::InvalidHeader { hash: *hash }),
    {
        if !self.store.is_main_chain(hash) {
            return Err(Error::InvalidHeader { hash: *hash });
        }
        proof {
            self.store.lemma_main_number(*hash);
        }
        match self.store.get_block_header(hash) {
            Some(_) => Ok(()),
            None => Err(Error::InvalidHeader { hash: *hash }),
        }
    }
}

/// Runs the contextual checks of a block in order: epoch, two-phase
/// commit, DAO, reward, extension, then the transactions.
pub struct ContextualBlockVerifier<'a> {
    pub context: VerifyContext<'a>,
    pub switch: Switch,
}

impl<'a> ContextualBlockVerifier<'a> {
    pub fn new(context: VerifyContext<'a>, switch: Switch) -> (r: ContextualBlockVerifier<'a>)
        ensures
            r.context == context,
            r.switch == switch,
    {
        ContextualBlockVerifier { context, switch }
    }

    fn run_later_checks(&self, block: &BlockView, parent: &HeaderView, inputs: &ContextInputs) -> (r:
        Result<(), Error>)
        requires
            self.context.store.wf(),
            block.transactions@.len() >= 1,
        ensures
            r == later_checks(*self, *block, *parent, *inputs),
    {
        let uncles = if self.switch.disable_uncles() {
            Ok(())
        } else {
            UnclesVerifier::new(
                UncleVerifierContext::new(self.context.store),
                block,
                self.context.consensus.max_uncles_num,
            ).verify()
        };
        let commit = if self.switch.disable_two_phase_commit() {
            Ok(())
        } else {
            TwoPhaseCommitVerifier::new(
                self.context.store,
                block,
                self.context.consensus.proposal_farthest,
                self.context.consensus.proposal_closest,
            ).verify()
        };
        let dao = if self.switch.disable_daoheader() {
            Ok(())
        } else {
            DaoHeaderVerifier::new(inputs.dao, &block.header).verify()
        };
        let reward = if self.switch.disable_reward() {
            Ok(())
        } else {
            RewardVerifier::new(
                &block.transactions[0],
                parent,
                self.context.consensus.finalization_delay_length,
                inputs.finalized,
                inputs.min_cell_capacity,
            ).verify()
        };
        let ext = if self.switch.disable_extension() {
            Ok(())
        } else {
            inputs.extension.verify(block)
        };
        if uncles.is_err() {
            uncles
        } else if commit.is_err() {
            commit
        } else if dao.is_err() {
            dao
        } else if reward.is_err() {
            reward
        } else {
            ext
        }
    }

    /// Verifies a block against its stored parent. Returns what the
    /// transaction batch gave, or the first check that failed.
    pub fn verify(&self, block: &BlockView, inputs: &ContextInputs) -> (r: Result<
        BlockTxsOutcome,
        Error,
    >)
        requires
            self.context.store.wf(),
            block.transactions@.len() >= 1,
            block.transactions@.len() <= u32::MAX,
            inputs.fetched@.len() == block.transactions@.len() - 1,
            inputs.verdicts@.len() == block.transactions@.len() - 1,
            inputs.epoch is Some ==> block.header.number >= inputs.epoch->Some_0.start_number,
        ensures
            !self.context.store.has_block(block.header.parent_hash) ==> r == Err::<BlockTxsOutcome, Error>(
                Error::UnknownParent { parent_hash: block.header.parent_hash },
            ),
            self.context.store.has_block(block.header.parent_hash) && inputs.epoch is None ==> r == Err::<
                BlockTxsOutcome,
                Error,
            >(Error::UnknownParent { parent_hash: block.header.parent_hash }),
            self.context.store.has_block(block.header.parent_hash) && inputs.epoch is Some ==> {
                let parent = self.context.store.block(block.header.parent_hash).header;
                let epoch = if self.switch.has(crate::types::DISABLE_EPOCH) {
                    Ok(())
                } else {
                    epoch_check(inputs.epoch->Some_0, block.header)
                };
                if epoch is Err {
                    r == Err::<BlockTxsOutcome, Error>(epoch->Err_0)
                } else if later_checks(*self, *block, parent, *inputs) is Err {
                    r == Err::<BlockTxsOutcome, Error>(later_checks(*self, *block, parent, *inputs)->Err_0)
                } else {
                    match batch_records(inputs.fetched@, inputs.verdicts@, inputs.fetched@.len() as int) {
                        Err(e) => r == Err::<BlockTxsOutcome, Error>(e),
                        Ok(s) => if cycles_sum(s) > self.context.consensus.max_block_cycles {
                            r == Err::<BlockTxsOutcome, Error>(Error::ExceededMaximumCycles)
                        } else {
                            &&& r is Ok
                            &&& r->Ok_0.cycles == cycles_sum(s)
                            &&& r->Ok_0.completed@ == s
                            &&& r->Ok_0.cache_updates@.len() == s.len()
                            &&& forall|i: int|
                                0 <= i < s.len() ==> #[trigger] r->Ok_0.cache_updates@[i] == (
                                    block.transactions@[i + 1].hash,
                                    s[i],
                                )
                        },
                    }
                }
            },
            r is Ok ==> r->Ok_0.cycles <= self.context.consensus.max_block_cycles,
    {
        let parent = match self.context.store.get_block_header(&block.header.parent_hash) {
            Some(p) => p,
            None => {
                return Err(Error::UnknownParent { parent_hash: block.header.parent_hash });
            },
        };
        let epoch = match &inputs.epoch {
            Some(e) => e,
            None => {
                return Err(Error::UnknownParent { parent_hash: parent.hash });
            },
        };
        proof {
            if self.context.store.has_block(block.header.parent_hash) {
                self.context.store.lemma_block_has(block.header.parent_hash);
            }
        }
        if !self.switch.disable_epoch() {
            if let Err(e) = EpochVerifier::new(epoch, block).verify() {
                return Err(e);
            }
        }
        if let Err(e) = self.run_later_checks(block, &parent, inputs) {
            return Err(e);
        }
        let hashes = copy_tx_hashes(block);
        let r = BlockTxsVerifier::new(self.context.consensus.max_block_cycles).verify(
            hashes.as_slice(),
            inputs.fetched.as_slice(),
            inputs.verdicts.as_slice(),
        );
        proof {
            crate::block_txs::lemma_records_len(
                inputs.fetched@,
                inputs.verdicts@,
                inputs.fetched@.len() as int,
            );
            assert forall|i: int| 0 <= i < hashes@.len() implies #[trigger] hashes@[i]
                == block.transactions@[i + 1].hash by {
            }
        }
        r
    }
}

} // verus!
