use std::sync::{Arc, Mutex};

use block_pipeline::block::{BlockView, HeaderView, LonelyBlock, LonelyBlockWithCallback, UncleBlockView};
use block_pipeline::block_txs::{BlockTxsVerifier, CacheEntry, Completed, TxCheck, TxVerdict};
use block_pipeline::chain::{
    consume_verified_block, failure_report, Consensus, VerifyContext, intake_decision, needs_non_contextual, AcceptKind,
    ContextInputs, ContextualBlockVerifier, IntakeAction, OrphanResolver,
};
use block_pipeline::codec::{HeaderIndexView, HeaderIndexViewInner};
use block_pipeline::commit::{TwoPhaseCommitVerifier, UncleVerifierContext, UnclesVerifier};
use block_pipeline::contextual::{BlockExtensionVerifier, DaoHeaderVerifier, EpochVerifier, RewardVerifier};
use block_pipeline::error::{Error, ErrorClass};
use block_pipeline::header_map::HeaderMap;
use block_pipeline::miner::Config;
use block_pipeline::orphan_pool::{OrphanBlockPool, ORPHAN_BLOCK_SIZE};
use block_pipeline::store::{ChainStore, StoredBlock};
use block_pipeline::syscall::{Close, CloseAction, Fd, Message, CLOSE};
use block_pipeline::types::{
    Byte32, CellOutput, EpochExt, EpochNumberWithFraction, ProposalShortId, Switch,
    TransactionView, U256, DISABLE_NON_CONTEXTUAL,
};
use block_pipeline::tx_cache::TxVerificationCache;
use block_pipeline::verify_queue::VerifyQueue;

fn h(n: u64) -> Byte32 {
    Byte32 { w0: n, w1: n.wrapping_mul(3), w2: 7, w3: 9 }
}

fn header(n: u64, number: u64, parent: u64) -> HeaderView {
    HeaderView {
        hash: h(n),
        number,
        parent_hash: h(parent),
        epoch: EpochNumberWithFraction::from_full_value(0),
        timestamp: 1000 + number,
        compact_target: 0x1d00_ffff,
        dao: h(500),
        extra_hash: h(600),
    }
}

fn tx(n: u64) -> TransactionView {
    TransactionView { hash: h(n), outputs: vec![] }
}

fn block(n: u64, number: u64, parent: u64, txs: Vec<TransactionView>) -> BlockView {
    BlockView {
        header: header(n, number, parent),
        transactions: txs,
        proposals: vec![],
        uncles: vec![],
        extra_fields_count: 0,
        extension: None,
    }
}

fn lonely(b: BlockView, tag: u32) -> LonelyBlockWithCallback<u32> {
    LonelyBlock { block: Arc::new(b), peer_id_with_msg_bytes: Some((7, 100)), switch: None }
        .with_callback(Some(tag))
}

fn genesis_store() -> ChainStore {
    ChainStore::new(StoredBlock {
        header: header(0, 0, 999),
        total_difficulty: U256::from_u64(10),
        proposals: vec![],
        uncles: vec![],
        tx_hashes: vec![],
    })
}

fn view(n: u64, skip: Option<Byte32>) -> HeaderIndexView {
    HeaderIndexView::new(
        h(n),
        n,
        EpochNumberWithFraction::new(3, 4, 1800),
        1_600_000_000 + n,
        h(n + 1000),
        U256 { l0: n, l1: 1, l2: 2, l3: u64::MAX },
        skip,
    )
}

#[test]
fn header_record_round_trip_short() {
    let (_, inner) = view(5, None).split();
    let bytes = inner.to_vec();
    assert_eq!(bytes.len(), 88);
    assert_eq!(&bytes[0..8], &5u64.to_le_bytes());
    assert_eq!(HeaderIndexViewInner::from_slice_should_be_ok(&bytes), inner);
}

#[test]
fn header_record_round_trip_long() {
    let (_, inner) = view(6, Some(h(42))).split();
    let bytes = inner.to_vec();
    assert_eq!(bytes.len(), 120);
    assert_eq!(&bytes[88..96], &42u64.to_le_bytes());
    assert_eq!(HeaderIndexViewInner::from_slice_should_be_ok(&bytes), inner);
}

#[test]
fn header_map_round_trip_through_cold_tier() {
    let mut map = HeaderMap::new(152);
    assert_eq!(map.size_limit(), 1);
    for n in 1..=3 {
        map.insert(view(n, if n % 2 == 0 { Some(h(n + 50)) } else { None }));
    }
    assert_eq!(map.memory_len(), 3);
    map.limit_memory();
    assert_eq!(map.memory_len(), 1);
    for n in 1..=3 {
        assert!(map.contains_key(&h(n)));
        let expected = view(n, if n % 2 == 0 { Some(h(n + 50)) } else { None });
        assert_eq!(map.get(&h(n)), Some(expected));
    }
    map.remove(&h(2));
    assert!(!map.contains_key(&h(2)));
    assert_eq!(map.get(&h(2)), None);
}

#[test]
fn header_map_capacity_and_warning() {
    let map = HeaderMap::new(152 * 1000 + 151);
    assert_eq!(map.size_limit(), 1000);
    assert!(HeaderMap::is_low_memory_limit(152 * 1000));
    assert!(!HeaderMap::is_low_memory_limit(15_200_000));
}

#[test]
fn verify_queue_add_remove() {
    let mut q = VerifyQueue::new();
    assert!(q.is_empty());
    assert!(q.add_tx(tx(1), None));
    assert!(!q.add_tx(tx(1), Some((10, 3))));
    assert!(q.add_tx(tx(2), Some((10, 3))));
    assert_eq!(q.len(), 2);
    let id1 = ProposalShortId::from_tx_hash(&h(1));
    assert!(q.contains_key(&id1));
    let removed = q.remove_tx(&id1).expect("queued");
    assert_eq!(removed.tx.hash, h(1));
    let same_tx = block_pipeline::verify_queue::Entry { tx: tx(1), remote: Some((99, 4)) };
    assert!(removed == same_tx);
    assert!(removed != block_pipeline::verify_queue::Entry { tx: tx(2), remote: None });
    assert!(q.remove_tx(&id1).is_none());
    q.remove_txs(&[ProposalShortId::from_tx_hash(&h(2))]);
    assert!(q.is_empty());
}

#[test]
fn verify_queue_full_and_clear() {
    let mut q = VerifyQueue::new();
    for n in 0..100 {
        assert!(q.add_tx(tx(n), None));
    }
    assert!(!q.is_full());
    assert!(q.add_tx(tx(100), None));
    assert!(q.is_full());
    q.clear();
    assert_eq!(q.len(), 0);
}

#[test]
fn orphan_pool_evicts_oldest_beyond_capacity() {
    let mut pool: OrphanBlockPool<u32> = OrphanBlockPool::with_capacity(2);
    assert!(pool.insert(lonely(block(1, 5, 100, vec![]), 1)).is_empty());
    assert!(pool.insert(lonely(block(2, 5, 101, vec![]), 2)).is_empty());
    let out = pool.insert(lonely(block(3, 5, 102, vec![]), 3));
    assert_eq!(out.len(), 1);
    assert_eq!(out[0].verify_callback, Some(1));
    assert_eq!(pool.len(), 2);
    assert!(pool.get_block(&h(1)).is_none());
    assert!(pool.get_block(&h(3)).is_some());
    let dup = pool.insert(lonely(block(3, 5, 102, vec![]), 9));
    assert_eq!(dup.len(), 1);
    assert_eq!(dup[0].verify_callback, Some(9));
    assert_eq!(pool.len(), 2);
}

#[test]
fn orphan_pool_capacity_constant() {
    assert_eq!(ORPHAN_BLOCK_SIZE, 16384);
}

#[test]
fn orphan_pool_releases_descendants_parents_first() {
    let mut pool: OrphanBlockPool<u32> = OrphanBlockPool::with_capacity(10);
    pool.insert(lonely(block(3, 3, 2, vec![]), 3));
    pool.insert(lonely(block(4, 4, 3, vec![]), 4));
    pool.insert(lonely(block(5, 3, 2, vec![]), 5));
    pool.insert(lonely(block(9, 9, 8, vec![]), 9));
    let out = pool.remove_blocks_by_parent(&h(2));
    let order: Vec<u32> = out.iter().map(|b| b.verify_callback.unwrap()).collect();
    assert_eq!(order, vec![3, 5, 4]);
    assert_eq!(pool.len(), 1);
    assert!(pool.remove_blocks_by_parent(&h(2)).is_empty());
    let rest = pool.take_all();
    assert_eq!(rest.len(), 1);
    assert_eq!(rest[0].verify_callback, Some(9));
    assert!(pool.is_empty());
}

#[test]
fn block_txs_cycle_overrun_is_rejected() {
    let v = BlockTxsVerifier::new(100);
    let hashes = [h(1), h(2)];
    let fetched = [None, None];
    let verdicts = [
        TxVerdict::Verified(Completed { cycles: 60, fee: 1 }),
        TxVerdict::Verified(Completed { cycles: 41, fee: 1 }),
    ];
    assert!(matches!(v.verify(&hashes, &fetched, &verdicts), Err(Error::ExceededMaximumCycles)));
    let verdicts = [
        TxVerdict::Verified(Completed { cycles: 60, fee: 1 }),
        TxVerdict::Verified(Completed { cycles: 40, fee: 1 }),
    ];
    let ok = v.verify(&hashes, &fetched, &verdicts).expect("within budget");
    assert_eq!(ok.cycles, 100);
    assert_eq!(ok.cache_updates.len(), 2);
    assert_eq!(ok.cache_updates[1], (h(2), Completed { cycles: 40, fee: 1 }));
}

#[test]
fn block_txs_reuses_cached_cycles() {
    let v = BlockTxsVerifier::new(1000);
    let cached = Completed { cycles: 77, fee: 5 };
    let fetched = [Some(CacheEntry::Completed(cached)), Some(CacheEntry::Suspended { snapshot: 4 }), None];
    assert_eq!(
        BlockTxsVerifier::plan(&fetched),
        vec![TxCheck::TimeRelative, TxCheck::Resume { snapshot: 4 }, TxCheck::Full]
    );
    let verdicts = [
        TxVerdict::Rechecked,
        TxVerdict::Verified(Completed { cycles: 10, fee: 1 }),
        TxVerdict::Verified(Completed { cycles: 3, fee: 1 }),
    ];
    let ok = v.verify(&[h(1), h(2), h(3)], &fetched, &verdicts).expect("accepted");
    assert_eq!(ok.completed[0], cached);
    assert_eq!(ok.cycles, 90);
}

#[test]
fn block_txs_reports_first_failing_index() {
    let v = BlockTxsVerifier::new(1000);
    let verdicts = [
        TxVerdict::Verified(Completed { cycles: 1, fee: 0 }),
        TxVerdict::Failed { code: 11 },
        TxVerdict::Failed { code: 12 },
    ];
    let r = v.verify(&[h(1), h(2), h(3)], &[None, None, None], &verdicts);
    assert!(matches!(r, Err(Error::Transactions { index: 2, code: 11 })));
}

#[test]
fn epoch_verifier_checks_fraction_and_target() {
    let epoch = EpochExt { number: 2, start_number: 100, length: 50, compact_target: 0x1d00_ffff };
    let mut b = block(1, 103, 0, vec![]);
    b.header.epoch = EpochNumberWithFraction::new(2, 3, 50);
    assert!(EpochVerifier::new(&epoch, &b).verify().is_ok());
    assert_eq!(b.header.epoch.number(), 2);
    assert_eq!(b.header.epoch.index(), 3);
    assert_eq!(b.header.epoch.length(), 50);
    b.header.epoch = EpochNumberWithFraction::new(2, 4, 50);
    assert!(matches!(EpochVerifier::new(&epoch, &b).verify(), Err(Error::EpochNumberMismatch { .. })));
    b.header.epoch = EpochNumberWithFraction::new(2, 3, 50);
    b.header.compact_target = 1;
    assert!(matches!(
        EpochVerifier::new(&epoch, &b).verify(),
        Err(Error::EpochTargetMismatch { expected: 0x1d00_ffff, actual: 1 })
    ));
}

#[test]
fn dao_verifier_rejects_corrupted_field() {
    let hd = header(1, 1, 0);
    assert!(DaoHeaderVerifier::new(Ok(h(500)), &hd).verify().is_ok());
    assert!(matches!(DaoHeaderVerifier::new(Ok(h(501)), &hd).verify(), Err(Error::InvalidDAO)));
}

#[test]
fn reward_verifier_rules() {
    let parent = header(1, 20, 0);
    let lock = h(77);
    let empty = TransactionView { hash: h(1), outputs: vec![] };
    let paid = TransactionView { hash: h(2), outputs: vec![CellOutput { capacity: 500, lock }] };
    assert!(RewardVerifier::new(&empty, &parent, 30, Ok((lock, 500)), 61).verify().is_ok());
    assert!(matches!(
        RewardVerifier::new(&paid, &parent, 30, Ok((lock, 500)), 61).verify(),
        Err(Error::InvalidRewardTarget)
    ));
    assert!(RewardVerifier::new(&paid, &parent, 10, Ok((lock, 500)), 61).verify().is_ok());
    assert!(matches!(
        RewardVerifier::new(&paid, &parent, 10, Ok((lock, 499)), 61).verify(),
        Err(Error::InvalidRewardAmount)
    ));
    assert!(matches!(
        RewardVerifier::new(&paid, &parent, 10, Ok((h(78), 500)), 61).verify(),
        Err(Error::InvalidRewardTarget)
    ));
    assert!(RewardVerifier::new(&empty, &parent, 10, Ok((lock, 50)), 61).verify().is_ok());
}

#[test]
fn extension_verifier_rules() {
    let root = h(31);
    let mut ext = Vec::new();
    for w in [root.w0, root.w1, root.w2, root.w3] {
        ext.extend_from_slice(&w.to_le_bytes());
    }
    let mut b = block(1, 1, 0, vec![]);
    let off = BlockExtensionVerifier::new(false, false, Ok(root), Ok(root), h(600));
    assert!(off.verify(&b).is_ok());
    let lc = BlockExtensionVerifier::new(true, false, Ok(root), Ok(root), h(600));
    assert!(matches!(lc.verify(&b), Err(Error::NoBlockExtension)));
    b.extra_fields_count = 1;
    b.extension = Some(ext.clone());
    assert!(lc.verify(&b).is_ok());
    let wrong = BlockExtensionVerifier::new(true, false, Ok(h(32)), Ok(root), h(600));
    assert!(matches!(wrong.verify(&b), Err(Error::InvalidChainRoot)));
    let both = BlockExtensionVerifier::new(true, true, Ok(root), Ok(root), h(600));
    assert!(matches!(both.verify(&b), Err(Error::InvalidBlockExtension)));
    b.extension = Some(vec![0u8; 97]);
    assert!(matches!(off.verify(&b), Err(Error::ExceededMaximumBlockExtensionBytes)));
    b.extension = Some(vec![]);
    assert!(matches!(off.verify(&b), Err(Error::EmptyBlockExtension)));
    b.extension = Some(ext);
    let bad_extra = BlockExtensionVerifier::new(true, false, Ok(root), Ok(root), h(601));
    assert!(matches!(bad_extra.verify(&b), Err(Error::InvalidExtraHash)));
    b.extra_fields_count = 2;
    assert!(matches!(off.verify(&b), Err(Error::UnknownFields)));
}

fn accept(store: &mut ChainStore, b: &BlockView, difficulty: u64) -> Result<AcceptKind, Error> {
    consume_verified_block(store, b, &U256::from_u64(difficulty), Ok(0))
}

#[test]
fn linear_accept_scenario() {
    let mut store = genesis_store();
    let b1 = block(1, 1, 0, vec![tx(100)]);
    let b2 = block(2, 2, 1, vec![tx(101)]);
    assert!(matches!(accept(&mut store, &b1, 5), Ok(AcceptKind::Extend)));
    assert!(matches!(accept(&mut store, &b2, 5), Ok(AcceptKind::Extend)));
    assert_eq!(store.tip_hash_exec(), h(2));
    assert_eq!(store.tip_number(), 2);
    assert_eq!(store.get_total_difficulty(&h(2)), Some(U256::from_u64(20)));
    assert!(store.is_main_chain(&h(1)));
    assert_eq!(store.get_block_hash(1), Some(h(1)));
    assert_eq!(store.get_block_number(&h(2)), Some(2));
}

#[test]
fn out_of_order_accept_scenario() {
    let mut store = genesis_store();
    let mut resolver: OrphanResolver<u32> = OrphanResolver::new(ORPHAN_BLOCK_SIZE);
    let b1 = block(1, 1, 0, vec![tx(100)]);
    let b2 = block(2, 2, 1, vec![tx(101)]);
    let first = resolver.process_lonely_block(lonely(b2, 2), store.get_block_header(&h(1)).is_some());
    assert!(first.ready.is_empty());
    assert_eq!(resolver.pool.len(), 1);
    let second = resolver.process_lonely_block(lonely(b1, 1), store.get_block_header(&h(0)).is_some());
    let order: Vec<u32> = second.ready.iter().map(|b| b.verify_callback.unwrap()).collect();
    assert_eq!(order, vec![1, 2]);
    assert_eq!(resolver.pool.len(), 0);
    assert_eq!(resolver.unverified_tip.map(|t| t.hash), Some(h(2)));
    for lb in second.ready.iter() {
        assert!(matches!(accept(&mut store, &lb.lonely_block.block, 5), Ok(AcceptKind::Extend)));
    }
    assert_eq!(store.tip_hash_exec(), h(2));
}

#[test]
fn bad_dao_scenario() {
    let mut store = genesis_store();
    let b1 = block(1, 1, 0, vec![tx(100)]);
    assert!(matches!(accept(&mut store, &b1, 5), Ok(AcceptKind::Extend)));
    let b2 = block(2, 2, 1, vec![tx(101)]);
    let inputs = ContextInputs {
        epoch: Some(EpochExt { number: 0, start_number: 0, length: 1000, compact_target: 0x1d00_ffff }),
        dao: Ok(h(501)),
        finalized: Ok((h(77), 0)),
        min_cell_capacity: 61,
        extension: BlockExtensionVerifier::new(false, false, Ok(h(0)), Ok(h(0)), h(600)),
        fetched: vec![],
        verdicts: vec![],
    };
    let mut off = Switch::none();
    off.bits = block_pipeline::types::DISABLE_EPOCH | block_pipeline::types::DISABLE_TWO_PHASE_COMMIT;
    let consensus = Consensus {
        proposal_farthest: 10,
        proposal_closest: 2,
        finalization_delay_length: 0,
        max_block_cycles: 1_000_000,
        max_uncles_num: 2,
    };
    let verifier = ContextualBlockVerifier::new(VerifyContext::new(&store, consensus), off);
    let r = verifier.verify(&b2, &inputs);
    assert!(matches!(r, Err(Error::InvalidDAO)));
    let err = r.err().unwrap();
    assert_eq!(err.class(), ErrorClass::InvalidContextual);
    let report = failure_report(Some((7, 100)), h(2), err).expect("peer reported");
    assert_eq!(report.peer_id, 7);
    assert!(matches!(
        consume_verified_block(&mut store, &b2, &U256::from_u64(5), Err(err)),
        Err(Error::InvalidDAO)
    ));
    assert_eq!(store.tip_hash_exec(), h(1));
}

#[test]
fn reorg_scenario() {
    let mut store = genesis_store();
    let a1 = block(1, 1, 0, vec![tx(100)]);
    let a2 = block(2, 2, 1, vec![tx(101), tx(201)]);
    let a3 = block(3, 3, 2, vec![tx(102), tx(202)]);
    accept(&mut store, &a1, 10).unwrap();
    accept(&mut store, &a2, 5).unwrap();
    accept(&mut store, &a3, 5).unwrap();
    assert_eq!(store.get_total_difficulty(&h(3)), Some(U256::from_u64(30)));
    let b1 = block(11, 2, 1, vec![tx(111), tx(201)]);
    let b2 = block(12, 3, 11, vec![tx(112)]);
    let b3 = block(13, 4, 12, vec![tx(113)]);
    assert!(matches!(accept(&mut store, &b1, 3), Ok(AcceptKind::SideBranch)));
    assert!(matches!(accept(&mut store, &b2, 3), Ok(AcceptKind::SideBranch)));
    assert_eq!(store.tip_hash_exec(), h(3));
    let outcome = match accept(&mut store, &b3, 5) {
        Ok(AcceptKind::Reorg { outcome, returned }) => {
            assert_eq!(returned, vec![h(202)]);
            outcome
        }
        _ => panic!("expected a reorg"),
    };
    assert_eq!(store.get_total_difficulty(&h(13)), Some(U256::from_u64(31)));
    assert_eq!(outcome.detached, vec![h(3), h(2)]);
    assert_eq!(outcome.attached, vec![h(11), h(12), h(13)]);
    let detached_txs: Vec<Byte32> = [&a3, &a2]
        .iter()
        .flat_map(|b| b.transactions.iter().skip(1).map(|t| t.hash))
        .collect();
    let attached_txs: Vec<Byte32> = [&b1, &b2, &b3]
        .iter()
        .flat_map(|b| b.transactions.iter().skip(1).map(|t| t.hash))
        .collect();
    let returned: Vec<Byte32> = detached_txs.into_iter().filter(|t| !attached_txs.contains(t)).collect();
    assert_eq!(returned, vec![h(202)]);
    assert_eq!(store.tip_hash_exec(), h(13));
    assert!(!store.is_main_chain(&h(2)));
    assert_eq!(store.get_block_hash(2), Some(h(11)));
}

#[test]
fn duplicate_submission_scenario() {
    let mut store = genesis_store();
    let b1 = block(1, 1, 0, vec![tx(100)]);
    assert!(matches!(accept(&mut store, &b1, 5), Ok(AcceptKind::Extend)));
    assert!(matches!(accept(&mut store, &b1, 5), Ok(AcceptKind::Duplicate)));
    assert_eq!(store.tip_number(), 1);
}

#[test]
fn unknown_parent_and_bad_number() {
    let mut store = genesis_store();
    let orphan = block(5, 5, 4, vec![tx(1)]);
    assert!(matches!(accept(&mut store, &orphan, 1), Err(Error::UnknownParent { .. })));
    let skip = block(6, 3, 0, vec![tx(1)]);
    assert!(matches!(accept(&mut store, &skip, 1), Err(Error::InvalidNumber)));
}

#[test]
fn two_phase_commit_window() {
    let mut store = genesis_store();
    let mut b1 = block(1, 1, 0, vec![tx(100)]);
    b1.proposals = vec![ProposalShortId::from_tx_hash(&h(300))];
    let mut stored = b1.clone();
    stored.uncles = vec![UncleBlockView { header: header(50, 1, 0), proposals: vec![ProposalShortId::from_tx_hash(&h(301))] }];
    accept(&mut store, &stored, 5).unwrap();
    let b2 = block(2, 2, 1, vec![tx(100)]);
    accept(&mut store, &b2, 5).unwrap();
    let committing = block(3, 3, 2, vec![tx(0), tx(300), tx(301)]);
    assert!(TwoPhaseCommitVerifier::new(&store, &committing, 10, 2).verify().is_ok());
    let unproposed = block(3, 3, 2, vec![tx(0), tx(302)]);
    assert!(matches!(TwoPhaseCommitVerifier::new(&store, &unproposed, 10, 2).verify(), Err(Error::CommitInvalid)));
    let too_close = block(3, 3, 2, vec![tx(0), tx(300)]);
    assert!(matches!(TwoPhaseCommitVerifier::new(&store, &too_close, 10, 3).verify(), Err(Error::CommitInvalid)));
    let uncles = UncleVerifierContext::new(&store);
    assert!(uncles.double_inclusion(&h(50)));
    assert!(uncles.double_inclusion(&h(1)));
    assert!(!uncles.double_inclusion(&h(51)));
    assert!(uncles.descendant(&header(60, 2, 1)));
    assert!(!uncles.descendant(&header(61, 3, 1)));
}

#[test]
fn intake_decisions() {
    assert!(needs_non_contextual(None));
    assert!(!needs_non_contextual(Some(Switch { bits: DISABLE_NON_CONTEXTUAL })));
    assert_eq!(intake_decision(Ok(())), IntakeAction::Forward);
    assert_eq!(
        intake_decision(Err(Error::Malformed { code: 3 })),
        IntakeAction::Reject { error: Error::Malformed { code: 3 }, report: true }
    );
    assert_eq!(
        intake_decision(Err(Error::System { code: 1 })),
        IntakeAction::Reject { error: Error::System { code: 1 }, report: false }
    );
    assert!(failure_report(Some((1, 2)), h(1), Error::UnknownParent { parent_hash: h(0) }).is_none());
}

#[test]
fn u256_arithmetic() {
    let a = U256 { l0: u64::MAX, l1: 0, l2: 0, l3: 0 };
    let s = a.checked_add(&U256::from_u64(1)).unwrap();
    assert_eq!(s, U256 { l0: 0, l1: 1, l2: 0, l3: 0 });
    assert!(s.gt(&a));
    assert!(!a.gt(&s));
    let max = U256 { l0: u64::MAX, l1: u64::MAX, l2: u64::MAX, l3: u64::MAX };
    assert!(max.checked_add(&U256::from_u64(1)).is_none());
}

#[test]
fn close_syscall_decision() {
    let close = Close::new(4, Arc::new(Mutex::new(Vec::new())));
    assert_eq!(close.ecall_action(1, 9), CloseAction::NotHandled);
    assert_eq!(
        close.ecall_action(CLOSE, 9),
        CloseAction::Yield { cycles: 800, message: Message::Close(4, Fd(9)) }
    );
}

#[test]
fn miner_config_fields() {
    let c = Config::new(10, 3, None, h(1));
    assert_eq!(c.max_tx, 10);
    assert_eq!(c.redeem_script_hash, h(1));
}

#[test]
fn every_submitted_block_is_accounted_once() {
    let mut resolver: OrphanResolver<u32> = OrphanResolver::new(3);
    let mut fired: Vec<u32> = Vec::new();
    for n in 1..=6u64 {
        let out = resolver.process_lonely_block(lonely(block(n, n + 10, n + 100, vec![]), n as u32), false);
        fired.extend(out.evicted.into_iter().map(|b| b.verify_callback.unwrap()));
        assert!(out.ready.is_empty());
    }
    assert_eq!(fired, vec![1, 2, 3]);
    assert_eq!(resolver.pool.len(), 3);
    let known = resolver.process_lonely_block(lonely(block(104, 13, 0, vec![]), 7), true);
    let released: Vec<u32> = known.ready.iter().map(|b| b.verify_callback.unwrap()).collect();
    assert_eq!(released, vec![7, 4]);
    assert_eq!(resolver.pool.len(), 2);
}

#[test]
fn orphan_pool_never_exceeds_capacity() {
    let mut pool: OrphanBlockPool<u32> = OrphanBlockPool::with_capacity(4);
    for n in 0..20u64 {
        pool.insert(lonely(block(n, 5, n + 1000, vec![]), n as u32));
        assert!(pool.len() <= 4);
    }
    assert_eq!(pool.len(), 4);
}

#[test]
fn tip_difficulty_never_drops() {
    let mut store = genesis_store();
    accept(&mut store, &block(1, 1, 0, vec![tx(1)]), 5).unwrap();
    accept(&mut store, &block(2, 2, 1, vec![tx(2)]), 5).unwrap();
    let before = store.get_total_difficulty(&store.tip_hash_exec()).unwrap();
    assert!(matches!(accept(&mut store, &block(11, 1, 0, vec![tx(3)]), 9), Ok(AcceptKind::SideBranch)));
    let after = store.get_total_difficulty(&store.tip_hash_exec()).unwrap();
    assert_eq!(store.tip_hash_exec(), h(2));
    assert!(!before.gt(&after));
    assert!(matches!(accept(&mut store, &block(12, 2, 11, vec![tx(4)]), 1), Ok(AcceptKind::SideBranch)));
    assert!(matches!(accept(&mut store, &block(13, 2, 11, vec![tx(5)]), 2), Ok(AcceptKind::Reorg { .. })));
    let reorged = store.get_total_difficulty(&store.tip_hash_exec()).unwrap();
    assert_eq!(reorged, U256::from_u64(21));
    assert!(reorged.gt(&after));
}

#[test]
fn cycle_overrun_scenario() {
    let mut store = genesis_store();
    let b1 = block(1, 1, 0, vec![tx(0), tx(1), tx(2)]);
    let consensus = Consensus {
        proposal_farthest: 10,
        proposal_closest: 2,
        finalization_delay_length: 100,
        max_block_cycles: 1000,
        max_uncles_num: 2,
    };
    let inputs = ContextInputs {
        epoch: Some(EpochExt { number: 0, start_number: 0, length: 1000, compact_target: 0x1d00_ffff }),
        dao: Ok(h(500)),
        finalized: Ok((h(77), 0)),
        min_cell_capacity: 61,
        extension: BlockExtensionVerifier::new(false, false, Ok(h(0)), Ok(h(0)), h(600)),
        fetched: vec![None, None],
        verdicts: vec![
            TxVerdict::Verified(Completed { cycles: 600, fee: 1 }),
            TxVerdict::Verified(Completed { cycles: 401, fee: 1 }),
        ],
    };
    let mut off = Switch::none();
    off.bits = block_pipeline::types::DISABLE_EPOCH | block_pipeline::types::DISABLE_TWO_PHASE_COMMIT;
    let r = ContextualBlockVerifier::new(VerifyContext::new(&store, consensus), off).verify(&b1, &inputs);
    assert!(matches!(r, Err(Error::ExceededMaximumCycles)));
    let verified = r.map(|o| o.cycles);
    assert!(matches!(
        consume_verified_block(&mut store, &b1, &U256::from_u64(5), verified),
        Err(Error::ExceededMaximumCycles)
    ));
    assert_eq!(store.tip_hash_exec(), h(0));
    let fits = ContextInputs {
        verdicts: vec![
            TxVerdict::Verified(Completed { cycles: 600, fee: 1 }),
            TxVerdict::Verified(Completed { cycles: 400, fee: 1 }),
        ],
        ..inputs
    };
    let ok = ContextualBlockVerifier::new(VerifyContext::new(&store, consensus), off)
        .verify(&b1, &fits)
        .expect("within budget");
    assert_eq!(ok.cycles, 1000);
    assert_eq!(ok.cache_updates.len(), 2);
}

#[test]
fn verify_context_checks_header_validity() {
    let mut store = genesis_store();
    accept(&mut store, &block(1, 1, 0, vec![tx(1)]), 5).unwrap();
    accept(&mut store, &block(11, 1, 0, vec![tx(2)]), 1).unwrap();
    let consensus = Consensus {
        proposal_farthest: 10,
        proposal_closest: 2,
        finalization_delay_length: 0,
        max_block_cycles: 1,
        max_uncles_num: 2,
    };
    let context = VerifyContext::new(&store, consensus);
    assert!(context.check_valid(&h(1)).is_ok());
    assert!(matches!(context.check_valid(&h(11)), Err(Error::InvalidHeader { .. })));
    assert!(matches!(context.check_valid(&h(99)), Err(Error::InvalidHeader { .. })));
    assert_eq!(context.get_header(&h(11)).map(|hd| hd.number), Some(1));
}

#[test]
fn truncate_rolls_back_main_chain() {
    let mut store = genesis_store();
    accept(&mut store, &block(1, 1, 0, vec![tx(1)]), 5).unwrap();
    accept(&mut store, &block(2, 2, 1, vec![tx(2)]), 5).unwrap();
    assert_eq!(store.truncate(&h(1)).unwrap(), vec![h(2)]);
    assert_eq!(store.tip_hash_exec(), h(1));
    assert!(matches!(store.truncate(&h(2)), Err(Error::UnknownParent { .. })));
}

#[test]
fn tx_cache_evicts_least_recent_and_peek_keeps_order() {
    let mut cache = TxVerificationCache::new(2);
    let c = |n: u64| CacheEntry::Completed(Completed { cycles: n, fee: 0 });
    cache.put(h(1), c(1));
    cache.put(h(2), c(2));
    assert_eq!(cache.peek(&h(1)), Some(c(1)));
    cache.put(h(3), c(3));
    assert_eq!(cache.len(), 2);
    assert_eq!(cache.peek(&h(1)), None);
    assert_eq!(cache.fetch(&[h(2), h(3), h(4)]), vec![Some(c(2)), Some(c(3)), None]);
    cache.put(h(2), CacheEntry::Suspended { snapshot: 8 });
    cache.put(h(5), c(5));
    assert_eq!(cache.peek(&h(3)), None);
    assert_eq!(cache.peek(&h(2)), Some(CacheEntry::Suspended { snapshot: 8 }));
    cache.update(&[(h(6), Completed { cycles: 6, fee: 1 })]);
    assert_eq!(cache.peek(&h(6)), Some(CacheEntry::Completed(Completed { cycles: 6, fee: 1 })));
    assert_eq!(cache.len(), 2);
}

#[test]
fn uncle_rules() {
    let mut store = genesis_store();
    accept(&mut store, &block(1, 1, 0, vec![tx(1)]), 5).unwrap();
    accept(&mut store, &block(2, 2, 1, vec![tx(2)]), 5).unwrap();
    let uncle = |n: u64, number: u64, parent: u64| UncleBlockView { header: header(n, number, parent), proposals: vec![] };
    let mut b3 = block(3, 3, 2, vec![tx(3)]);
    b3.uncles = vec![uncle(21, 2, 1)];
    assert!(UnclesVerifier::new(UncleVerifierContext::new(&store), &b3, 2).verify().is_ok());
    b3.uncles = vec![uncle(21, 2, 1), uncle(21, 2, 1)];
    assert!(matches!(UnclesVerifier::new(UncleVerifierContext::new(&store), &b3, 2).verify(), Err(Error::UncleDuplicate { .. })));
    b3.uncles = vec![uncle(21, 2, 1), uncle(22, 2, 1), uncle(23, 2, 1)];
    assert!(matches!(
        UnclesVerifier::new(UncleVerifierContext::new(&store), &b3, 2).verify(),
        Err(Error::UnclesOverCount { max: 2, actual: 3 })
    ));
    b3.uncles = vec![uncle(2, 2, 1)];
    assert!(matches!(UnclesVerifier::new(UncleVerifierContext::new(&store), &b3, 2).verify(), Err(Error::UncleDoubleInclusion { .. })));
    b3.uncles = vec![uncle(24, 3, 1)];
    assert!(matches!(UnclesVerifier::new(UncleVerifierContext::new(&store), &b3, 2).verify(), Err(Error::UncleNotDescendant { .. })));
}

#[test]
fn reward_needs_one_output_with_the_whole_reward() {
    let parent = header(1, 20, 0);
    let lock = h(77);
    let split = TransactionView {
        hash: h(1),
        outputs: vec![CellOutput { capacity: 9, lock }, CellOutput { capacity: 1, lock }],
    };
    assert!(matches!(
        RewardVerifier::new(&split, &parent, 10, Ok((lock, 10)), 1).verify(),
        Err(Error::InvalidRewardAmount)
    ));
    let extra = TransactionView {
        hash: h(2),
        outputs: vec![CellOutput { capacity: 1, lock: h(5) }, CellOutput { capacity: 10, lock }],
    };
    assert!(RewardVerifier::new(&extra, &parent, 10, Ok((lock, 10)), 1).verify().is_ok());
    let wrong_lock = TransactionView { hash: h(3), outputs: vec![CellOutput { capacity: 10, lock: h(5) }] };
    assert!(matches!(
        RewardVerifier::new(&wrong_lock, &parent, 10, Ok((lock, 10)), 1).verify(),
        Err(Error::InvalidRewardTarget)
    ));
}

#[test]
fn cached_result_wins_over_a_fresh_verdict() {
    let v = BlockTxsVerifier::new(1000);
    let cached = Completed { cycles: 77, fee: 5 };
    let ok = v
        .verify(&[h(1)], &[Some(CacheEntry::Completed(cached))], &[TxVerdict::Verified(Completed { cycles: 5, fee: 5 })])
        .expect("accepted");
    assert_eq!(ok.completed, vec![cached]);
    assert!(matches!(
        v.verify(&[h(1)], &[None], &[TxVerdict::Rechecked]),
        Err(Error::System { .. })
    ));
}

#[test]
fn resolver_tracks_forwarded_blocks_and_duplicates() {
    let store = genesis_store();
    let mut resolver: OrphanResolver<u32> = OrphanResolver::new(4);
    assert!(resolver.is_parent_known(&store, &h(0)));
    assert!(!resolver.is_parent_known(&store, &h(1)));
    let out = resolver.process_lonely_block(lonely(block(1, 1, 0, vec![]), 1), true);
    assert_eq!(out.ready.len(), 1);
    assert!(resolver.is_parent_known(&store, &h(1)));
    let parked = resolver.process_lonely_block(lonely(block(5, 5, 4, vec![]), 5), false);
    assert!(parked.duplicate.is_none());
    let again = resolver.process_lonely_block(lonely(block(5, 5, 4, vec![]), 6), false);
    assert_eq!(again.duplicate.map(|b| b.verify_callback), Some(Some(6)));
    assert!(again.evicted.is_empty());
    assert_eq!(resolver.pool.len(), 1);
    resolver.forget(&h(1));
    assert!(!resolver.is_parent_known(&store, &h(1)));
}

#[test]
fn drain_is_breadth_first_with_siblings_in_arrival_order() {
    let mut pool: OrphanBlockPool<u32> = OrphanBlockPool::with_capacity(10);
    pool.insert(lonely(block(24, 4, 22, vec![]), 24));
    pool.insert(lonely(block(22, 3, 20, vec![]), 22));
    pool.insert(lonely(block(21, 3, 20, vec![]), 21));
    pool.insert(lonely(block(23, 4, 21, vec![]), 23));
    let out = pool.remove_blocks_by_parent(&h(20));
    let order: Vec<u32> = out.iter().map(|b| b.verify_callback.unwrap()).collect();
    assert_eq!(order, vec![22, 21, 24, 23]);
}
