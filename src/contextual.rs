use vstd::prelude::*;

use crate::block::{BlockView, HeaderView};
use crate::codec::{hash_bytes, push_hash};
use crate::error::Error;
use crate::types::{pack_epoch, Byte32, CellOutput, Cycle, EpochExt, TransactionView};

verus! {

pub open spec fn epoch_check(epoch: EpochExt, header: HeaderView) -> Result<(), Error> {
    let expected = pack_epoch(epoch.number, (header.number - epoch.start_number) as u64, epoch.length);
    if header.epoch.full != expected {
        Err(Error::EpochNumberMismatch { expected, actual: header.epoch.full })
    } else if epoch.compact_target != header.compact_target {
        Err(Error::EpochTargetMismatch { expected: epoch.compact_target, actual: header.compact_target })
    } else {
        Ok(())
    }
}

/// Checks that a block carries the epoch position and difficulty target of
/// its epoch.
pub struct EpochVerifier<'a> {
    pub epoch: &'a EpochExt,
    pub block: &'a BlockView,
}

impl<'a> EpochVerifier<'a> {
    pub fn new(epoch: &'a EpochExt, block: &'a BlockView) -> (r: EpochVerifier<'a>)
        ensures
            r.epoch == epoch,
            r.block == block,
    {
        EpochVerifier { epoch, block }
    }

    pub fn verify(&self) -> (r: Result<(), Error>)
        requires
            self.block.header.number >= self.epoch.start_number,
        ensures
            r == epoch_check(*self.epoch, self.block.header),
    {
        let header = &self.block.header;
        let expected = self.epoch.number_with_fraction(header.number);
        if header.epoch.full_value() != expected.full_value() {
            return Err(
                Error::EpochNumberMismatch {
                    expected: expected.full_value(),
                    actual: header.epoch.full_value(),
                },
            );
        }
        if self.epoch.compact_target != header.compact_target {
            return Err(
                Error::EpochTargetMismatch {
                    expected: self.epoch.compact_target,
                    actual: header.compact_target,
                },
            );
        }
        Ok(())
    }
}

pub open spec fn dao_check(dao: Result<Byte32, Error>, header: HeaderView) -> Result<(), Error> {
    match dao {
        Err(e) => Err(e),
        Ok(d) => if d != header.dao {
            Err(Error::InvalidDAO)
        } else {
            Ok(())
        },
    }
}

/// Compares the DAO field that the DAO calculator derived from the block's
/// transactions and its parent with the one in the header.
pub struct DaoHeaderVerifier<'a> {
    pub dao: Result<Byte32, Error>,
    pub header: &'a HeaderView,
}

impl<'a> DaoHeaderVerifier<'a> {
    pub fn new(dao: Result<Byte32, Error>, header: &'a HeaderView) -> (r: DaoHeaderVerifier<'a>)
        ensures
            r.dao == dao,
            r.header == header,
    {
        DaoHeaderVerifier { dao, header }
    }

    pub fn verify(&self) -> (r: Result<(), Error>)
        ensures
            r == dao_check(self.dao, *self.header),
    {
        match self.dao {
            Err(e) => Err(e),
            Ok(d) => if d != self.header.dao {
                Err(Error::InvalidDAO)
            } else {
                Ok(())
            },
        }
    }
}

/// Some output pays exactly `total`.
pub open spec fn pays_amount(outputs: Seq<CellOutput>, total: u64) -> bool {
    exists|i: int| 0 <= i < outputs.len() && outputs[i].capacity == total
}

/// Some output pays exactly `total` to `lock`.
pub open spec fn pays_reward(outputs: Seq<CellOutput>, total: u64, lock: Byte32) -> bool {
    exists|i: int| 0 <= i < outputs.len() && outputs[i].capacity == total && outputs[i].lock == lock
}

/// The rule for the cellbase: no outputs while no block can be finalized
/// yet or the reward is too small for a cell; otherwise an output that pays
/// exactly the reward to the finalization target.
pub open spec fn reward_check(
    outputs: Seq<CellOutput>,
    parent_number: u64,
    finalization_delay_length: u64,
    finalized: Result<(Byte32, u64), Error>,
    min_cell_capacity: u64,
) -> Result<(), Error> {
    match finalized {
        Err(e) => Err(e),
        Ok((target_lock, total)) => {
            if parent_number + 1 <= finalization_delay_length || total < min_cell_capacity {
                if outputs.len() == 0 {
                    Ok(())
                } else {
                    Err(Error::InvalidRewardTarget)
                }
            } else if pays_reward(outputs, total, target_lock) {
                Ok(())
            } else if pays_amount(outputs, total) {
                Err(Error::InvalidRewardTarget)
            } else {
                Err(Error::InvalidRewardAmount)
            }
        },
    }
}

/// Checks the cellbase against the reward that the block finalizes.
/// `finalized` is the lock and total of that reward, from the reward
/// calculator; `min_cell_capacity` is the capacity a cell with that lock
/// occupies.
pub struct RewardVerifier<'a> {
    pub cellbase: &'a TransactionView,
    pub parent: &'a HeaderView,
    pub finalization_delay_length: u64,
    pub finalized: Result<(Byte32, u64), Error>,
    pub min_cell_capacity: u64,
}

impl<'a> RewardVerifier<'a> {
    pub fn new(
        cellbase: &'a TransactionView,
        parent: &'a HeaderView,
        finalization_delay_length: u64,
        finalized: Result<(Byte32, u64), Error>,
        min_cell_capacity: u64,
    ) -> (r: RewardVerifier<'a>)
        ensures
            r.cellbase == cellbase,
            r.parent == parent,
            r.finalization_delay_length == finalization_delay_length,
            r.finalized == finalized,
            r.min_cell_capacity == min_cell_capacity,
    {
        RewardVerifier { cellbase, parent, finalization_delay_length, finalized, min_cell_capacity }
    }

    /// Whether some output pays `total`, and whether some pays it to `lock`.
    fn find_payment(outputs: &Vec<CellOutput>, total: u64, lock: &Byte32) -> (r: (bool, bool))
        ensures
            r.0 == pays_amount(outputs@, total),
            r.1 == pays_reward(outputs@, total, *lock),
    {
        let mut amount = false;
        let mut i: usize = 0;
        while i < outputs.len()
            invariant
                i <= outputs@.len(),
                amount == exists|j: int| 0 <= j < i && outputs@[j].capacity == total,
                forall|j: int|
                    0 <= j < i ==> !(outputs@[j].capacity == total && outputs@[j].lock == *lock),
            decreases outputs@.len() - i,
        {
            if outputs[i].capacity == total {
                if outputs[i].lock == *lock {
                    assert(outputs@[i as int].capacity == total && outputs@[i as int].lock == *lock);
                    return (true, true);
                }
                amount = true;
            }
            i = i + 1;
        }
        (amount, false)
    }

    pub fn verify(&self) -> (r: Result<(), Error>)
        ensures
            r == reward_check(
                self.cellbase.outputs@,
                self.parent.number,
                self.finalization_delay_length,
                self.finalized,
                self.min_cell_capacity,
            ),
    {
        let outputs = &self.cellbase.outputs;
        let no_finalization_target = self.parent.number < self.finalization_delay_length;
        let (target_lock, total) = match self.finalized {
            Err(e) => {
                return Err(e);
            },
            Ok(f) => f,
        };
        let insufficient_reward_to_create_cell = total < self.min_cell_capacity;
        if no_finalization_target || insufficient_reward_to_create_cell {
            if outputs.len() == 0 {
                return Ok(());
            } else {
                return Err(Error::InvalidRewardTarget);
            }
        }
        let (amount, reward) = Self::find_payment(outputs, total, &target_lock);
        if reward {
            Ok(())
        } else if amount {
            Err(Error::InvalidRewardTarget)
        } else {
            Err(Error::InvalidRewardAmount)
        }
    }
}

/// Longest extension field a block may carry.
pub const MAX_EXTENSION_BYTES: usize = 96;

pub open spec fn root_at(ext: Seq<u8>, at: int, root: Result<Byte32, Error>, wrong: Error) -> Result<
    (),
    Error,
> {
    match root {
        Err(e) => Err(e),
        Ok(h) => if ext.subrange(at, at + 32) != hash_bytes(h) {
            Err(wrong)
        } else {
            Ok(())
        },
    }
}

pub open spec fn extension_check(
    count: usize,
    extension: Option<Vec<u8>>,
    lc_active: bool,
    tc_active: bool,
    chain_root: Result<Byte32, Error>,
    cells_root: Result<Byte32, Error>,
) -> Result<(), Error> {
    if count == 0 {
        if lc_active || tc_active {
            Err(Error::NoBlockExtension)
        } else {
            Ok(())
        }
    } else if count == 1 {
        match extension {
            None => Err(Error::UnknownFields),
            Some(e) => {
                let b = e@;
                if b.len() == 0 {
                    Err(Error::EmptyBlockExtension)
                } else if b.len() > 96 {
                    Err(Error::ExceededMaximumBlockExtensionBytes)
                } else if lc_active && tc_active {
                    if b.len() < 64 {
                        Err(Error::InvalidBlockExtension)
                    } else {
                        match root_at(b, 0, chain_root, Error::InvalidChainRoot) {
                            Err(e) => Err(e),
                            Ok(_) => root_at(b, 32, cells_root, Error::InvalidCellsRoot),
                        }
                    }
                } else if tc_active {
                    if b.len() < 32 {
                        Err(Error::InvalidBlockExtension)
                    } else {
                        root_at(b, 0, cells_root, Error::InvalidCellsRoot)
                    }
                } else if lc_active {
                    if b.len() < 32 {
                        Err(Error::InvalidBlockExtension)
                    } else {
                        root_at(b, 0, chain_root, Error::InvalidChainRoot)
                    }
                } else {
                    Ok(())
                }
            },
        }
    } else {
        Err(Error::UnknownFields)
    }
}

/// Checks the extension field. `lc_active` and `tc_active` say whether the
/// light-client and cells-commitment deployments are active; `chain_root`
/// is the root of the header MMR up to the parent, `cells_root` that of the
/// cells MMR after the block, and `calc_extra_hash` the extra hash computed
/// from the block's uncles and extension.
pub struct BlockExtensionVerifier {
    pub lc_active: bool,
    pub tc_active: bool,
    pub chain_root: Result<Byte32, Error>,
    pub cells_root: Result<Byte32, Error>,
    pub calc_extra_hash: Byte32,
}

fn root_matches(ext: &Vec<u8>, at: usize, root: &Byte32) -> (r: bool)
    requires
        at <= 64,
        at + 32 <= ext@.len(),
    ensures
        r == (ext@.subrange(at as int, at + 32) == hash_bytes(*root)),
{
    let mut expected: Vec<u8> = Vec::new();
    push_hash(&mut expected, root);
    assert(expected@ =~= hash_bytes(*root));
    let mut i: usize = 0;
    while i < 32
        invariant
            at <= 64,
            at + 32 <= ext@.len(),
            expected@ == hash_bytes(*root),
            expected@.len() == 32,
            i <= 32,
            forall|j: int| 0 <= j < i ==> ext@[at + j] == expected@[j],
        decreases 32 - i,
    {
        if ext[at + i] != expected[i] {
            assert(ext@.subrange(at as int, at + 32)[i as int] != hash_bytes(*root)[i as int]);
            return false;
        }
        i = i + 1;
    }
    assert(ext@.subrange(at as int, at + 32) =~= hash_bytes(*root));
    true
}

impl BlockExtensionVerifier {
    pub fn new(
        lc_active: bool,
        tc_active: bool,
        chain_root: Result<Byte32, Error>,
        cells_root: Result<Byte32, Error>,
        calc_extra_hash: Byte32,
    ) -> (r: BlockExtensionVerifier)
        ensures
            r == (BlockExtensionVerifier { lc_active, tc_active, chain_root, cells_root, calc_extra_hash }),
    {
        BlockExtensionVerifier { lc_active, tc_active, chain_root, cells_root, calc_extra_hash }
    }

    fn check_root(ext: &Vec<u8>, at: usize, root: Result<Byte32, Error>, wrong: Error) -> (r: Result<
        (),
        Error,
    >)
        requires
            at <= 64,
            at + 32 <= ext@.len(),
        ensures
            r == root_at(ext@, at as int, root, wrong),
    {
        match root {
            Err(e) => Err(e),
            Ok(h) => if !root_matches(ext, at, &h) {
                Err(wrong)
            } else {
                Ok(())
            },
        }
    }

    fn check_fields(&self, block: &BlockView) -> (r: Result<(), Error>)
        ensures
            r == extension_check(
                block.extra_fields_count,
                block.extension,
                self.lc_active,
                self.tc_active,
                self.chain_root,
                self.cells_root,
            ),
    {
        let lc = self.lc_active;
        let tc = self.tc_active;
        if block.extra_fields_count == 0 {
            if lc || tc {
                return Err(Error::NoBlockExtension);
            }
            return Ok(());
        }
        if block.extra_fields_count != 1 {
            return Err(Error::UnknownFields);
        }
        let ext = match &block.extension {
            None => {
                return Err(Error::UnknownFields);
            },
            Some(e) => e,
        };
        if ext.len() == 0 {
            return Err(Error::EmptyBlockExtension);
        }
        if ext.len() > MAX_EXTENSION_BYTES {
            return Err(Error::ExceededMaximumBlockExtensionBytes);
        }
        if lc && tc {
            if ext.len() < 64 {
                return Err(Error::InvalidBlockExtension);
            }
            match Self::check_root(ext, 0, self.chain_root, Error::InvalidChainRoot) {
                Err(e) => Err(e),
                Ok(_) => Self::check_root(ext, 32, self.cells_root, Error::InvalidCellsRoot),
            }
        } else if tc {
            if ext.len() < 32 {
                return Err(Error::InvalidBlockExtension);
            }
            Self::check_root(ext, 0, self.cells_root, Error::InvalidCellsRoot)
        } else if lc {
            if ext.len() < 32 {
                return Err(Error::InvalidBlockExtension);
            }
            Self::check_root(ext, 0, self.chain_root, Error::InvalidChainRoot)
        } else {
            Ok(())
        }
    }

    pub fn verify(&self, block: &BlockView) -> (r: Result<(), Error>)
        ensures
            r == match extension_check(
                block.extra_fields_count,
                block.extension,
                self.lc_active,
                self.tc_active,
                self.chain_root,
                self.cells_root,
            ) {
                Err(e) => Err(e),
                Ok(_) => if self.calc_extra_hash != block.header.extra_hash {
                    Err(Error::InvalidExtraHash)
                } else {
                    Ok(())
                },
            },
    {
        match self.check_fields(block) {
            Err(e) => Err(e),
            Ok(_) => if self.calc_extra_hash != block.header.extra_hash {
                Err(Error::InvalidExtraHash)
            } else {
                Ok(())
            },
        }
    }
}

} // verus!
