use vstd::prelude::*;

use std::sync::Arc;

use crate::types::{
    BlockNumber, Byte32, EpochNumberWithFraction, PeerIndex, ProposalShortId, Switch,
    TransactionView,
};

verus! {

/// The header fields that the pipeline reads.
#[derive(Clone, Copy, Debug, PartialEq, Eq, Structural)]
pub struct HeaderView {
    pub hash: Byte32,
    pub number: BlockNumber,
    pub parent_hash: Byte32,
    pub epoch: EpochNumberWithFraction,
    pub timestamp: u64,
    pub compact_target: u32,
    pub dao: Byte32,
    pub extra_hash: Byte32,
}

#[derive(Clone, Debug)]
pub struct UncleBlockView {
    pub header: HeaderView,
    pub proposals: Vec<ProposalShortId>,
}

/// A block: header, transactions (the cellbase first), proposals, uncles and
/// the optional extension field.
#[derive(Clone, Debug)]
pub struct BlockView {
    pub header: HeaderView,
    pub transactions: Vec<TransactionView>,
    pub proposals: Vec<ProposalShortId>,
    pub uncles: Vec<UncleBlockView>,
    pub extra_fields_count: usize,
    pub extension: Option<Vec<u8>>,
}

impl BlockView {
    pub fn hash(&self) -> (r: Byte32)
        ensures
            r == self.header.hash,
    {
        self.header.hash
    }

    pub fn number(&self) -> (r: BlockNumber)
        ensures
            r == self.header.number,
    {
        self.header.number
    }

    pub fn parent_hash(&self) -> (r: Byte32)
        ensures
            r == self.header.parent_hash,
    {
        self.header.parent_hash
    }

    pub fn is_genesis(&self) -> (r: bool)
        ensures
            r == (self.header.number == 0),
    {
        self.header.number == 0
    }
}

/// A block entering the pipeline, with the peer it came from and the size of
/// its message, and the checks to skip.
#[derive(Clone, Debug)]
pub struct LonelyBlock {
    pub block: Arc<BlockView>,
    pub peer_id_with_msg_bytes: Option<(PeerIndex, u64)>,
    pub switch: Option<Switch>,
}

/// A lonely block with the callback to fire once with its outcome.
pub struct LonelyBlockWithCallback<C> {
    pub lonely_block: LonelyBlock,
    pub verify_callback: Option<C>,
}

impl LonelyBlock {
    pub fn with_callback<C>(self, verify_callback: Option<C>) -> (r: LonelyBlockWithCallback<C>)
        ensures
            r.lonely_block == self,
            r.verify_callback == verify_callback,
    {
        LonelyBlockWithCallback { lonely_block: self, verify_callback }
    }

    pub fn without_callback<C>(self) -> (r: LonelyBlockWithCallback<C>)
        ensures
            r.lonely_block == self,
            r.verify_callback is None,
    {
        self.with_callback(None)
    }
}

impl<C> LonelyBlockWithCallback<C> {
    pub open spec fn hash_spec(&self) -> Byte32 {
        self.lonely_block.block.header.hash
    }

    pub open spec fn parent_spec(&self) -> Byte32 {
        self.lonely_block.block.header.parent_hash
    }

    pub fn block(&self) -> (r: &Arc<BlockView>)
        ensures
            r == self.lonely_block.block,
    {
        &self.lonely_block.block
    }

    pub fn hash(&self) -> (r: Byte32)
        ensures
            r == self.hash_spec(),
    {
        self.lonely_block.block.header.hash
    }

    pub fn parent_hash(&self) -> (r: Byte32)
        ensures
            r == self.parent_spec(),
    {
        self.lonely_block.block.header.parent_hash
    }

    pub fn switch(&self) -> (r: Option<Switch>)
        ensures
            r == self.lonely_block.switch,
    {
        self.lonely_block.switch
    }

    pub fn peer_id_with_msg_bytes(&self) -> (r: Option<(PeerIndex, u64)>)
        ensures
            r == self.lonely_block.peer_id_with_msg_bytes,
    {
        self.lonely_block.peer_id_with_msg_bytes
    }
}

} // verus!
