use vstd::prelude::*;

use crate::types::Byte32;

verus! {

/// Why a block was refused or could not be processed.
#[derive(Clone, Copy, Debug, PartialEq, Eq, Structural)]
pub enum Error {
    /// The block failed a stateless check (structure, size, merkle root, pow).
    Malformed { code: u32 },
    /// A header that a transaction depends on is not on the main chain.
    InvalidHeader { hash: Byte32 },
    /// The block's number is not one above its parent's.
    InvalidNumber,
    /// The parent or an ancestor is not known.
    UnknownParent { parent_hash: Byte32 },
    EpochNumberMismatch { expected: u64, actual: u64 },
    EpochTargetMismatch { expected: u32, actual: u32 },
    /// More uncles than a block may carry.
    UnclesOverCount { max: u32, actual: u64 },
    /// The same uncle twice in one block.
    UncleDuplicate { hash: Byte32 },
    /// An uncle already on the main chain or already an uncle.
    UncleDoubleInclusion { hash: Byte32 },
    /// An uncle whose parent is not a known block one height below it.
    UncleNotDescendant { hash: Byte32 },
    CommitAncestorNotFound,
    CommitInvalid,
    Dao { code: u32 },
    InvalidDAO,
    InvalidRewardTarget,
    InvalidRewardAmount,
    NoBlockExtension,
    UnknownFields,
    EmptyBlockExtension,
    ExceededMaximumBlockExtensionBytes,
    InvalidBlockExtension,
    InvalidChainRoot,
    InvalidCellsRoot,
    InvalidExtraHash,
    /// Transaction `index` of the block failed with `code`.
    Transactions { index: u32, code: u32 },
    ExceededMaximumCycles,
    /// Failure of the machinery around the block (channel, store, MMR).
    System { code: u32 },
    /// The block is already known; not a fault.
    Duplicate,
    /// An ancestor of the block was refused.
    InvalidDescendant,
}

/// How the pipeline treats an error.
#[derive(Clone, Copy, Debug, PartialEq, Eq, Structural)]
pub enum ErrorClass {
    Malformed,
    ContextMissing,
    InvalidContextual,
    Duplicate,
    System,
}

pub open spec fn class_of(e: Error) -> ErrorClass {
    match e {
        Error::Malformed { .. } => ErrorClass::Malformed,
        Error::UnknownParent { .. } | Error::CommitAncestorNotFound => ErrorClass::ContextMissing,
        Error::Duplicate => ErrorClass::Duplicate,
        Error::System { .. } => ErrorClass::System,
        _ => ErrorClass::InvalidContextual,
    }
}

impl Error {
    pub fn class(&self) -> (r: ErrorClass)
        ensures
            r == class_of(*self),
    {
        match self {
            Error::Malformed { .. } => ErrorClass::Malformed,
            Error::UnknownParent { .. } | Error::CommitAncestorNotFound => ErrorClass::ContextMissing,
            Error::Duplicate => ErrorClass::Duplicate,
            Error::System { .. } => ErrorClass::System,
            _ => ErrorClass::InvalidContextual,
        }
    }

    /// Whether the peer that sent a block failing with this error is punished.
    pub fn punishes_peer(&self) -> (r: bool)
        ensures
            r == (class_of(*self) == ErrorClass::Malformed || class_of(*self)
                == ErrorClass::InvalidContextual),
    {
        match self.class() {
            ErrorClass::Malformed | ErrorClass::InvalidContextual => true,
            _ => false,
        }
    }
}

} // verus!
