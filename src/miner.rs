use vstd::prelude::*;

use crate::types::Byte32;

verus! {

/// Settings of the block miner.
#[derive(Clone, Debug, PartialEq)]
pub struct Config {
    /// Most transactions assembled into one block.
    pub max_tx: usize,
    pub new_transactions_threshold: u16,
    pub ethash_path: Option<String>,
    pub redeem_script_hash: Byte32,
}

impl Config {
    pub fn new(
        max_tx: usize,
        new_transactions_threshold: u16,
        ethash_path: Option<String>,
        redeem_script_hash: Byte32,
    ) -> (r: Config)
        ensures
            r.max_tx == max_tx,
            r.new_transactions_threshold == new_transactions_threshold,
            r.ethash_path == ethash_path,
            r.redeem_script_hash == redeem_script_hash,
    {
        Config { max_tx, new_transactions_threshold, ethash_path, redeem_script_hash }
    }
}

} // verus!
