use vstd::prelude::*;

use crate::error::Error;
use crate::types::{Byte32, Cycle};

verus! {

/// The outcome of a finished transaction verification.
#[derive(Clone, Copy, Debug, PartialEq, Eq, Structural)]
pub struct Completed {
    pub cycles: Cycle,
    pub fee: u64,
}

/// A verification-cache entry: finished, or suspended at a resumable
/// snapshot.
#[derive(Clone, Copy, Debug, PartialEq, Eq, Structural)]
pub enum CacheEntry {
    Completed(Completed),
    Suspended { snapshot: u64 },
}

/// Which verification a transaction of the block gets.
#[derive(Clone, Copy, Debug, PartialEq, Eq, Structural)]
pub enum TxCheck {
    /// Verified before: only the time-relative re-check runs.
    TimeRelative,
    /// Suspended before: verification resumes from the snapshot.
    Resume { snapshot: u64 },
    /// Not in the cache: full contextual verification.
    Full,
}

/// What the verification of one transaction gave.
#[derive(Clone, Copy, Debug, PartialEq, Eq, Structural)]
pub enum TxVerdict {
    /// The time-relative re-check of a cached transaction passed.
    Rechecked,
    /// Verification ran to its end.
    Verified(Completed),
    /// Verification failed with this code.
    Failed { code: u32 },
}

pub open spec fn check_for(entry: Option<CacheEntry>) -> TxCheck {
    match entry {
        Some(CacheEntry::Completed(_)) => TxCheck::TimeRelative,
        Some(CacheEntry::Suspended { snapshot }) => TxCheck::Resume { snapshot },
        None => TxCheck::Full,
    }
}

/// The record of transaction `i` of the batch, which is transaction `i + 1`
/// of the block (the cellbase is not in the batch). A transaction found
/// completed in the cache keeps the cached result unless its re-check
/// failed; a re-check verdict without a cached result is refused.
pub open spec fn tx_record(entry: Option<CacheEntry>, verdict: TxVerdict, i: int) -> Result<
    Completed,
    Error,
> {
    match verdict {
        TxVerdict::Failed { code } => Err(Error::Transactions { index: (i + 1) as u32, code }),
        _ => match entry {
            Some(CacheEntry::Completed(c)) => Ok(c),
            _ => match verdict {
                TxVerdict::Verified(c) => Ok(c),
                _ => Err(Error::System { code: 0 }),
            },
        },
    }
}

/// The records of the first `n` transactions, or the error of the first one
/// that failed.
pub open spec fn batch_records(
    fetched: Seq<Option<CacheEntry>>,
    verdicts: Seq<TxVerdict>,
    n: int,
) -> Result<Seq<Completed>, Error>
    decreases n,
{
    if n <= 0 {
        Ok(Seq::empty())
    } else {
        match batch_records(fetched, verdicts, n - 1) {
            Err(e) => Err(e),
            Ok(s) => match tx_record(fetched[n - 1], verdicts[n - 1], n - 1) {
                Err(e) => Err(e),
                Ok(c) => Ok(s.push(c)),
            },
        }
    }
}

pub open spec fn cycles_sum(s: Seq<Completed>) -> int
    decreases s.len(),
{
    if s.len() == 0 {
        0
    } else {
        cycles_sum(s.drop_last()) + s.last().cycles
    }
}

/// What an accepted batch gives: its total cycles, the record of each
/// transaction, and the entries to write back to the cache.
pub struct BlockTxsOutcome {
    pub cycles: Cycle,
    pub completed: Vec<Completed>,
    pub cache_updates: Vec<(Byte32, Completed)>,
}

/// Verifies the transactions of a block after the cellbase.
pub struct BlockTxsVerifier {
    pub max_block_cycles: Cycle,
}

proof fn lemma_cycles_sum_prefix(s: Seq<Completed>, n: int)
    requires
        0 <= n <= s.len(),
    ensures
        cycles_sum(s.subrange(0, n)) <= cycles_sum(s),
    decreases s.len() - n,
{
    if n < s.len() {
        lemma_cycles_sum_prefix(s, n + 1);
        assert(s.subrange(0, n + 1).drop_last() =~= s.subrange(0, n));
    } else {
        assert(s.subrange(0, n) =~= s);
    }
}

pub proof fn lemma_records_len(fetched: Seq<Option<CacheEntry>>, verdicts: Seq<TxVerdict>, n: int)
    requires
        n >= 0,
    ensures
        batch_records(fetched, verdicts, n) is Ok ==> batch_records(fetched, verdicts, n)->Ok_0.len()
            == n,
        forall|i: int|
            0 <= i < n && batch_records(fetched, verdicts, n) is Ok ==> tx_record(
                fetched[i],
                verdicts[i],
                i,
            ) == Ok::<Completed, Error>(batch_records(fetched, verdicts, n)->Ok_0[i]),
    decreases n,
{
    if n > 0 {
        lemma_records_len(fetched, verdicts, n - 1);
    }
}

impl BlockTxsVerifier {
    pub fn new(max_block_cycles: Cycle) -> (r: BlockTxsVerifier)
        ensures
            r.max_block_cycles == max_block_cycles,
    {
        BlockTxsVerifier { max_block_cycles }
    }

    /// The verification each transaction gets, from what the cache held for it.
    pub fn plan(fetched: &[Option<CacheEntry>]) -> (r: Vec<TxCheck>)
        ensures
            r@.len() == fetched@.len(),
            forall|i: int| 0 <= i < r@.len() ==> #[trigger] r@[i] == check_for(fetched@[i]),
    {
        let mut out: Vec<TxCheck> = Vec::new();
        let mut i: usize = 0;
        while i < fetched.len()
            invariant
                i <= fetched@.len(),
                out@.len() == i,
                forall|j: int| 0 <= j < i ==> #[trigger] out@[j] == check_for(fetched@[j]),
            decreases fetched@.len() - i,
        {
            let c = match fetched[i] {
                Some(CacheEntry::Completed(_)) => TxCheck::TimeRelative,
                Some(CacheEntry::Suspended { snapshot }) => TxCheck::Resume { snapshot },
                None => TxCheck::Full,
            };
            out.push(c);
            i = i + 1;
        }
        out
    }

    /// Combines the verdicts of the batch. The first failing transaction
    /// fails the batch with its index; a batch whose cycles sum to more than
    /// the block's budget fails as a whole, and then nothing is written back
    /// to the cache.
    pub fn verify(
        &self,
        hashes: &[Byte32],
        fetched: &[Option<CacheEntry>],
        verdicts: &[TxVerdict],
    ) -> (r: Result<BlockTxsOutcome, Error>)
        requires
            hashes@.len() == fetched@.len(),
            verdicts@.len() == fetched@.len(),
            fetched@.len() < u32::MAX,
        ensures
            match batch_records(fetched@, verdicts@, fetched@.len() as int) {
                Err(e) => r == Err::<BlockTxsOutcome, Error>(e),
                Ok(s) => if cycles_sum(s) > self.max_block_cycles {
                    r == Err::<BlockTxsOutcome, Error>(Error::ExceededMaximumCycles)
                } else {
                    &&& r is Ok
                    &&& r->Ok_0.cycles == cycles_sum(s)
                    &&& r->Ok_0.completed@ == s
                    &&& r->Ok_0.cache_updates@.len() == s.len()
                    &&& forall|i: int|
                        0 <= i < s.len() ==> #[trigger] r->Ok_0.cache_updates@[i] == (
                            hashes@[i],
                            s[i],
                        )
                },
            },
            r is Ok ==> r->Ok_0.cycles <= self.max_block_cycles,
            forall|i: int|
                0 <= i < fetched@.len() && r is Ok && fetched@[i] is Some && fetched@[i]->Some_0 is Completed
                    ==> fetched@[i] == Some(CacheEntry::Completed(#[trigger] r->Ok_0.completed@[i])),
    {
        let n = fetched.len();
        let mut completed: Vec<Completed> = Vec::new();
        let mut i: usize = 0;
        while i < n
            invariant
                n == fetched@.len(),
                n == verdicts@.len(),
                n < u32::MAX,
                i <= n,
                batch_records(fetched@, verdicts@, i as int) == Ok::<Seq<Completed>, Error>(completed@),
            decreases n - i,
        {
            let rec = match verdicts[i] {
                TxVerdict::Failed { code } => Err(Error::Transactions { index: (i + 1) as u32, code }),
                verdict => match fetched[i] {
                    Some(CacheEntry::Completed(c)) => Ok(c),
                    _ => match verdict {
                        TxVerdict::Verified(c) => Ok(c),
                        _ => Err(Error::System { code: 0 }),
                    },
                },
            };
            match rec {
                Err(e) => {
                    proof {
                        lemma_records_prefix_err(fetched@, verdicts@, i as int + 1, n as int);
                    }
                    return Err(e);
                },
                Ok(c) => {
                    completed.push(c);
                },
            }
            i = i + 1;
        }
        proof {
            lemma_records_len(fetched@, verdicts@, n as int);
        }
        let mut sum: u64 = 0;
        let mut over = false;
        let mut k: usize = 0;
        while k < n
            invariant
                n == completed@.len(),
                k <= n,
                !over ==> sum == cycles_sum(completed@.subrange(0, k as int)),
                over ==> cycles_sum(completed@) > u64::MAX,
            decreases n - k,
        {
            if !over {
                assert(completed@.subrange(0, k + 1).drop_last() =~= completed@.subrange(0, k as int));
                if completed[k].cycles > u64::MAX - sum {
                    proof {
                        lemma_cycles_sum_prefix(completed@, k + 1);
                    }
                    over = true;
                } else {
                    sum = sum + completed[k].cycles;
                }
            }
            k = k + 1;
        }
        assert(completed@.subrange(0, n as int) =~= completed@);
        if over || sum > self.max_block_cycles {
            return Err(Error::ExceededMaximumCycles);
        }
        let mut updates: Vec<(Byte32, Completed)> = Vec::new();
        let mut j: usize = 0;
        while j < n
            invariant
                n == completed@.len(),
                n == hashes@.len(),
                j <= n,
                updates@.len() == j,
                forall|a: int| 0 <= a < j ==> #[trigger] updates@[a] == (hashes@[a], completed@[a]),
            decreases n - j,
        {
            updates.push((hashes[j], completed[j]));
            j = j + 1;
        }
        Ok(BlockTxsOutcome { cycles: sum, completed, cache_updates: updates })
    }
}

proof fn lemma_records_prefix_err(
    fetched: Seq<Option<CacheEntry>>,
    verdicts: Seq<TxVerdict>,
    m: int,
    n: int,
)
    requires
        1 <= m <= n,
        batch_records(fetched, verdicts, m) is Err,
    ensures
        batch_records(fetched, verdicts, n) == batch_records(fetched, verdicts, m),
    decreases n - m,
{
    if m < n {
        lemma_records_prefix_err(fetched, verdicts, m + 1, n);
    }
}

} // verus!
