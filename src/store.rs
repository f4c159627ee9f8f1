use vstd::prelude::*;

use crate::block::{HeaderView, UncleBlockView};
use crate::error::Error;
use crate::types::{BlockNumber, Byte32, ProposalShortId, U256};

verus! {

/// A block as the chain store keeps it.
#[derive(Clone, Debug)]
pub struct StoredBlock {
    pub header: HeaderView,
    pub total_difficulty: U256,
    pub proposals: Vec<ProposalShortId>,
    pub uncles: Vec<UncleBlockView>,
    /// Hashes of the transactions after the cellbase.
    pub tx_hashes: Vec<Byte32>,
}

/// Committed chain state: every stored block, and the main chain by number.
pub struct ChainStore {
    blocks: Vec<StoredBlock>,
    main_chain: Vec<Byte32>,
    uncle_headers: Vec<HeaderView>,
}

/// What a switch to a heavier branch changed: the main-chain blocks taken
/// off, tip first, and the branch put on, fork side first.
pub struct ReorgOutcome {
    pub detached: Vec<Byte32>,
    pub attached: Vec<Byte32>,
}

impl ChainStore {
    pub closed spec fn blocks_spec(&self) -> Seq<StoredBlock> {
        self.blocks@
    }

    pub closed spec fn main_spec(&self) -> Seq<Byte32> {
        self.main_chain@
    }

    pub closed spec fn uncles_spec(&self) -> Seq<HeaderView> {
        self.uncle_headers@
    }

    pub open spec fn has_uncle(&self, h: Byte32) -> bool {
        exists|i: int| 0 <= i < self.uncles_spec().len() && self.uncles_spec()[i].hash == h
    }

    pub open spec fn has_block(&self, h: Byte32) -> bool {
        exists|i: int| 0 <= i < self.blocks_spec().len() && self.blocks_spec()[i].header.hash == h
    }

    pub open spec fn block(&self, h: Byte32) -> StoredBlock {
        self.blocks_spec()[choose|i: int|
            0 <= i < self.blocks_spec().len() && self.blocks_spec()[i].header.hash == h]
    }

    pub open spec fn on_main(&self, h: Byte32) -> bool {
        self.main_spec().contains(h)
    }

    pub open spec fn tip_hash(&self) -> Byte32 {
        self.main_spec().last()
    }

    #[verifier::opaque]
    pub open spec fn wf(&self) -> bool {
        let b = self.blocks_spec();
        let m = self.main_spec();
        &&& forall|i: int, j: int|
            0 <= i < j < b.len() ==> b[i].header.hash != b[j].header.hash
        &&& m.len() >= 1
        &&& forall|n: int|
            0 <= n < m.len() ==> self.has_block(#[trigger] m[n]) && self.block(m[n]).header.number
                == n
        &&& forall|n: int|
            1 <= n < m.len() ==> self.block(#[trigger] m[n]).header.parent_hash == m[n - 1]
        &&& forall|i: int|
            0 <= i < b.len() && (#[trigger] b[i]).header.number == 0 ==> b[i].header.hash == m[0]
        &&& forall|i: int|
            0 <= i < b.len() && (#[trigger] b[i]).header.number > 0 ==> self.has_block(
                b[i].header.parent_hash,
            ) && self.block(b[i].header.parent_hash).header.number + 1 == b[i].header.number
    }

    pub proof fn lemma_block_at(&self, i: int)
        requires
            self.wf(),
            0 <= i < self.blocks_spec().len(),
        ensures
            self.has_block(self.blocks_spec()[i].header.hash),
            self.block(self.blocks_spec()[i].header.hash) == self.blocks_spec()[i],
    {
        reveal(ChainStore::wf);        assert(self.has_block(self.blocks_spec()[i].header.hash));
    }

    pub proof fn lemma_block_has(&self, h: Byte32)
        requires
            self.wf(),
            self.has_block(h),
        ensures
            self.block(h).header.hash == h,
            self.blocks_spec().contains(self.block(h)),
    {
        reveal(ChainStore::wf);    }

    pub proof fn lemma_parent(&self, h: Byte32)
        requires
            self.wf(),
            self.has_block(h),
            self.block(h).header.number > 0,
        ensures
            self.has_block(self.block(h).header.parent_hash),
            self.block(self.block(h).header.parent_hash).header.number + 1 == self.block(h).header.number,
    {
        reveal(ChainStore::wf);
        let i = choose|i: int| 0 <= i < self.blocks_spec().len() && self.blocks_spec()[i].header.hash == h;
        self.lemma_block_at(i);
    }

    /// Only the genesis block has number zero.
    pub proof fn lemma_genesis(&self, h: Byte32)
        requires
            self.wf(),
            self.has_block(h),
            self.block(h).header.number == 0,
        ensures
            self.on_main(h),
    {
        reveal(ChainStore::wf);
        let i = choose|i: int| 0 <= i < self.blocks_spec().len() && self.blocks_spec()[i].header.hash == h;
        self.lemma_block_at(i);
        assert(self.main_spec()[0] == h);
    }

    /// The tip is a stored main-chain block.
    pub proof fn lemma_tip(&self)
        requires
            self.wf(),
        ensures
            self.main_spec().len() >= 1,
            self.on_main(self.tip_hash()),
            self.has_block(self.tip_hash()),
    {
        reveal(ChainStore::wf);
        let m = self.main_spec();
        assert(m[m.len() - 1] == self.tip_hash());
        assert(self.has_block(m[m.len() - 1]));
    }

    /// A block on the main chain sits at its own number.
    pub proof fn lemma_main_number(&self, h: Byte32)
        requires
            self.wf(),
            self.on_main(h),
        ensures
            self.has_block(h),
            self.block(h).header.number < self.main_spec().len(),
            self.main_spec()[self.block(h).header.number as int] == h,
    {
        reveal(ChainStore::wf);        let n = choose|n: int| 0 <= n < self.main_spec().len() && self.main_spec()[n] == h;
        assert(self.has_block(self.main_spec()[n]));
    }

    /// A store that holds the genesis block alone.
    pub fn new(genesis: StoredBlock) -> (r: ChainStore)
        requires
            genesis.header.number == 0,
        ensures
            r.wf(),
            r.blocks_spec() == seq![genesis],
            r.main_spec() == seq![genesis.header.hash],
    {
        reveal(ChainStore::wf);        let h = genesis.header.hash;
        let mut blocks: Vec<StoredBlock> = Vec::new();
        blocks.push(genesis);
        let mut main_chain: Vec<Byte32> = Vec::new();
        main_chain.push(h);
        let r = ChainStore { blocks, main_chain, uncle_headers: Vec::new() };
        assert(r.blocks_spec() =~= seq![genesis]);
        assert(r.blocks_spec()[0].header.hash == h);
        assert(r.has_block(h));
        assert(r.main_spec() =~= seq![h]);
        r
    }

    pub(crate) fn position(&self, h: &Byte32) -> (r: Option<usize>)
        ensures
            match r {
                Some(i) => i < self.blocks_spec().len() && self.blocks_spec()[i as int].header.hash
                    == *h,
                None => !self.has_block(*h),
            },
    {
        reveal(ChainStore::wf);        let mut i: usize = 0;
        while i < self.blocks.len()
            invariant
                i <= self.blocks@.len(),
                forall|j: int| 0 <= j < i ==> self.blocks@[j].header.hash != *h,
            decreases self.blocks@.len() - i,
        {
            if self.blocks[i].header.hash == *h {
                return Some(i);
            }
            i = i + 1;
        }
        None
    }

    pub(crate) fn block_at(&self, i: usize) -> (r: &StoredBlock)
        requires
            i < self.blocks_spec().len(),
        ensures
            *r == self.blocks_spec()[i as int],
    {
        &self.blocks[i]
    }

    pub fn get_block_header(&self, h: &Byte32) -> (r: Option<HeaderView>)
        requires
            self.wf(),
        ensures
            r == (if self.has_block(*h) {
                Some(self.block(*h).header)
            } else {
                None::<HeaderView>
            }),
    {
        reveal(ChainStore::wf);        match self.position(h) {
            Some(i) => {
                proof {
                    self.lemma_block_at(i as int);
                }
                Some(self.blocks[i].header)
            },
            None => None,
        }
    }

    pub fn get_total_difficulty(&self, h: &Byte32) -> (r: Option<U256>)
        requires
            self.wf(),
        ensures
            r == (if self.has_block(*h) {
                Some(self.block(*h).total_difficulty)
            } else {
                None::<U256>
            }),
    {
        reveal(ChainStore::wf);        match self.position(h) {
            Some(i) => {
                proof {
                    self.lemma_block_at(i as int);
                }
                Some(self.blocks[i].total_difficulty)
            },
            None => None,
        }
    }

    /// Hash of the main-chain block at `number`.
    pub fn get_block_hash(&self, number: BlockNumber) -> (r: Option<Byte32>)
        ensures
            r == (if number < self.main_spec().len() {
                Some(self.main_spec()[number as int])
            } else {
                None::<Byte32>
            }),
    {
        if number < self.main_chain.len() as u64 {
            Some(self.main_chain[number as usize])
        } else {
            None
        }
    }

    pub fn is_main_chain(&self, h: &Byte32) -> (r: bool)
        requires
            self.wf(),
        ensures
            r == self.on_main(*h),
    {
        reveal(ChainStore::wf);        match self.position(h) {
            Some(i) => {
                proof {
                    self.lemma_block_at(i as int);
                    if self.on_main(*h) {
                        self.lemma_main_number(*h);
                    }
                }
                let n = self.blocks[i].header.number;
                n < self.main_chain.len() as u64 && self.main_chain[n as usize] == *h
            },
            None => {
                proof {
                    if self.on_main(*h) {
                        let n = choose|n: int|
                            0 <= n < self.main_spec().len() && self.main_spec()[n] == *h;
                        assert(self.has_block(self.main_spec()[n]));
                    }
                }
                false
            },
        }
    }

    /// Number of a main-chain block; `None` for blocks off the main chain.
    pub fn get_block_number(&self, h: &Byte32) -> (r: Option<BlockNumber>)
        requires
            self.wf(),
        ensures
            r == (if self.on_main(*h) {
                Some(self.block(*h).header.number)
            } else {
                None::<BlockNumber>
            }),
    {
        reveal(ChainStore::wf);        if self.is_main_chain(h) {
            match self.get_block_header(h) {
                Some(header) => Some(header.number),
                None => None,
            }
        } else {
            None
        }
    }

    /// Header of the first stored uncle with hash `h`.
    pub fn get_uncle_header(&self, h: &Byte32) -> (r: Option<HeaderView>)
        ensures
            r == first_uncle(self.uncles_spec(), *h),
            r is None <==> !self.has_uncle(*h),
    {
        let mut i: usize = 0;
        while i < self.uncle_headers.len()
            invariant
                i <= self.uncle_headers@.len(),
                forall|j: int| 0 <= j < i ==> self.uncle_headers@[j].hash != *h,
            decreases self.uncle_headers@.len() - i,
        {
            if self.uncle_headers[i].hash == *h {
                proof {
                    lemma_first_uncle_skip(self.uncle_headers@, *h, i as int);
                    assert(self.uncle_headers@.subrange(i as int, self.uncle_headers@.len() as int)[0]
                        == self.uncle_headers@[i as int]);
                }
                return Some(self.uncle_headers[i]);
            }
            i = i + 1;
        }
        proof {
            lemma_first_uncle_skip(self.uncle_headers@, *h, i as int);
        }
        None
    }

    pub fn is_uncle(&self, h: &Byte32) -> (r: bool)
        ensures
            r == self.has_uncle(*h),
    {
        self.get_uncle_header(h).is_some()
    }

    pub fn tip_number(&self) -> (r: BlockNumber)
        requires
            self.wf(),
        ensures
            r == self.main_spec().len() - 1,
    {
        reveal(ChainStore::wf);        (self.main_chain.len() - 1) as u64
    }

    pub fn tip_hash_exec(&self) -> (r: Byte32)
        requires
            self.wf(),
        ensures
            r == self.tip_hash(),
    {
        reveal(ChainStore::wf);        self.main_chain[self.main_chain.len() - 1]
    }
}

/// Adding a block whose parent is stored one height below keeps the store
/// well formed and every earlier lookup as it was.
proof fn lemma_push_block(s0: ChainStore, s1: ChainStore, b: StoredBlock)
    requires
        s0.wf(),
        s1.blocks_spec() == s0.blocks_spec().push(b),
        s1.main_spec() == s0.main_spec(),
        !s0.has_block(b.header.hash),
        b.header.number > 0,
        s0.has_block(b.header.parent_hash),
        s0.block(b.header.parent_hash).header.number + 1 == b.header.number,
    ensures
        s1.wf(),
        forall|h: Byte32| #[trigger] s0.has_block(h) ==> s1.has_block(h) && s1.block(h) == s0.block(h),
        s1.has_block(b.header.hash),
        s1.block(b.header.hash) == b,
        forall|h: Byte32| #[trigger] s1.has_block(h) ==> s0.has_block(h) || h == b.header.hash,
{
    reveal(ChainStore::wf);    let n = s0.blocks_spec().len();
    assert forall|i: int, j: int| 0 <= i < j < s1.blocks_spec().len() implies s1.blocks_spec()[i].header.hash
        != s1.blocks_spec()[j].header.hash by {
        if j == n {
            assert(s0.blocks_spec()[i] == s1.blocks_spec()[i]);
        }
    }
    assert forall|h: Byte32| #[trigger] s0.has_block(h) implies s1.has_block(h) && s1.block(h) == s0.block(h) by {
        let i = choose|i: int| 0 <= i < n && s0.blocks_spec()[i].header.hash == h;
        s0.lemma_block_at(i);
        assert(s1.blocks_spec()[i] == s0.blocks_spec()[i]);
        assert(s1.has_block(h));
        let k = choose|k: int| 0 <= k < s1.blocks_spec().len() && s1.blocks_spec()[k].header.hash == h;
        if k != i {
            if k < i {
                assert(s1.blocks_spec()[k].header.hash != s1.blocks_spec()[i].header.hash);
            } else {
                assert(s1.blocks_spec()[i].header.hash != s1.blocks_spec()[k].header.hash);
            }
        }
    }
    assert(s1.blocks_spec()[n as int] == b);
    assert(s1.has_block(b.header.hash));
    let k = choose|k: int| 0 <= k < s1.blocks_spec().len() && s1.blocks_spec()[k].header.hash == b.header.hash;
    if k != n {
        assert(s1.blocks_spec()[k] == s0.blocks_spec()[k]);
        assert(s0.has_block(b.header.hash));
    }
    assert forall|h: Byte32| #[trigger] s1.has_block(h) implies s0.has_block(h) || h == b.header.hash by {
        let i = choose|i: int| 0 <= i < s1.blocks_spec().len() && s1.blocks_spec()[i].header.hash == h;
        if i < n {
            assert(s1.blocks_spec()[i] == s0.blocks_spec()[i]);
        }
    }
    let m = s0.main_spec();
    assert forall|q: int| 0 <= q < m.len() implies s1.has_block(#[trigger] m[q]) && s1.block(m[q]).header.number
        == q by {
        assert(s0.has_block(m[q]));
    }
    assert forall|q: int| 1 <= q < m.len() implies s1.block(#[trigger] m[q]).header.parent_hash == m[q - 1] by {
        assert(s0.has_block(m[q]));
    }
    assert forall|i: int|
        0 <= i < s1.blocks_spec().len() && (#[trigger] s1.blocks_spec()[i]).header.number > 0 implies s1.has_block(
        s1.blocks_spec()[i].header.parent_hash,
    ) && s1.block(s1.blocks_spec()[i].header.parent_hash).header.number + 1
        == s1.blocks_spec()[i].header.number by {
        if i < n {
            assert(s1.blocks_spec()[i] == s0.blocks_spec()[i]);
        }
    }
    assert forall|i: int|
        0 <= i < s1.blocks_spec().len() && (#[trigger] s1.blocks_spec()[i]).header.number == 0 implies s1.blocks_spec()[i].header.hash
        == m[0] by {
        if i < n {
            assert(s1.blocks_spec()[i] == s0.blocks_spec()[i]);
        }
    }
}

impl ChainStore {
    /// Whether a block can be stored: it is new, and its parent is stored one
    /// height below it.
    pub open spec fn can_insert(&self, b: StoredBlock) -> bool {
        &&& !self.has_block(b.header.hash)
        &&& b.header.number > 0
        &&& self.has_block(b.header.parent_hash)
        &&& self.block(b.header.parent_hash).header.number + 1 == b.header.number
    }

    /// Stores a block off the main chain, with its uncles. Returns `false`,
    /// and changes nothing, when the block cannot be stored.
    pub fn insert_block(&mut self, b: StoredBlock) -> (r: bool)
        requires
            old(self).wf(),
        ensures
            final(self).wf(),
            r == old(self).can_insert(b),
            final(self).main_spec() == old(self).main_spec(),
            r ==> final(self).blocks_spec() == old(self).blocks_spec().push(b),
            !r ==> final(self).blocks_spec() == old(self).blocks_spec(),
            r ==> final(self).has_block(b.header.hash) && final(self).block(b.header.hash) == b,
            forall|h: Byte32|
                #[trigger] old(self).has_block(h) ==> final(self).has_block(h) && final(self).block(h)
                    == old(self).block(h),
    {
        if self.position(&b.header.hash).is_some() || b.header.number == 0 {
            return false;
        }
        match self.get_block_header(&b.header.parent_hash) {
            None => {
                return false;
            },
            Some(parent) => {
                if parent.number >= b.header.number || parent.number + 1 != b.header.number {
                    return false;
                }
            },
        }
        let ghost s0 = *self;
        let mut k: usize = 0;
        while k < b.uncles.len()
            invariant
                self.blocks@ == s0.blocks@,
                self.main_chain@ == s0.main_chain@,
                k <= b.uncles@.len(),
            decreases b.uncles@.len() - k,
        {
            self.uncle_headers.push(b.uncles[k].header);
            k = k + 1;
        }
        self.blocks.push(b);
        proof {
            lemma_push_block(s0, *self, b);
        }
        true
    }

    /// Makes the stored block `h`, a child of the tip, the new tip.
    pub fn extend(&mut self, h: &Byte32)
        requires
            old(self).wf(),
            old(self).has_block(*h),
            !old(self).on_main(*h),
            old(self).block(*h).header.parent_hash == old(self).tip_hash(),
        ensures
            final(self).wf(),
            final(self).main_spec() == old(self).main_spec().push(*h),
            final(self).blocks_spec() == old(self).blocks_spec(),
    {
        reveal(ChainStore::wf);        let ghost s0 = *self;
        proof {
            let t = s0.tip_hash();
            assert(s0.has_block(s0.main_spec()[s0.main_spec().len() - 1]));
            let i = choose|i: int| 0 <= i < s0.blocks_spec().len() && s0.blocks_spec()[i].header.hash == *h;
            s0.lemma_block_at(i);
            if s0.block(*h).header.number == 0 {
                assert(*h == s0.main_spec()[0]);
                assert(s0.main_spec().contains(*h));
            }
            assert(s0.block(*h).header.number == s0.main_spec().len());
        }
        self.main_chain.push(*h);
        proof {
            let m = self.main_spec();
            assert forall|q: int| 0 <= q < m.len() implies self.has_block(#[trigger] m[q])
                && self.block(m[q]).header.number == q by {
                assert(self.blocks_spec() == s0.blocks_spec());
                if q < m.len() - 1 {
                    assert(m[q] == s0.main_spec()[q]);
                    assert(s0.has_block(s0.main_spec()[q]));
                } else {
                    assert(m[q] == *h);
                }
            }
            assert forall|q: int| 1 <= q < m.len() implies self.block(#[trigger] m[q]).header.parent_hash
                == m[q - 1] by {
                if q < m.len() - 1 {
                    assert(m[q] == s0.main_spec()[q]);
                }
            }
        }
    }
}

proof fn lemma_attach_step(
    s0: ChainStore,
    s: ChainStore,
    branch: Seq<Byte32>,
    attached: Seq<Byte32>,
    i: int,
)
    requires
        s.blocks_spec() == s0.blocks_spec(),
        1 <= i <= branch.len(),
        s.main_spec() == s0.main_spec() + attached,
        attached.len() == branch.len() - i,
        forall|k: int| 0 <= k < attached.len() ==> #[trigger] attached[k] == branch[branch.len() - 1 - k],
        s0.main_spec().len() >= 1,
        s0.main_spec()[s0.main_spec().len() - 1] == s0.block(branch[branch.len() - 1]).header.parent_hash,
        forall|k: int|
            0 <= k < branch.len() ==> s0.has_block(#[trigger] branch[k]) && !s0.on_main(branch[k])
                && s0.block(branch[k]).header.number == s0.main_spec().len() + (branch.len() - 1 - k),
        forall|k: int|
            0 <= k < branch.len() - 1 ==> s0.block(#[trigger] branch[k]).header.parent_hash
                == branch[k + 1],
    ensures
        s.has_block(branch[i - 1]),
        !s.on_main(branch[i - 1]),
        s.block(branch[i - 1]).header.parent_hash == s.tip_hash(),
{
    let blen = branch.len();
    let base = s0.main_spec().len();
    let x = branch[i - 1];
    assert(s0.has_block(branch[i - 1]));
    if i < blen {
        assert(s.main_spec().last() == attached.last());
        assert(attached[attached.len() - 1] == branch[blen - 1 - (attached.len() - 1)]);
        assert(s0.block(branch[i - 1]).header.parent_hash == branch[i]);
    } else {
        assert(s.main_spec().last() == s0.main_spec()[base - 1]);
    }
    if s.on_main(x) {
        let q = choose|q: int| 0 <= q < s.main_spec().len() && s.main_spec()[q] == x;
        if q < base {
            assert(s0.main_spec()[q] == x);
            assert(s0.on_main(x));
        } else {
            let k = q - base;
            assert(attached[k] == x);
            assert(branch[blen - 1 - k] == x);
            assert(s0.block(branch[blen - 1 - k]).header.number == base + k);
        }
    }
}

proof fn lemma_branch_after_truncate(s0: ChainStore, s: ChainStore, branch: Seq<Byte32>, f: int)
    requires
        s.blocks_spec() == s0.blocks_spec(),
        0 <= f < s0.main_spec().len(),
        s.main_spec() == s0.main_spec().subrange(0, f + 1),
        branch.len() >= 1,
        s0.main_spec()[f] == s0.block(branch.last()).header.parent_hash,
        forall|i: int|
            0 <= i < branch.len() ==> s0.has_block(#[trigger] branch[i]) && !s0.on_main(branch[i])
                && s0.block(branch[i]).header.number == s0.block(branch[0]).header.number - i,
        s0.block(branch[0]).header.number == f + branch.len(),
    ensures
        s.main_spec().last() == s.block(branch.last()).header.parent_hash,
        forall|k: int|
            0 <= k < branch.len() ==> s.has_block(#[trigger] branch[k]) && !s.on_main(branch[k])
                && s.block(branch[k]).header.number == s.main_spec().len() + (branch.len() - 1 - k),
{
    let m = s.main_spec();
    assert(m.last() == s0.main_spec()[f]);
    assert forall|k: int| 0 <= k < branch.len() implies s.has_block(#[trigger] branch[k])
        && !s.on_main(branch[k]) && s.block(branch[k]).header.number == s.main_spec().len() + (
        branch.len() - 1 - k) by {
        assert(s0.has_block(branch[k]));
        if s.on_main(branch[k]) {
            let q = choose|q: int| 0 <= q < m.len() && m[q] == branch[k];
            assert(s0.main_spec()[q] == branch[k]);
            assert(s0.on_main(branch[k]));
        }
    }
}

/// The first header in `s` with hash `h`.
pub open spec fn first_uncle(s: Seq<HeaderView>, h: Byte32) -> Option<HeaderView>
    decreases s.len(),
{
    if s.len() == 0 {
        None
    } else if s[0].hash == h {
        Some(s[0])
    } else {
        first_uncle(s.subrange(1, s.len() as int), h)
    }
}

proof fn lemma_first_uncle_skip(s: Seq<HeaderView>, h: Byte32, i: int)
    requires
        0 <= i <= s.len(),
        forall|j: int| 0 <= j < i ==> s[j].hash != h,
    ensures
        first_uncle(s, h) == first_uncle(s.subrange(i, s.len() as int), h),
        i == s.len() ==> first_uncle(s, h) is None,
    decreases i,
{
    if i == 0 {
        assert(s.subrange(0, s.len() as int) =~= s);
    } else {
        lemma_first_uncle_skip(s, h, i - 1);
        let t = s.subrange(i - 1, s.len() as int);
        assert(t[0] == s[i - 1]);
        assert(t.subrange(1, t.len() as int) =~= s.subrange(i, s.len() as int));
    }
    if i == s.len() {
        assert(s.subrange(i, s.len() as int).len() == 0);
    }
}

impl ChainStore {
    /// Takes the tip off the main chain.
    fn detach_tip(&mut self) -> (r: Byte32)
        requires
            old(self).wf(),
            old(self).main_spec().len() >= 2,
        ensures
            final(self).wf(),
            final(self).main_spec() == old(self).main_spec().drop_last(),
            final(self).blocks_spec() == old(self).blocks_spec(),
            r == old(self).tip_hash(),
    {
        reveal(ChainStore::wf);        let ghost s0 = *self;
        let r = self.main_chain.pop();
        proof {
            let m = self.main_spec();
            assert(self.blocks_spec() == s0.blocks_spec());
            assert forall|q: int| 0 <= q < m.len() implies self.has_block(#[trigger] m[q])
                && self.block(m[q]).header.number == q by {
                assert(m[q] == s0.main_spec()[q]);
                assert(s0.has_block(s0.main_spec()[q]));
            }
            assert forall|q: int| 1 <= q < m.len() implies self.block(#[trigger] m[q]).header.parent_hash
                == m[q - 1] by {
                assert(m[q] == s0.main_spec()[q]);
                assert(s0.has_block(s0.main_spec()[q]));
            }
            assert forall|i: int|
                0 <= i < self.blocks_spec().len() && (#[trigger] self.blocks_spec()[i]).header.number == 0
                implies self.blocks_spec()[i].header.hash == m[0] by {
                assert(m[0] == s0.main_spec()[0]);
            }
        }
        match r {
            Some(x) => x,
            None => Byte32::zero(),
        }
    }

    /// The branch of `h` down to the main chain: `h` first, each block's
    /// parent after it; and the number of the main-chain block it leaves from.
    fn find_branch(&self, h: &Byte32) -> (r: (Vec<Byte32>, u64))
        requires
            self.wf(),
            self.has_block(*h),
            !self.on_main(*h),
        ensures
            r.0@.len() >= 1,
            r.0@[0] == *h,
            r.1 < self.main_spec().len(),
            self.block(*h).header.number == r.1 + r.0@.len(),
            self.main_spec()[r.1 as int] == self.block(r.0@.last()).header.parent_hash,
            forall|i: int|
                0 <= i < r.0@.len() ==> self.has_block(#[trigger] r.0@[i]) && !self.on_main(r.0@[i])
                    && self.block(r.0@[i]).header.number == self.block(*h).header.number - i,
            forall|i: int|
                0 <= i < r.0@.len() - 1 ==> self.block(#[trigger] r.0@[i]).header.parent_hash
                    == r.0@[i + 1],
    {
        reveal(ChainStore::wf);        let ghost hn = self.block(*h).header.number;
        proof {
            let i = choose|i: int| 0 <= i < self.blocks_spec().len() && self.blocks_spec()[i].header.hash == *h;
            self.lemma_block_at(i);
            if hn == 0 {
                assert(self.main_spec()[0] == *h);
                assert(self.on_main(*h));
            }
        }
        let mut cur = match self.get_block_header(h) {
            Some(hd) => hd,
            None => self.blocks[0].header,
        };
        let mut branch: Vec<Byte32> = Vec::new();
        branch.push(*h);
        while !self.is_main_chain(&cur.parent_hash)
            invariant
                self.wf(),
                hn == self.block(*h).header.number,
                branch@.len() >= 1,
                branch@[0] == *h,
                cur == self.block(branch@.last()).header,
                cur.hash == branch@.last(),
                cur.number > 0,
                cur.number == hn - (branch@.len() - 1),
                forall|i: int|
                    0 <= i < branch@.len() ==> self.has_block(#[trigger] branch@[i]) && !self.on_main(
                        branch@[i],
                    ) && self.block(branch@[i]).header.number == hn - i,
                forall|i: int|
                    0 <= i < branch@.len() - 1 ==> self.block(#[trigger] branch@[i]).header.parent_hash
                        == branch@[i + 1],
            decreases cur.number,
        {
            let ghost b0 = branch@;
            proof {
                self.lemma_parent(cur.hash);
            }
            let p = match self.get_block_header(&cur.parent_hash) {
                Some(p) => p,
                None => cur,
            };
            proof {
                if p.number == 0 {
                    self.lemma_genesis(cur.parent_hash);
                }
            }
            branch.push(p.hash);
            proof {
                assert forall|i: int| 0 <= i < branch@.len() - 1 implies self.block(#[trigger] branch@[i]).header.parent_hash
                    == branch@[i + 1] by {
                    if i < b0.len() - 1 {
                        assert(branch@[i] == b0[i] && branch@[i + 1] == b0[i + 1]);
                    } else {
                        assert(branch@[i] == b0[i]);
                    }
                }
                assert forall|i: int| 0 <= i < branch@.len() implies self.has_block(#[trigger] branch@[i]) && !self.on_main(
                    branch@[i],
                ) && self.block(branch@[i]).header.number == hn - i by {
                    if i < b0.len() {
                        assert(branch@[i] == b0[i]);
                    }
                }
            }
            cur = p;
        }
        proof {
            self.lemma_main_number(cur.parent_hash);
            self.lemma_block_has(cur.hash);
            let i = choose|i: int| 0 <= i < self.blocks_spec().len() && self.blocks_spec()[i] == self.block(cur.hash);
            assert(self.blocks_spec()[i].header.number > 0);
        }
        (branch, cur.number - 1)
    }

    /// Takes the main chain back to its first `len` blocks; returns the
    /// blocks taken off, tip first.
    fn truncate_main(&mut self, len: u64) -> (r: Vec<Byte32>)
        requires
            old(self).wf(),
            1 <= len <= old(self).main_spec().len(),
        ensures
            final(self).wf(),
            final(self).blocks_spec() == old(self).blocks_spec(),
            final(self).main_spec() == old(self).main_spec().subrange(0, len as int),
            r@.len() == old(self).main_spec().len() - len,
            forall|k: int|
                0 <= k < r@.len() ==> #[trigger] r@[k] == old(self).main_spec()[old(self).main_spec().len()
                    - 1 - k],
    {
        let ghost s0 = *self;
        let mut detached: Vec<Byte32> = Vec::new();
        while self.main_chain.len() as u64 > len
            invariant
                self.wf(),
                self.blocks_spec() == s0.blocks_spec(),
                1 <= len <= self.main_spec().len() <= s0.main_spec().len(),
                self.main_spec() == s0.main_spec().subrange(0, self.main_spec().len() as int),
                detached@.len() == s0.main_spec().len() - self.main_spec().len(),
                forall|k: int|
                    0 <= k < detached@.len() ==> #[trigger] detached@[k] == s0.main_spec()[s0.main_spec().len()
                        - 1 - k],
            decreases self.main_spec().len(),
        {
            let ghost d0 = detached@;
            let x = self.detach_tip();
            detached.push(x);
            proof {
                assert(self.main_spec() =~= s0.main_spec().subrange(0, self.main_spec().len() as int));
                assert forall|k: int| 0 <= k < detached@.len() implies #[trigger] detached@[k] == s0.main_spec()[s0.main_spec().len()
                    - 1 - k] by {
                    if k < d0.len() {
                        assert(detached@[k] == d0[k]);
                    }
                }
            }
        }
        detached
    }

    /// Puts a branch found by `find_branch` on the main chain, fork side first.
    #[verifier::spinoff_prover]
    fn attach_branch(&mut self, branch: &Vec<Byte32>) -> (r: Vec<Byte32>)
        requires
            old(self).wf(),
            branch@.len() >= 1,
            old(self).main_spec().last() == old(self).block(branch@.last()).header.parent_hash,
            forall|k: int|
                0 <= k < branch@.len() ==> old(self).has_block(#[trigger] branch@[k]) && !old(self).on_main(
                    branch@[k],
                ) && old(self).block(branch@[k]).header.number == old(self).main_spec().len() + (branch@.len() - 1 - k),
            forall|k: int|
                0 <= k < branch@.len() - 1 ==> old(self).block(#[trigger] branch@[k]).header.parent_hash
                    == branch@[k + 1],
        ensures
            final(self).wf(),
            final(self).blocks_spec() == old(self).blocks_spec(),
            final(self).main_spec() == old(self).main_spec() + r@,
            r@.len() == branch@.len(),
            forall|k: int| 0 <= k < r@.len() ==> #[trigger] r@[k] == branch@[branch@.len() - 1 - k],
    {
        reveal(ChainStore::wf);        let ghost s0 = *self;
        let ghost blen = branch@.len();
        let ghost base = s0.main_spec().len();
        let mut attached: Vec<Byte32> = Vec::new();
        let mut i: usize = branch.len();
        while i > 0
            invariant
                self.wf(),
                self.blocks_spec() == s0.blocks_spec(),
                i <= blen,
                blen == branch@.len(),
                self.main_spec() == s0.main_spec() + attached@,
                attached@.len() == blen - i,
                forall|k: int| 0 <= k < attached@.len() ==> #[trigger] attached@[k] == branch@[blen - 1 - k],
                base == s0.main_spec().len(),
                base >= 1,
                s0.main_spec()[base - 1] == s0.block(branch@[blen - 1]).header.parent_hash,
                forall|k: int|
                    0 <= k < blen ==> s0.has_block(#[trigger] branch@[k]) && !s0.on_main(branch@[k])
                        && s0.block(branch@[k]).header.number == base + (blen - 1 - k),
                forall|k: int|
                    0 <= k < blen - 1 ==> s0.block(#[trigger] branch@[k]).header.parent_hash
                        == branch@[k + 1],
            decreases i,
        {
            let ghost a0 = attached@;
            let x = branch[i - 1];
            proof {
                lemma_attach_step(s0, *self, branch@, attached@, i as int);
            }
            self.extend(&x);
            attached.push(x);
            i = i - 1;
            proof {
                assert(self.main_spec() =~= s0.main_spec() + attached@);
                assert forall|k: int| 0 <= k < attached@.len() implies #[trigger] attached@[k] == branch@[blen - 1 - k] by {
                    if k < a0.len() {
                        assert(attached@[k] == a0[k]);
                    }
                }
            }
        }
        attached
    }

    /// Makes the stored block `h`, off the main chain, the new tip: takes the
    /// main chain back to the block where the branch of `h` leaves it, then
    /// puts that branch on.
    #[verifier::spinoff_prover]
    #[verifier::rlimit(100)]
    pub fn reorg(&mut self, h: &Byte32) -> (r: ReorgOutcome)
        requires
            old(self).wf(),
            old(self).has_block(*h),
            !old(self).on_main(*h),
        ensures
            final(self).wf(),
            final(self).blocks_spec() == old(self).blocks_spec(),
            final(self).tip_hash() == *h,
            r.attached@.len() >= 1,
            r.attached@.last() == *h,
            r.detached@.len() < old(self).main_spec().len(),
            final(self).main_spec() == old(self).main_spec().subrange(
                0,
                old(self).main_spec().len() - r.detached@.len(),
            ) + r.attached@,
            forall|k: int|
                0 <= k < r.detached@.len() ==> #[trigger] r.detached@[k] == old(self).main_spec()[
                    old(self).main_spec().len() - 1 - k],
            forall|k: int| 0 <= k < r.attached@.len() ==> !old(self).on_main(#[trigger] r.attached@[k]),
    {
        let ghost s0 = *self;
        let (branch, fork_number) = self.find_branch(h);
        let detached = self.truncate_main(fork_number + 1);
        proof {
            lemma_branch_after_truncate(s0, *self, branch@, fork_number as int);
        }
        let attached = self.attach_branch(&branch);
        proof {
            assert(attached@[attached@.len() - 1] == branch@[0]);
            assert(self.main_spec().last() == attached@.last());
            assert forall|k: int| 0 <= k < attached@.len() implies !s0.on_main(#[trigger] attached@[k]) by {
                assert(attached@[k] == branch@[branch@.len() - 1 - k]);
            }
        }
        ReorgOutcome { detached, attached }
    }
}

impl ChainStore {
    /// Rolls the main chain back so that `target` is the tip; returns the
    /// blocks taken off, tip first. Fails, changing nothing, when `target`
    /// is not on the main chain.
    pub fn truncate(&mut self, target: &Byte32) -> (r: Result<Vec<Byte32>, Error>)
        requires
            old(self).wf(),
        ensures
            final(self).wf(),
            final(self).blocks_spec() == old(self).blocks_spec(),
            !old(self).on_main(*target) ==> r == Err::<Vec<Byte32>, Error>(Error::UnknownParent {
                parent_hash: *target,
            }) && *final(self) == *old(self),
            old(self).on_main(*target) ==> r is Ok && final(self).tip_hash() == *target
                && final(self).main_spec() == old(self).main_spec().subrange(
                0,
                old(self).block(*target).header.number + 1,
            ),
    {
        if !self.is_main_chain(target) {
            return Err(Error::UnknownParent { parent_hash: *target });
        }
        proof {
            self.lemma_main_number(*target);
        }
        let number = match self.get_block_number(target) {
            Some(n) => n,
            None => 0,
        };
        let len = self.main_chain.len();
        if number >= len as u64 {
            return Err(Error::UnknownParent { parent_hash: *target });
        }
        let detached = self.truncate_main(number + 1);
        Ok(detached)
    }
}

} // verus!

verus! {

/// The transactions after the cellbase of stored block `h`.
pub open spec fn block_txs(store: ChainStore, h: Byte32) -> Seq<Byte32> {
    if store.has_block(h) {
        store.block(h).tx_hashes@
    } else {
        Seq::empty()
    }
}

/// The transactions of the blocks `hs`, block by block in that order.
pub open spec fn txs_of(store: ChainStore, hs: Seq<Byte32>) -> Seq<Byte32>
    decreases hs.len(),
{
    if hs.len() == 0 {
        Seq::empty()
    } else {
        txs_of(store, hs.drop_last()) + block_txs(store, hs.last())
    }
}

/// The elements of `s` that `excl` does not hold, in order.
pub open spec fn absent_from(s: Seq<Byte32>, excl: Seq<Byte32>) -> Seq<Byte32>
    decreases s.len(),
{
    if s.len() == 0 {
        Seq::empty()
    } else if excl.contains(s.last()) {
        absent_from(s.drop_last(), excl)
    } else {
        absent_from(s.drop_last(), excl).push(s.last())
    }
}

fn contains_hash(v: &Vec<Byte32>, h: &Byte32) -> (r: bool)
    ensures
        r == v@.contains(*h),
{
    let mut i: usize = 0;
    while i < v.len()
        invariant
            i <= v@.len(),
            forall|j: int| 0 <= j < i ==> v@[j] != *h,
        decreases v@.len() - i,
    {
        if v[i] == *h {
            return true;
        }
        i = i + 1;
    }
    false
}

impl ChainStore {
    /// The transactions of the blocks `hashes`, block by block.
    fn collect_txs(&self, hashes: &[Byte32]) -> (r: Vec<Byte32>)
        requires
            self.wf(),
        ensures
            r@ == txs_of(*self, hashes@),
    {
        let mut out: Vec<Byte32> = Vec::new();
        let mut i: usize = 0;
        while i < hashes.len()
            invariant
                self.wf(),
                i <= hashes@.len(),
                out@ == txs_of(*self, hashes@.subrange(0, i as int)),
            decreases hashes@.len() - i,
        {
            let ghost before = out@;
            assert(hashes@.subrange(0, i + 1).drop_last() =~= hashes@.subrange(0, i as int));
            match self.position(&hashes[i]) {
                Some(k) => {
                    proof {
                        self.lemma_block_at(k as int);
                    }
                    let b = self.block_at(k);
                    let mut j: usize = 0;
                    while j < b.tx_hashes.len()
                        invariant
                            j <= b.tx_hashes@.len(),
                            out@ == before + b.tx_hashes@.subrange(0, j as int),
                        decreases b.tx_hashes@.len() - j,
                    {
                        out.push(b.tx_hashes[j]);
                        assert(b.tx_hashes@.subrange(0, j + 1) =~= b.tx_hashes@.subrange(0, j as int).push(b.tx_hashes@[j as int]));
                        assert(out@ =~= before + b.tx_hashes@.subrange(0, j + 1));
                        j = j + 1;
                    }
                    assert(b.tx_hashes@.subrange(0, b.tx_hashes@.len() as int) =~= b.tx_hashes@);
                },
                None => {
                    assert(before + Seq::<Byte32>::empty() =~= before);
                },
            }
            i = i + 1;
        }
        assert(hashes@.subrange(0, hashes@.len() as int) =~= hashes@);
        out
    }

    /// The transactions that go back to the pool after a reorg: those of
    /// the detached blocks, in the order given (tip first), less those that
    /// an attached block holds.
    pub fn returned_transactions(&self, detached: &[Byte32], attached: &[Byte32]) -> (r: Vec<
        Byte32,
    >)
        requires
            self.wf(),
        ensures
            r@ == absent_from(txs_of(*self, detached@), txs_of(*self, attached@)),
    {
        let gone = self.collect_txs(detached);
        let kept = self.collect_txs(attached);
        let mut out: Vec<Byte32> = Vec::new();
        let mut i: usize = 0;
        while i < gone.len()
            invariant
                i <= gone@.len(),
                out@ == absent_from(gone@.subrange(0, i as int), kept@),
            decreases gone@.len() - i,
        {
            assert(gone@.subrange(0, i + 1).drop_last() =~= gone@.subrange(0, i as int));
            if !contains_hash(&kept, &gone[i]) {
                out.push(gone[i]);
            }
            i = i + 1;
        }
        assert(gone@.subrange(0, gone@.len() as int) =~= gone@);
        out
    }
}

} // verus!
