use vstd::prelude::*;

verus! {

/// Height of a block in the chain.
pub type BlockNumber = u64;

/// Unit of script-VM work.
pub type Cycle = u64;

/// Index of a connected peer.
pub type PeerIndex = u64;

/// A 32-byte digest, held as four 64-bit words; word `k` is bytes `8k..8k+8`
/// read in little-endian order.
#[derive(Clone, Copy, Debug, PartialEq, Eq, Structural, Hash)]
pub struct Byte32 {
    pub w0: u64,
    pub w1: u64,
    pub w2: u64,
    pub w3: u64,
}

impl Byte32 {
    /// The all-zero digest.
    pub fn zero() -> (r: Byte32)
        ensures
            r == (Byte32 { w0: 0, w1: 0, w2: 0, w3: 0 }),
    {
        Byte32 { w0: 0, w1: 0, w2: 0, w3: 0 }
    }
}

/// An unsigned 256-bit integer in four 64-bit limbs, least significant first.
#[derive(Clone, Copy, Debug, PartialEq, Eq, Structural, Hash)]
pub struct U256 {
    pub l0: u64,
    pub l1: u64,
    pub l2: u64,
    pub l3: u64,
}

pub open spec fn limb_base() -> nat {
    0x1_0000_0000_0000_0000nat
}

impl U256 {
    /// The number that the limbs stand for.
    pub open spec fn value(self) -> nat {
        self.l0 as nat + limb_base() * (self.l1 as nat + limb_base() * (self.l2 as nat
            + limb_base() * self.l3 as nat))
    }

    pub fn from_u64(x: u64) -> (r: U256)
        ensures
            r.value() == x as nat,
    {
        U256 { l0: x, l1: 0, l2: 0, l3: 0 }
    }

    /// Strict numeric comparison.
    pub fn gt(&self, other: &U256) -> (r: bool)
        ensures
            r == (self.value() > other.value()),
    {
        proof {
            lemma_value_order(*self, *other);
        }
        if self.l3 != other.l3 {
            self.l3 > other.l3
        } else if self.l2 != other.l2 {
            self.l2 > other.l2
        } else if self.l1 != other.l1 {
            self.l1 > other.l1
        } else {
            self.l0 > other.l0
        }
    }
}

proof fn lemma_limb_step(hi_a: nat, hi_b: nat, lo_a: nat, lo_b: nat)
    requires
        lo_a < limb_base(),
        lo_b < limb_base(),
    ensures
        hi_a > hi_b ==> lo_a + limb_base() * hi_a > lo_b + limb_base() * hi_b,
        hi_a == hi_b ==> (lo_a + limb_base() * hi_a > lo_b + limb_base() * hi_b <==> lo_a > lo_b),
{
    if hi_a > hi_b {
        assert(limb_base() * hi_a >= limb_base() * hi_b + limb_base()) by (nonlinear_arith)
            requires
                hi_a >= hi_b + 1,
        ;
    }
}

proof fn lemma_value_order(a: U256, b: U256)
    ensures
        a.l3 != b.l3 ==> (a.value() > b.value() <==> a.l3 > b.l3),
        a.l3 == b.l3 && a.l2 != b.l2 ==> (a.value() > b.value() <==> a.l2 > b.l2),
        a.l3 == b.l3 && a.l2 == b.l2 && a.l1 != b.l1 ==> (a.value() > b.value() <==> a.l1
            > b.l1),
        a.l3 == b.l3 && a.l2 == b.l2 && a.l1 == b.l1 ==> (a.value() > b.value() <==> a.l0
            > b.l0),
{
    let base = limb_base();
    let ha2 = a.l2 as nat + base * a.l3 as nat;
    let hb2 = b.l2 as nat + base * b.l3 as nat;
    let ha1 = a.l1 as nat + base * ha2;
    let hb1 = b.l1 as nat + base * hb2;
    lemma_limb_step(a.l3 as nat, b.l3 as nat, a.l2 as nat, b.l2 as nat);
    lemma_limb_step(b.l3 as nat, a.l3 as nat, b.l2 as nat, a.l2 as nat);
    lemma_limb_step(ha2, hb2, a.l1 as nat, b.l1 as nat);
    lemma_limb_step(hb2, ha2, b.l1 as nat, a.l1 as nat);
    lemma_limb_step(ha1, hb1, a.l0 as nat, b.l0 as nat);
    lemma_limb_step(hb1, ha1, b.l0 as nat, a.l0 as nat);
}

impl U256 {
    /// The sum, or `None` when it does not fit in 256 bits.
    pub fn checked_add(&self, other: &U256) -> (r: Option<U256>)
        ensures
            match r {
                Some(s) => s.value() == self.value() + other.value(),
                None => self.value() + other.value() >= limb_base() * limb_base() * limb_base()
                    * limb_base(),
            },
    {
        let (s0, c0) = add_limb(self.l0, other.l0, 0);
        let (s1, c1) = add_limb(self.l1, other.l1, c0);
        let (s2, c2) = add_limb(self.l2, other.l2, c1);
        let (s3, c3) = add_limb(self.l3, other.l3, c2);
        let r = U256 { l0: s0, l1: s1, l2: s2, l3: s3 };
        proof {
            let base = limb_base();
            let a = *self;
            let b = *other;
            let h3: int = a.l3 + b.l3;
            let t2: int = a.l2 + b.l2 + base * h3;
            let t1: int = a.l1 + b.l1 + base * t2;
            assert(a.value() + b.value() == a.l0 + b.l0 + base * t1) by (nonlinear_arith)
                requires
                    h3 == a.l3 + b.l3,
                    t2 == a.l2 + b.l2 + base * h3,
                    t1 == a.l1 + b.l1 + base * t2,
                    a.value() == a.l0 + base * (a.l1 + base * (a.l2 + base * a.l3)),
                    b.value() == b.l0 + base * (b.l1 + base * (b.l2 + base * b.l3)),
            ;
            assert(c2 + h3 == s3 + base * c3);
            assert(c1 + t2 == s2 + base * (c2 + h3)) by (nonlinear_arith)
                requires
                    t2 == a.l2 + b.l2 + base * h3,
                    a.l2 + b.l2 + c1 == s2 + c2 * base,
            ;
            assert(c0 + t1 == s1 + base * (c1 + t2)) by (nonlinear_arith)
                requires
                    t1 == a.l1 + b.l1 + base * t2,
                    a.l1 + b.l1 + c0 == s1 + c1 * base,
            ;
            assert(a.value() + b.value() == s0 + base * (c0 + t1)) by (nonlinear_arith)
                requires
                    a.value() + b.value() == a.l0 + b.l0 + base * t1,
                    a.l0 + b.l0 == s0 + c0 * base,
            ;
            assert(a.value() + b.value() == r.value() + c3 * base * base * base * base) by (nonlinear_arith)
                requires
                    a.value() + b.value() == s0 + base * (c0 + t1),
                    c0 + t1 == s1 + base * (c1 + t2),
                    c1 + t2 == s2 + base * (c2 + h3),
                    c2 + h3 == s3 + base * c3,
                    r.value() == s0 + base * (s1 + base * (s2 + base * s3)),
            ;
            assert(r.value() >= 0);
            assert(r.value() < base * base * base * base) by (nonlinear_arith)
                requires
                    r.value() == r.l0 + base * (r.l1 + base * (r.l2 + base * r.l3)),
                    r.l0 < base,
                    r.l1 < base,
                    r.l2 < base,
                    r.l3 < base,
            ;
        }
        if c3 == 1 {
            None
        } else {
            Some(r)
        }
    }
}

fn add_limb(a: u64, b: u64, carry: u64) -> (r: (u64, u64))
    requires
        carry <= 1,
    ensures
        r.1 <= 1,
        a + b + carry == r.0 + r.1 * limb_base(),
{
    if a as u128 + b as u128 + carry as u128 >= 0x1_0000_0000_0000_0000u128 {
        (((a as u128 + b as u128 + carry as u128) - 0x1_0000_0000_0000_0000u128) as u64, 1)
    } else {
        ((a as u128 + b as u128 + carry as u128) as u64, 0)
    }
}

/// An epoch position packed into one word: epoch number in bits 0..24, index
/// within the epoch in bits 24..40, epoch length in bits 40..56.
#[derive(Clone, Copy, Debug, PartialEq, Eq, Structural, Hash)]
pub struct EpochNumberWithFraction {
    pub full: u64,
}

pub open spec fn pack_epoch(number: u64, index: u64, length: u64) -> u64 {
    (length << 40u64) | (index << 24u64) | number
}

impl EpochNumberWithFraction {
    pub fn new(number: u64, index: u64, length: u64) -> (r: EpochNumberWithFraction)
        ensures
            r.full == pack_epoch(number, index, length),
    {
        EpochNumberWithFraction { full: (length << 40u64) | (index << 24u64) | number }
    }

    pub fn from_full_value(full: u64) -> (r: EpochNumberWithFraction)
        ensures
            r.full == full,
    {
        EpochNumberWithFraction { full }
    }

    pub fn full_value(&self) -> (r: u64)
        ensures
            r == self.full,
    {
        self.full
    }

    pub fn number(&self) -> (r: u64)
        ensures
            r == self.full & 0xff_ffff,
    {
        self.full & 0xff_ffff
    }

    pub fn index(&self) -> (r: u64)
        ensures
            r == (self.full >> 24u64) & 0xffff,
    {
        (self.full >> 24u64) & 0xffff
    }

    pub fn length(&self) -> (r: u64)
        ensures
            r == (self.full >> 40u64) & 0xffff,
    {
        (self.full >> 40u64) & 0xffff
    }
}

/// The parameters of one epoch.
#[derive(Clone, Copy, Debug, PartialEq, Eq, Structural)]
pub struct EpochExt {
    pub number: u64,
    pub start_number: BlockNumber,
    pub length: u64,
    pub compact_target: u32,
}

impl EpochExt {
    /// The epoch position that block `number` of this epoch must carry.
    pub fn number_with_fraction(&self, number: BlockNumber) -> (r: EpochNumberWithFraction)
        requires
            number >= self.start_number,
        ensures
            r.full == pack_epoch(self.number, (number - self.start_number) as u64, self.length),
    {
        EpochNumberWithFraction::new(self.number, number - self.start_number, self.length)
    }
}

/// Opt-out flags for the verification steps; a set bit disables the step.
#[derive(Clone, Copy, Debug, PartialEq, Eq, Structural)]
pub struct Switch {
    pub bits: u32,
}

pub const DISABLE_EPOCH: u32 = 0b0000_0001;
pub const DISABLE_UNCLES: u32 = 0b0000_0010;
pub const DISABLE_TWO_PHASE_COMMIT: u32 = 0b0000_0100;
pub const DISABLE_DAOHEADER: u32 = 0b0000_1000;
pub const DISABLE_REWARD: u32 = 0b0001_0000;
pub const DISABLE_NON_CONTEXTUAL: u32 = 0b0010_0000;
pub const DISABLE_SCRIPT: u32 = 0b0100_0000;
pub const DISABLE_EXTENSION: u32 = 0b1000_0000;

impl Switch {
    pub open spec fn has(self, flag: u32) -> bool {
        self.bits & flag != 0
    }

    pub fn none() -> (r: Switch)
        ensures
            r.bits == 0,
    {
        Switch { bits: 0 }
    }

    pub fn disable_epoch(&self) -> (r: bool)
        ensures
            r == self.has(DISABLE_EPOCH),
    {
        self.bits & DISABLE_EPOCH != 0
    }

    pub fn disable_uncles(&self) -> (r: bool)
        ensures
            r == self.has(DISABLE_UNCLES),
    {
        self.bits & DISABLE_UNCLES != 0
    }

    pub fn disable_two_phase_commit(&self) -> (r: bool)
        ensures
            r == self.has(DISABLE_TWO_PHASE_COMMIT),
    {
        self.bits & DISABLE_TWO_PHASE_COMMIT != 0
    }

    pub fn disable_daoheader(&self) -> (r: bool)
        ensures
            r == self.has(DISABLE_DAOHEADER),
    {
        self.bits & DISABLE_DAOHEADER != 0
    }

    pub fn disable_reward(&self) -> (r: bool)
        ensures
            r == self.has(DISABLE_REWARD),
    {
        self.bits & DISABLE_REWARD != 0
    }

    pub fn disable_non_contextual(&self) -> (r: bool)
        ensures
            r == self.has(DISABLE_NON_CONTEXTUAL),
    {
        self.bits & DISABLE_NON_CONTEXTUAL != 0
    }

    pub fn disable_script(&self) -> (r: bool)
        ensures
            r == self.has(DISABLE_SCRIPT),
    {
        self.bits & DISABLE_SCRIPT != 0
    }

    pub fn disable_extension(&self) -> (r: bool)
        ensures
            r == self.has(DISABLE_EXTENSION),
    {
        self.bits & DISABLE_EXTENSION != 0
    }
}

/// Identifier of a transaction in a proposal: the first ten bytes of its hash.
#[derive(Clone, Copy, Debug, PartialEq, Eq, Structural, Hash)]
pub struct ProposalShortId {
    pub lo: u64,
    pub hi: u16,
}

pub open spec fn short_id_of(h: Byte32) -> ProposalShortId {
    ProposalShortId { lo: h.w0, hi: h.w1 as u16 }
}

impl ProposalShortId {
    pub fn from_tx_hash(h: &Byte32) -> (r: ProposalShortId)
        ensures
            r == short_id_of(*h),
    {
        ProposalShortId { lo: h.w0, hi: h.w1 as u16 }
    }
}

/// An output cell: its capacity and the hash of its lock script.
#[derive(Clone, Copy, Debug, PartialEq, Eq, Structural)]
pub struct CellOutput {
    pub capacity: u64,
    pub lock: Byte32,
}

/// What the pipeline reads of a transaction.
#[derive(Clone, Debug)]
pub struct TransactionView {
    pub hash: Byte32,
    pub outputs: Vec<CellOutput>,
}

impl TransactionView {
    pub fn proposal_short_id(&self) -> (r: ProposalShortId)
        ensures
            r == short_id_of(self.hash),
    {
        ProposalShortId::from_tx_hash(&self.hash)
    }
}

} // verus!
