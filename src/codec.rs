use vstd::prelude::*;

use crate::types::{BlockNumber, Byte32, EpochNumberWithFraction, U256};

verus! {

/// Length of an encoded record without a skip hash.
pub const SHORT_RECORD_LEN: usize = 88;

/// Length of an encoded record with a skip hash.
pub const LONG_RECORD_LEN: usize = 120;

/// The eight little-endian bytes of `x`.
pub open spec fn le_bytes(x: u64) -> Seq<u8> {
    seq![
        x as u8,
        (x >> 8u64) as u8,
        (x >> 16u64) as u8,
        (x >> 24u64) as u8,
        (x >> 32u64) as u8,
        (x >> 40u64) as u8,
        (x >> 48u64) as u8,
        (x >> 56u64) as u8,
    ]
}

/// The word whose little-endian bytes are `s[0..8]`.
pub open spec fn le_word(s: Seq<u8>) -> u64 {
    (s[0] as u64) | ((s[1] as u64) << 8u64) | ((s[2] as u64) << 16u64) | ((s[3] as u64) << 24u64)
        | ((s[4] as u64) << 32u64) | ((s[5] as u64) << 40u64) | ((s[6] as u64) << 48u64) | ((
    s[7] as u64) << 56u64)
}

pub open spec fn hash_bytes(h: Byte32) -> Seq<u8> {
    le_bytes(h.w0) + le_bytes(h.w1) + le_bytes(h.w2) + le_bytes(h.w3)
}

pub open spec fn u256_bytes(u: U256) -> Seq<u8> {
    le_bytes(u.l0) + le_bytes(u.l1) + le_bytes(u.l2) + le_bytes(u.l3)
}

pub open spec fn hash_at(s: Seq<u8>, at: int) -> Byte32 {
    Byte32 {
        w0: le_word(s.subrange(at, at + 8)),
        w1: le_word(s.subrange(at + 8, at + 16)),
        w2: le_word(s.subrange(at + 16, at + 24)),
        w3: le_word(s.subrange(at + 24, at + 32)),
    }
}

pub open spec fn u256_at(s: Seq<u8>, at: int) -> U256 {
    U256 {
        l0: le_word(s.subrange(at, at + 8)),
        l1: le_word(s.subrange(at + 8, at + 16)),
        l2: le_word(s.subrange(at + 16, at + 24)),
        l3: le_word(s.subrange(at + 24, at + 32)),
    }
}

/// A header-index record without its hash, as the cold tier stores it.
#[derive(Clone, Copy, Debug, PartialEq, Eq, Structural)]
pub struct HeaderIndexViewInner {
    pub number: BlockNumber,
    pub epoch: EpochNumberWithFraction,
    pub timestamp: u64,
    pub parent_hash: Byte32,
    pub total_difficulty: U256,
    pub skip_hash: Option<Byte32>,
}

/// Summary of a header, used for ancestor lookups.
#[derive(Clone, Copy, Debug, PartialEq, Eq, Structural)]
pub struct HeaderIndexView {
    pub hash: Byte32,
    pub number: BlockNumber,
    pub epoch: EpochNumberWithFraction,
    pub timestamp: u64,
    pub parent_hash: Byte32,
    pub total_difficulty: U256,
    pub skip_hash: Option<Byte32>,
}

/// The little-endian fixed layout: number, epoch, timestamp, parent hash,
/// total difficulty, then the skip hash when there is one.
pub open spec fn encode_inner(v: HeaderIndexViewInner) -> Seq<u8> {
    le_bytes(v.number) + le_bytes(v.epoch.full) + le_bytes(v.timestamp) + hash_bytes(v.parent_hash)
        + u256_bytes(v.total_difficulty) + match v.skip_hash {
        Some(h) => hash_bytes(h),
        None => Seq::empty(),
    }
}

pub open spec fn decode_inner(s: Seq<u8>) -> HeaderIndexViewInner {
    HeaderIndexViewInner {
        number: le_word(s.subrange(0, 8)),
        epoch: EpochNumberWithFraction { full: le_word(s.subrange(8, 16)) },
        timestamp: le_word(s.subrange(16, 24)),
        parent_hash: hash_at(s, 24),
        total_difficulty: u256_at(s, 56),
        skip_hash: if s.len() == 120 {
            Some(hash_at(s, 88))
        } else {
            None
        },
    }
}

pub open spec fn split_view(v: HeaderIndexView) -> (Byte32, HeaderIndexViewInner) {
    (
        v.hash,
        HeaderIndexViewInner {
            number: v.number,
            epoch: v.epoch,
            timestamp: v.timestamp,
            parent_hash: v.parent_hash,
            total_difficulty: v.total_difficulty,
            skip_hash: v.skip_hash,
        },
    )
}

pub open spec fn join_view(hash: Byte32, inner: HeaderIndexViewInner) -> HeaderIndexView {
    HeaderIndexView {
        hash,
        number: inner.number,
        epoch: inner.epoch,
        timestamp: inner.timestamp,
        parent_hash: inner.parent_hash,
        total_difficulty: inner.total_difficulty,
        skip_hash: inner.skip_hash,
    }
}

pub proof fn lemma_le_word_of_bytes(x: u64)
    ensures
        le_word(le_bytes(x)) == x,
{
    let s = le_bytes(x);
    assert(s[0] == x as u8 && s[1] == (x >> 8u64) as u8 && s[2] == (x >> 16u64) as u8 && s[3]
        == (x >> 24u64) as u8 && s[4] == (x >> 32u64) as u8 && s[5] == (x >> 40u64) as u8 && s[6]
        == (x >> 48u64) as u8 && s[7] == (x >> 56u64) as u8);
    assert(((x as u8) as u64) | ((((x >> 8u64) as u8) as u64) << 8u64) | ((((x >> 16u64) as u8)
        as u64) << 16u64) | ((((x >> 24u64) as u8) as u64) << 24u64) | ((((x >> 32u64) as u8)
        as u64) << 32u64) | ((((x >> 40u64) as u8) as u64) << 40u64) | ((((x >> 48u64) as u8)
        as u64) << 48u64) | ((((x >> 56u64) as u8) as u64) << 56u64) == x) by (bit_vector);
}

proof fn lemma_word_at(s: Seq<u8>, at: int, x: u64)
    requires
        0 <= at,
        at + 8 <= s.len(),
        s.subrange(at, at + 8) == le_bytes(x),
    ensures
        le_word(s.subrange(at, at + 8)) == x,
{
    lemma_le_word_of_bytes(x);
}

/// Decoding an encoded record gives the record back.
#[verifier::spinoff_prover]
#[verifier::rlimit(100)]
pub proof fn lemma_decode_encode(v: HeaderIndexViewInner)
    ensures
        decode_inner(encode_inner(v)) == v,
        encode_inner(v).len() == (if v.skip_hash is Some {
            120int
        } else {
            88int
        }),
{
    let s = encode_inner(v);
    let p = v.parent_hash;
    let t = v.total_difficulty;
    assert(s.subrange(0, 8) =~= le_bytes(v.number));
    assert(s.subrange(8, 16) =~= le_bytes(v.epoch.full));
    assert(s.subrange(16, 24) =~= le_bytes(v.timestamp));
    assert(s.subrange(24, 32) =~= le_bytes(p.w0));
    assert(s.subrange(32, 40) =~= le_bytes(p.w1));
    assert(s.subrange(40, 48) =~= le_bytes(p.w2));
    assert(s.subrange(48, 56) =~= le_bytes(p.w3));
    assert(s.subrange(56, 64) =~= le_bytes(t.l0));
    assert(s.subrange(64, 72) =~= le_bytes(t.l1));
    assert(s.subrange(72, 80) =~= le_bytes(t.l2));
    assert(s.subrange(80, 88) =~= le_bytes(t.l3));
    lemma_word_at(s, 0, v.number);
    lemma_word_at(s, 8, v.epoch.full);
    lemma_word_at(s, 16, v.timestamp);
    lemma_word_at(s, 24, p.w0);
    lemma_word_at(s, 32, p.w1);
    lemma_word_at(s, 40, p.w2);
    lemma_word_at(s, 48, p.w3);
    lemma_word_at(s, 56, t.l0);
    lemma_word_at(s, 64, t.l1);
    lemma_word_at(s, 72, t.l2);
    lemma_word_at(s, 80, t.l3);
    if let Some(h) = v.skip_hash {
        assert(s.subrange(88, 96) =~= le_bytes(h.w0));
        assert(s.subrange(96, 104) =~= le_bytes(h.w1));
        assert(s.subrange(104, 112) =~= le_bytes(h.w2));
        assert(s.subrange(112, 120) =~= le_bytes(h.w3));
        lemma_word_at(s, 88, h.w0);
        lemma_word_at(s, 96, h.w1);
        lemma_word_at(s, 104, h.w2);
        lemma_word_at(s, 112, h.w3);
    }
    assert(decode_inner(s).epoch == v.epoch);
    assert(decode_inner(s).parent_hash == p);
    assert(decode_inner(s).total_difficulty == t);
}

fn push_word(out: &mut Vec<u8>, x: u64)
    ensures
        final(out)@ == old(out)@ + le_bytes(x),
{
    out.push(x as u8);
    out.push((x >> 8u64) as u8);
    out.push((x >> 16u64) as u8);
    out.push((x >> 24u64) as u8);
    out.push((x >> 32u64) as u8);
    out.push((x >> 40u64) as u8);
    out.push((x >> 48u64) as u8);
    out.push((x >> 56u64) as u8);
    assert(final(out)@ =~= old(out)@ + le_bytes(x));
}

fn read_word(s: &[u8], at: usize) -> (r: u64)
    requires
        at + 8 <= s@.len(),
    ensures
        r == le_word(s@.subrange(at as int, at + 8)),
{
    (s[at] as u64) | ((s[at + 1] as u64) << 8u64) | ((s[at + 2] as u64) << 16u64) | ((s[at + 3]
        as u64) << 24u64) | ((s[at + 4] as u64) << 32u64) | ((s[at + 5] as u64) << 40u64) | ((s[at
        + 6] as u64) << 48u64) | ((s[at + 7] as u64) << 56u64)
}

pub(crate) fn push_hash(out: &mut Vec<u8>, h: &Byte32)
    ensures
        final(out)@ == old(out)@ + hash_bytes(*h),
{
    push_word(out, h.w0);
    push_word(out, h.w1);
    push_word(out, h.w2);
    push_word(out, h.w3);
    assert(final(out)@ =~= old(out)@ + hash_bytes(*h));
}

fn read_hash(s: &[u8], at: usize) -> (r: Byte32)
    requires
        at <= 88,
        at + 32 <= s@.len(),
    ensures
        r == hash_at(s@, at as int),
{
    Byte32 {
        w0: read_word(s, at),
        w1: read_word(s, at + 8),
        w2: read_word(s, at + 16),
        w3: read_word(s, at + 24),
    }
}

impl HeaderIndexViewInner {
    /// Encodes the record in its stable layout (88 bytes, or 120 with a skip hash).
    pub fn to_vec(&self) -> (r: Vec<u8>)
        ensures
            r@ == encode_inner(*self),
    {
        let mut v: Vec<u8> = Vec::new();
        push_word(&mut v, self.number);
        push_word(&mut v, self.epoch.full);
        push_word(&mut v, self.timestamp);
        push_hash(&mut v, &self.parent_hash);
        let t = self.total_difficulty;
        push_word(&mut v, t.l0);
        push_word(&mut v, t.l1);
        push_word(&mut v, t.l2);
        push_word(&mut v, t.l3);
        if let Some(h) = self.skip_hash {
            push_hash(&mut v, &h);
        }
        assert(v@ =~= encode_inner(*self));
        v
    }

    /// Decodes a stored record; the slice must have one of the two layouts.
    pub fn from_slice_should_be_ok(slice: &[u8]) -> (r: HeaderIndexViewInner)
        requires
            slice@.len() == 88 || slice@.len() == 120,
        ensures
            r == decode_inner(slice@),
    {
        let number = read_word(slice, 0);
        let epoch = EpochNumberWithFraction::from_full_value(read_word(slice, 8));
        let timestamp = read_word(slice, 16);
        let parent_hash = read_hash(slice, 24);
        let total_difficulty = U256 {
            l0: read_word(slice, 56),
            l1: read_word(slice, 64),
            l2: read_word(slice, 72),
            l3: read_word(slice, 80),
        };
        let skip_hash = if slice.len() == LONG_RECORD_LEN {
            Some(read_hash(slice, 88))
        } else {
            None
        };
        HeaderIndexViewInner { number, epoch, timestamp, parent_hash, total_difficulty, skip_hash }
    }
}

impl HeaderIndexView {
    pub fn new(
        hash: Byte32,
        number: BlockNumber,
        epoch: EpochNumberWithFraction,
        timestamp: u64,
        parent_hash: Byte32,
        total_difficulty: U256,
        skip_hash: Option<Byte32>,
    ) -> (r: HeaderIndexView)
        ensures
            r == (HeaderIndexView {
                hash,
                number,
                epoch,
                timestamp,
                parent_hash,
                total_difficulty,
                skip_hash,
            }),
    {
        HeaderIndexView { hash, number, epoch, timestamp, parent_hash, total_difficulty, skip_hash }
    }

    /// Splits the view into its hash and the record stored under it.
    pub fn split(self) -> (r: (Byte32, HeaderIndexViewInner))
        ensures
            r == split_view(self),
    {
        (
            self.hash,
            HeaderIndexViewInner {
                number: self.number,
                epoch: self.epoch,
                timestamp: self.timestamp,
                parent_hash: self.parent_hash,
                total_difficulty: self.total_difficulty,
                skip_hash: self.skip_hash,
            },
        )
    }

    /// Puts a hash and the record stored under it back together.
    pub fn join(hash: Byte32, inner: HeaderIndexViewInner) -> (r: HeaderIndexView)
        ensures
            r == join_view(hash, inner),
    {
        HeaderIndexView {
            hash,
            number: inner.number,
            epoch: inner.epoch,
            timestamp: inner.timestamp,
            parent_hash: inner.parent_hash,
            total_difficulty: inner.total_difficulty,
            skip_hash: inner.skip_hash,
        }
    }

    pub fn hash(&self) -> (r: Byte32)
        ensures
            r == self.hash,
    {
        self.hash
    }
}

/// Storing a view as hash and encoded record, then reading it back, gives
/// the same view, for both record layouts.
pub proof fn lemma_view_round_trip(v: HeaderIndexView)
    ensures
        join_view(split_view(v).0, decode_inner(encode_inner(split_view(v).1))) == v,
{
    lemma_decode_encode(split_view(v).1);
}

} // verus!
