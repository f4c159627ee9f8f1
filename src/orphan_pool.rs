use vstd::prelude::*;

use std::sync::Arc;

use crate::block::{BlockView, LonelyBlockWithCallback};
use crate::types::Byte32;

verus! {

/// Blocks announced in one round of synchronisation.
pub const BLOCK_DOWNLOAD_WINDOW: usize = 1024 * 8;

/// Capacity of the orphan pool.
pub const ORPHAN_BLOCK_SIZE: usize = 2 * BLOCK_DOWNLOAD_WINDOW;

pub open spec fn hashes_unique<C>(s: Seq<LonelyBlockWithCallback<C>>) -> bool {
    forall|i: int, j: int| 0 <= i < j < s.len() ==> s[i].hash_spec() != s[j].hash_spec()
}

pub open spec fn hashes_disjoint<C>(
    a: Seq<LonelyBlockWithCallback<C>>,
    b: Seq<LonelyBlockWithCallback<C>>,
) -> bool {
    forall|i: int, j: int|
        0 <= i < a.len() && 0 <= j < b.len() ==> a[i].hash_spec() != b[j].hash_spec()
}

pub open spec fn has_hash<C>(s: Seq<LonelyBlockWithCallback<C>>, h: Byte32) -> bool {
    exists|i: int| 0 <= i < s.len() && s[i].hash_spec() == h
}

/// Each block's parent is `root` or a block earlier in the sequence.
pub open spec fn parents_first<C>(s: Seq<LonelyBlockWithCallback<C>>, root: Byte32) -> bool {
    forall|i: int|
        0 <= i < s.len() ==> s[i].parent_spec() == root || exists|j: int|
            0 <= j < i && s[j].hash_spec() == #[trigger] s[i].parent_spec()
}

/// Position in `o` of the block with hash `h`.
pub open spec fn pos_in<C>(o: Seq<LonelyBlockWithCallback<C>>, h: Byte32) -> int {
    choose|k: int| 0 <= k < o.len() && o[k].hash_spec() == h
}

/// The blocks of `s` come in the order that `o` holds them in.
#[verifier::opaque]
pub open spec fn ordered_in<C>(s: Seq<LonelyBlockWithCallback<C>>, o: Seq<LonelyBlockWithCallback<C>>) -> bool {
    forall|i: int, j: int|
        0 <= i < j < s.len() ==> pos_in(o, s[i].hash_spec()) < pos_in(o, s[j].hash_spec())
}

/// Generation of a released block: -1 under `root`, else the position of
/// its parent among the released blocks.
pub open spec fn generation<C>(r: Seq<LonelyBlockWithCallback<C>>, root: Byte32, x: LonelyBlockWithCallback<C>) -> int {
    if x.parent_spec() == root {
        -1
    } else {
        pos_in(r, x.parent_spec())
    }
}

/// Every released block's generation is below `k`.
#[verifier::opaque]
pub open spec fn generations_below<C>(r: Seq<LonelyBlockWithCallback<C>>, root: Byte32, k: int) -> bool {
    forall|i: int| 0 <= i < r.len() ==> generation(r, root, #[trigger] r[i]) < k
}

/// Breadth-first order: generations never go back, and blocks of one
/// parent keep the order of `o`.
#[verifier::opaque]
pub open spec fn breadth_first<C>(
    r: Seq<LonelyBlockWithCallback<C>>,
    root: Byte32,
    o: Seq<LonelyBlockWithCallback<C>>,
) -> bool {
    &&& forall|i: int, j: int|
        0 <= i < j < r.len() ==> generation(r, root, r[i]) <= generation(r, root, r[j])
    &&& forall|i: int, j: int|
        0 <= i < j < r.len() && r[i].parent_spec() == r[j].parent_spec() ==> pos_in(
            o,
            r[i].hash_spec(),
        ) < pos_in(o, r[j].hash_spec())
}

proof fn lemma_pos_self<C>(o: Seq<LonelyBlockWithCallback<C>>, i: int)
    requires
        hashes_unique(o),
        0 <= i < o.len(),
    ensures
        pos_in(o, o[i].hash_spec()) == i,
{
    let k = pos_in(o, o[i].hash_spec());
    assert(0 <= k < o.len() && o[k].hash_spec() == o[i].hash_spec());
    if k != i {
        if k < i {
            assert(o[k].hash_spec() != o[i].hash_spec());
        } else {
            assert(o[i].hash_spec() != o[k].hash_spec());
        }
    }
}

/// Blocks whose parent is not known yet, oldest first.
pub struct OrphanBlockPool<C> {
    blocks: Vec<LonelyBlockWithCallback<C>>,
    capacity: usize,
}

impl<C> View for OrphanBlockPool<C> {
    type V = Seq<LonelyBlockWithCallback<C>>;

    closed spec fn view(&self) -> Seq<LonelyBlockWithCallback<C>> {
        self.blocks@
    }
}

proof fn lemma_remove_keeps<C>(s: Seq<LonelyBlockWithCallback<C>>, i: int)
    requires
        hashes_unique(s),
        0 <= i < s.len(),
    ensures
        hashes_unique(s.remove(i)),
        forall|a: int| 0 <= a < s.remove(i).len() ==> s.remove(i)[a] == s[if a < i {
            a
        } else {
            a + 1
        }],
{
    let t = s.remove(i);
    assert forall|a: int, b: int| 0 <= a < b < t.len() implies t[a].hash_spec()
        != t[b].hash_spec() by {
        let a0 = if a < i {
            a
        } else {
            a + 1
        };
        let b0 = if b < i {
            b
        } else {
            b + 1
        };
        assert(t[a] == s[a0] && t[b] == s[b0]);
    }
}

proof fn lemma_ordered_self<C>(o: Seq<LonelyBlockWithCallback<C>>)
    requires
        hashes_unique(o),
    ensures
        ordered_in(o, o),
{
    reveal(ordered_in);
    assert forall|i: int, j: int| 0 <= i < j < o.len() implies pos_in(o, o[i].hash_spec()) < pos_in(
        o,
        o[j].hash_spec(),
    ) by {
        lemma_pos_self(o, i);
        lemma_pos_self(o, j);
    }
}

proof fn lemma_gen_kept<C>(
    r0: Seq<LonelyBlockWithCallback<C>>,
    r1: Seq<LonelyBlockWithCallback<C>>,
    root: Byte32,
    i: int,
)
    requires
        0 <= i < r0.len(),
        r1.len() >= r0.len(),
        r1.subrange(0, r0.len() as int) == r0,
        hashes_unique(r1),
        parents_first(r0, root),
    ensures
        generation(r1, root, r1[i]) == generation(r0, root, r0[i]),
{
    assert(r1[i] == r0[i]);
    if r0[i].parent_spec() != root {
        let j = choose|j: int| 0 <= j < i && r0[j].hash_spec() == #[trigger] r0[i].parent_spec();
        assert(r1[j] == r0[j]);
        lemma_pos_self(r1, j);
        assert forall|a: int, b: int| 0 <= a < b < r0.len() implies r0[a].hash_spec()
            != r0[b].hash_spec() by {
            assert(r1[a] == r0[a] && r1[b] == r0[b]);
        }
        lemma_pos_self(r0, j);
    }
}

/// One round of the drain keeps the released blocks in breadth-first order.
#[verifier::spinoff_prover]
proof fn lemma_bfs_step<C>(
    r0: Seq<LonelyBlockWithCallback<C>>,
    r1: Seq<LonelyBlockWithCallback<C>>,
    b0: Seq<LonelyBlockWithCallback<C>>,
    o: Seq<LonelyBlockWithCallback<C>>,
    root: Byte32,
    k: int,
)
    requires
        0 <= k < r0.len(),
        r1.len() >= r0.len(),
        r1.subrange(0, r0.len() as int) == r0,
        hashes_unique(r1),
        parents_first(r0, root),
        breadth_first(r0, root, o),
        generations_below(r0, root, k),
        forall|i: int|
            r0.len() <= i < r1.len() ==> (#[trigger] r1[i]).parent_spec() == r0[k].hash_spec(),
        forall|a: int, b: int|
            r0.len() <= a < b < r1.len() ==> pos_in(o, r1[a].hash_spec()) < pos_in(o, r1[b].hash_spec()),
        forall|i: int| r0.len() <= i < r1.len() ==> b0.contains(#[trigger] r1[i]),
        forall|i: int| 0 <= i < b0.len() ==> (#[trigger] b0[i]).parent_spec() != root,
    ensures
        breadth_first(r1, root, o),
        generations_below(r1, root, k + 1),
{
    reveal(breadth_first);
    reveal(generations_below);
    let n0 = r0.len() as int;
    assert(r1[k] == r0[k]);
    lemma_pos_self(r1, k);
    if r1.len() > n0 {
        assert(b0.contains(r1[n0]));
        let i0 = choose|i0: int| 0 <= i0 < b0.len() && b0[i0] == r1[n0];
        assert(r0[k].hash_spec() != root);
    }
    assert forall|i: int| 0 <= i < r1.len() implies generation(r1, root, #[trigger] r1[i])
        == if i < n0 { generation(r0, root, r0[i]) } else { k } by {
        if i < n0 {
            lemma_gen_kept(r0, r1, root, i);
        }
    }
    assert forall|i: int, j: int| 0 <= i < j < r1.len() implies generation(r1, root, r1[i])
        <= generation(r1, root, r1[j]) by {
        if j < n0 {
            assert(r1[i] == r0[i] && r1[j] == r0[j]);
        }
    }
    assert forall|i: int, j: int|
        0 <= i < j < r1.len() && r1[i].parent_spec() == r1[j].parent_spec() implies pos_in(
        o,
        r1[i].hash_spec(),
    ) < pos_in(o, r1[j].hash_spec()) by {
        if j < n0 {
            assert(r1[i] == r0[i] && r1[j] == r0[j]);
        } else if i < n0 {
            assert(generation(r1, root, r1[j]) == k);
            assert(generation(r1, root, r1[i]) < k);
        }
    }
}

impl<C> OrphanBlockPool<C> {
    pub closed spec fn capacity_spec(&self) -> nat {
        self.capacity as nat
    }

    pub open spec fn wf(&self) -> bool {
        &&& hashes_unique(self@)
        &&& self@.len() <= self.capacity_spec()
        &&& self.capacity_spec() >= 1
    }

    /// An empty pool that holds at most `capacity` blocks.
    pub fn with_capacity(capacity: usize) -> (r: OrphanBlockPool<C>)
        requires
            capacity >= 1,
        ensures
            r.wf(),
            r@ == Seq::<LonelyBlockWithCallback<C>>::empty(),
            r.capacity_spec() == capacity,
    {
        OrphanBlockPool { blocks: Vec::new(), capacity }
    }

    pub fn len(&self) -> (r: usize)
        ensures
            r == self@.len(),
    {
        self.blocks.len()
    }

    pub fn is_empty(&self) -> (r: bool)
        ensures
            r == (self@.len() == 0),
    {
        self.blocks.len() == 0
    }

    fn position(&self, hash: &Byte32) -> (r: Option<usize>)
        ensures
            match r {
                Some(i) => i < self@.len() && self@[i as int].hash_spec() == *hash,
                None => !has_hash(self@, *hash),
            },
    {
        let mut i: usize = 0;
        while i < self.blocks.len()
            invariant
                i <= self@.len(),
                forall|j: int| 0 <= j < i ==> self@[j].hash_spec() != *hash,
            decreases self@.len() - i,
        {
            if self.blocks[i].hash() == *hash {
                return Some(i);
            }
            i = i + 1;
        }
        None
    }

    pub fn contains_block(&self, hash: &Byte32) -> (r: bool)
        ensures
            r == has_hash(self@, *hash),
    {
        self.position(hash).is_some()
    }

    /// The buffered block with this hash.
    pub fn get_block(&self, hash: &Byte32) -> (r: Option<Arc<BlockView>>)
        ensures
            match r {
                Some(b) => exists|i: int|
                    0 <= i < self@.len() && self@[i].hash_spec() == *hash && b
                        == self@[i].lonely_block.block,
                None => !has_hash(self@, *hash),
            },
    {
        match self.position(hash) {
            Some(i) => Some(self.blocks[i].lonely_block.block.clone()),
            None => None,
        }
    }

    /// Buffers a block. Returns the blocks that leave the pool on that
    /// account: the block itself when one with its hash is already buffered,
    /// else the oldest block when the pool would exceed its capacity.
    pub fn insert(&mut self, lonely_block: LonelyBlockWithCallback<C>) -> (r: Vec<
        LonelyBlockWithCallback<C>,
    >)
        requires
            old(self).wf(),
        ensures
            final(self).wf(),
            final(self).capacity_spec() == old(self).capacity_spec(),
            has_hash(old(self)@, lonely_block.hash_spec()) ==> final(self)@ == old(self)@ && r@
                == seq![lonely_block],
            !has_hash(old(self)@, lonely_block.hash_spec()) ==> {
                let s = old(self)@.push(lonely_block);
                if s.len() > old(self).capacity_spec() {
                    final(self)@ == s.subrange(1, s.len() as int) && r@ == seq![s[0]]
                } else {
                    final(self)@ == s && r@.len() == 0
                }
            },
    {
        let mut out: Vec<LonelyBlockWithCallback<C>> = Vec::new();
        if self.contains_block(&lonely_block.hash()) {
            out.push(lonely_block);
            return out;
        }
        let ghost s = self@.push(lonely_block);
        self.blocks.push(lonely_block);
        assert forall|i: int, j: int| 0 <= i < j < self@.len() implies self@[i].hash_spec()
            != self@[j].hash_spec() by {
            if j == self@.len() - 1 {
                assert(self@[i] == old(self)@[i]);
            }
        }
        if self.blocks.len() > self.capacity {
            let oldest = self.blocks.remove(0);
            out.push(oldest);
            proof {
                lemma_remove_keeps(s, 0);
                assert(self@ =~= s.subrange(1, s.len() as int));
            }
        }
        out
    }

    /// Empties the pool, handing back every block it held, oldest first.
    pub fn take_all(&mut self) -> (r: Vec<LonelyBlockWithCallback<C>>)
        requires
            old(self).wf(),
        ensures
            final(self).wf(),
            final(self).capacity_spec() == old(self).capacity_spec(),
            final(self)@.len() == 0,
            r@ == old(self)@,
    {
        let out = self.blocks.split_off(0);
        assert(out@ =~= old(self)@);
        out
    }

    /// Moves, in order, the blocks whose parent is `parent_hash` to the end
    /// of `out`.
    fn take_children(
        &mut self,
        parent_hash: &Byte32,
        out: &mut Vec<LonelyBlockWithCallback<C>>,
        Ghost(o): Ghost<Seq<LonelyBlockWithCallback<C>>>,
    )
        requires
            ordered_in(old(self)@, o),
            hashes_unique(old(self)@),
            hashes_unique(old(out)@),
            hashes_disjoint(old(self)@, old(out)@),
        ensures
            final(self).capacity == old(self).capacity,
            hashes_unique(final(self)@),
            hashes_unique(final(out)@),
            hashes_disjoint(final(self)@, final(out)@),
            final(out)@.len() >= old(out)@.len(),
            final(out)@.subrange(0, old(out)@.len() as int) == old(out)@,
            forall|i: int|
                old(out)@.len() <= i < final(out)@.len() ==> (#[trigger] final(out)@[i]).parent_spec()
                    == *parent_hash,
            forall|i: int|
                0 <= i < final(self)@.len() ==> (#[trigger] final(self)@[i]).parent_spec()
                    != *parent_hash,
            forall|i: int|
                0 <= i < final(self)@.len() ==> old(self)@.contains(#[trigger] final(self)@[i]),
            forall|x: LonelyBlockWithCallback<C>|
                old(self)@.contains(x) || old(out)@.contains(x) <==> final(self)@.contains(x)
                    || final(out)@.contains(x),
            final(self)@.len() + final(out)@.len() == old(self)@.len() + old(out)@.len(),
            ordered_in(final(self)@, o),
            forall|a: int, b: int|
                old(out)@.len() <= a < b < final(out)@.len() ==> pos_in(o, final(out)@[a].hash_spec())
                    < pos_in(o, final(out)@[b].hash_spec()),
            forall|a: int|
                old(out)@.len() <= a < final(out)@.len() ==> old(self)@.contains(
                    #[trigger] final(out)@[a],
                ),
    {
        reveal(ordered_in);
        let mut i: usize = 0;
        while i < self.blocks.len()
            invariant
                self.capacity == old(self).capacity,
                i <= self@.len(),
                hashes_unique(self@),
                hashes_unique(out@),
                hashes_disjoint(self@, out@),
                out@.len() >= old(out)@.len(),
                out@.subrange(0, old(out)@.len() as int) == old(out)@,
                forall|j: int|
                    old(out)@.len() <= j < out@.len() ==> (#[trigger] out@[j]).parent_spec()
                        == *parent_hash,
                forall|j: int| 0 <= j < i ==> (#[trigger] self@[j]).parent_spec() != *parent_hash,
                forall|j: int| 0 <= j < self@.len() ==> old(self)@.contains(#[trigger] self@[j]),
                forall|x: LonelyBlockWithCallback<C>|
                    old(self)@.contains(x) || old(out)@.contains(x) <==> self@.contains(x)
                        || out@.contains(x),
                self@.len() + out@.len() == old(self)@.len() + old(out)@.len(),
                ordered_in(self@, o),
                forall|a: int, b: int|
                    old(out)@.len() <= a < b < out@.len() ==> pos_in(o, out@[a].hash_spec()) < pos_in(
                        o,
                        out@[b].hash_spec(),
                    ),
                forall|a: int, j: int|
                    old(out)@.len() <= a < out@.len() && i <= j < self@.len() ==> pos_in(
                        o,
                        out@[a].hash_spec(),
                    ) < pos_in(o, self@[j].hash_spec()),
                forall|a: int|
                    old(out)@.len() <= a < out@.len() ==> old(self)@.contains(#[trigger] out@[a]),
            decreases self@.len() - i,
        {
            if self.blocks[i].parent_hash() == *parent_hash {
                let ghost b0 = self@;
                let ghost o0 = out@;
                let x = self.blocks.remove(i);
                proof {
                    reveal(ordered_in);
                    lemma_remove_keeps(b0, i as int);
                }
                out.push(x);
                proof {
                    assert(out@.subrange(0, old(out)@.len() as int) =~= o0.subrange(
                        0,
                        old(out)@.len() as int,
                    ));
                    assert forall|a: int, b: int| 0 <= a < b < out@.len() implies out@[a].hash_spec()
                        != out@[b].hash_spec() by {
                        if b == out@.len() - 1 {
                            assert(out@[a] == o0[a]);
                        }
                    }
                    assert forall|a: int, b: int| 0 <= a < self@.len() && 0 <= b < out@.len()
                        implies self@[a].hash_spec() != out@[b].hash_spec() by {
                        let a0 = if a < i {
                            a
                        } else {
                            a + 1
                        };
                        assert(self@[a] == b0[a0]);
                        if b < out@.len() - 1 {
                            assert(out@[b] == o0[b]);
                        }
                    }
                    assert forall|j: int| 0 <= j < self@.len() implies old(self)@.contains(
                        #[trigger] self@[j],
                    ) by {
                        let j0 = if j < i {
                            j
                        } else {
                            j + 1
                        };
                        assert(self@[j] == b0[j0]);
                        assert(old(self)@.contains(b0[j0]));
                    }
                    assert forall|y: LonelyBlockWithCallback<C>|
                        b0.contains(y) || o0.contains(y) <==> self@.contains(y) || out@.contains(
                            y,
                        ) by {
                        if b0.contains(y) {
                            let j0 = choose|j: int| 0 <= j < b0.len() && b0[j] == y;
                            if j0 < i {
                                assert(self@[j0] == y);
                            } else if j0 > i {
                                assert(self@[j0 - 1] == y);
                            } else {
                                assert(out@[out@.len() - 1] == y);
                            }
                        }
                        if o0.contains(y) {
                            let j = choose|j: int| 0 <= j < o0.len() && o0[j] == y;
                            assert(out@[j] == y);
                        }
                        if self@.contains(y) {
                            let j = choose|j: int| 0 <= j < self@.len() && self@[j] == y;
                            let j0 = if j < i {
                                j
                            } else {
                                j + 1
                            };
                            assert(b0[j0] == y);
                        }
                        if out@.contains(y) {
                            let j = choose|j: int| 0 <= j < out@.len() && out@[j] == y;
                            if j < o0.len() {
                                assert(o0[j] == y);
                            } else {
                                assert(b0[i as int] == y);
                            }
                        }
                    }
                    assert forall|j: int| 0 <= j < i implies (#[trigger] self@[j]).parent_spec()
                        != *parent_hash by {
                        assert(self@[j] == b0[j]);
                    }
                    assert forall|a: int, c: int| 0 <= a < c < self@.len() implies pos_in(
                        o,
                        self@[a].hash_spec(),
                    ) < pos_in(o, self@[c].hash_spec()) by {
                        let a0 = if a < i { a } else { a + 1 };
                        let c0 = if c < i { c } else { c + 1 };
                        assert(self@[a] == b0[a0] && self@[c] == b0[c0]);
                    }
                    assert forall|a: int, c: int|
                        old(out)@.len() <= a < c < out@.len() implies pos_in(o, out@[a].hash_spec())
                        < pos_in(o, out@[c].hash_spec()) by {
                        if c == out@.len() - 1 {
                            assert(out@[c] == b0[i as int]);
                            assert(out@[a] == o0[a]);
                        } else {
                            assert(out@[a] == o0[a] && out@[c] == o0[c]);
                        }
                    }
                    assert forall|a: int, j: int|
                        old(out)@.len() <= a < out@.len() && i <= j < self@.len() implies pos_in(
                        o,
                        out@[a].hash_spec(),
                    ) < pos_in(o, self@[j].hash_spec()) by {
                        assert(self@[j] == b0[j + 1]);
                        if a == out@.len() - 1 {
                            assert(out@[a] == b0[i as int]);
                        } else {
                            assert(out@[a] == o0[a]);
                        }
                    }
                    assert forall|a: int|
                        old(out)@.len() <= a < out@.len() implies old(self)@.contains(#[trigger] out@[a]) by {
                        if a == out@.len() - 1 {
                            assert(out@[a] == b0[i as int]);
                            assert(old(self)@.contains(b0[i as int]));
                        } else {
                            assert(out@[a] == o0[a]);
                        }
                    }
                }
            } else {
                i = i + 1;
            }
        }
    }

    /// Takes out every buffered descendant of `parent_hash`, breadth first:
    /// parents before children, and the children of one parent in the order
    /// they arrived.
    #[verifier::spinoff_prover]
    #[verifier::rlimit(100)]
    pub fn remove_blocks_by_parent(&mut self, parent_hash: &Byte32) -> (r: Vec<
        LonelyBlockWithCallback<C>,
    >)
        requires
            old(self).wf(),
        ensures
            final(self).wf(),
            final(self).capacity_spec() == old(self).capacity_spec(),
            hashes_unique(r@),
            hashes_disjoint(final(self)@, r@),
            forall|x: LonelyBlockWithCallback<C>|
                #[trigger] old(self)@.contains(x) ==> final(self)@.contains(x) || r@.contains(x),
            forall|x: LonelyBlockWithCallback<C>|
                #[trigger] final(self)@.contains(x) ==> old(self)@.contains(x),
            forall|x: LonelyBlockWithCallback<C>| #[trigger] r@.contains(x) ==> old(self)@.contains(x),
            parents_first(r@, *parent_hash),
            breadth_first(r@, *parent_hash, old(self)@),
            forall|i: int|
                0 <= i < final(self)@.len() ==> (#[trigger] final(self)@[i]).parent_spec()
                    != *parent_hash && !has_hash(r@, final(self)@[i].parent_spec()),
    {
        let mut removed: Vec<LonelyBlockWithCallback<C>> = Vec::new();
        proof {
            lemma_ordered_self(self@);
        }
        self.take_children(parent_hash, &mut removed, Ghost(old(self)@));
        proof {
            reveal(breadth_first);
            reveal(generations_below);
            assert(removed@.subrange(0, 0) =~= Seq::<LonelyBlockWithCallback<C>>::empty());
        }
        let mut k: usize = 0;
        while k < removed.len()
            invariant
                self.capacity == old(self).capacity,
                k <= removed@.len(),
                hashes_unique(self@),
                hashes_unique(removed@),
                hashes_disjoint(self@, removed@),
                forall|x: LonelyBlockWithCallback<C>|
                    #[trigger] old(self)@.contains(x) ==> self@.contains(x) || removed@.contains(x),
                forall|x: LonelyBlockWithCallback<C>| #[trigger] self@.contains(x) ==> old(self)@.contains(x),
                forall|x: LonelyBlockWithCallback<C>| #[trigger] removed@.contains(x) ==> old(self)@.contains(x),
                parents_first(removed@, *parent_hash),
                forall|i: int|
                    0 <= i < self@.len() ==> (#[trigger] self@[i]).parent_spec() != *parent_hash
                        && forall|j: int| 0 <= j < k ==> removed@[j].hash_spec() != self@[i].parent_spec(),
                self@.len() + removed@.len() == old(self)@.len(),
                ordered_in(self@, old(self)@),
                breadth_first(removed@, *parent_hash, old(self)@),
                generations_below(removed@, *parent_hash, k as int),
            decreases self@.len() + removed@.len() - k,
        {
            let h = removed[k].hash();
            let ghost b0 = self@;
            let ghost r0 = removed@;
            self.take_children(&h, &mut removed, Ghost(old(self)@));
            proof {
                lemma_bfs_step(r0, removed@, b0, old(self)@, *parent_hash, k as int);
                assert forall|i: int| 0 <= i < removed@.len() implies (#[trigger] removed@[i]).parent_spec()
                    == *parent_hash || exists|j: int|
                    0 <= j < i && removed@[j].hash_spec() == removed@[i].parent_spec() by {
                    if i < r0.len() {
                        assert(removed@[i] == r0[i]);
                        if r0[i].parent_spec() != *parent_hash {
                            let j = choose|j: int| 0 <= j < i && r0[j].hash_spec() == r0[i].parent_spec();
                            assert(removed@[j] == r0[j]);
                        }
                    } else {
                        assert(removed@[k as int] == r0[k as int]);
                    }
                }
                assert forall|i: int| 0 <= i < self@.len() implies (#[trigger] self@[i]).parent_spec()
                    != *parent_hash && forall|j: int| 0 <= j < k + 1 ==> removed@[j].hash_spec() != self@[i].parent_spec() by {
                    assert(b0.contains(self@[i]));
                    let i0 = choose|i0: int| 0 <= i0 < b0.len() && b0[i0] == self@[i];
                    assert forall|j: int| 0 <= j < k + 1 implies removed@[j].hash_spec() != self@[i].parent_spec() by {
                        assert(removed@[j] == r0[j]);
                    }
                }
                assert forall|x: LonelyBlockWithCallback<C>|
                    old(self)@.contains(x) <==> self@.contains(x) || removed@.contains(x) by {
                    assert(old(self)@.contains(x) ==> b0.contains(x) || r0.contains(x));
                    assert(b0.contains(x) || r0.contains(x) <==> self@.contains(x)
                        || removed@.contains(x));
                }
            }
            k = k + 1;
        }
        proof {
            assert forall|i: int| 0 <= i < self@.len() implies (#[trigger] self@[i]).parent_spec()
                != *parent_hash && !has_hash(removed@, self@[i].parent_spec()) by {
                if has_hash(removed@, self@[i].parent_spec()) {
                    let j = choose|j: int| 0 <= j < removed@.len() && removed@[j].hash_spec() == self@[i].parent_spec();
                }
            }
        }
        removed
    }
}

} // verus!

verus! {

proof fn lemma_unique_counts<C>(s: Seq<LonelyBlockWithCallback<C>>)
    requires
        hashes_unique(s),
    ensures
        forall|x: LonelyBlockWithCallback<C>|
            #[trigger] s.to_multiset().count(x) == if s.contains(x) {
                1nat
            } else {
                0nat
            },
{
    broadcast use vstd::seq_lib::group_to_multiset_ensures;

    assert forall|i: int, j: int| 0 <= i < s.len() && 0 <= j < s.len() && i != j implies s[i]
        != s[j] by {
        if i < j {
            assert(s[i].hash_spec() != s[j].hash_spec());
        } else {
            assert(s[j].hash_spec() != s[i].hash_spec());
        }
    }
    assert(s.no_duplicates());
    s.lemma_multiset_has_no_duplicates();
    assert forall|x: LonelyBlockWithCallback<C>| #[trigger] s.to_multiset().count(x) == if s.contains(
        x,
    ) {
        1nat
    } else {
        0nat
    } by {
        if s.contains(x) {
            assert(s.to_multiset().contains(x));
        }
    }
}

/// Draining descendants accounts for every buffered block once: the blocks
/// kept and the blocks handed back are, counted with multiplicity, exactly
/// the blocks the pool held.
pub proof fn lemma_drain_accounts_once<C>(
    before: OrphanBlockPool<C>,
    after: OrphanBlockPool<C>,
    returned: Seq<LonelyBlockWithCallback<C>>,
)
    requires
        before.wf(),
        after.wf(),
        hashes_unique(returned),
        hashes_disjoint(after@, returned),
        forall|x: LonelyBlockWithCallback<C>|
            #[trigger] before@.contains(x) ==> after@.contains(x) || returned.contains(x),
        forall|x: LonelyBlockWithCallback<C>| #[trigger] after@.contains(x) ==> before@.contains(x),
        forall|x: LonelyBlockWithCallback<C>| #[trigger] returned.contains(x) ==> before@.contains(x),
    ensures
        before@.to_multiset() == after@.to_multiset().add(returned.to_multiset()),
{
    lemma_unique_counts(before@);
    lemma_unique_counts(after@);
    lemma_unique_counts(returned);
    assert forall|x: LonelyBlockWithCallback<C>| !(after@.contains(x) && returned.contains(x)) by {
        if after@.contains(x) && returned.contains(x) {
            let i = choose|i: int| 0 <= i < after@.len() && after@[i] == x;
            let j = choose|j: int| 0 <= j < returned.len() && returned[j] == x;
            assert(after@[i].hash_spec() != returned[j].hash_spec());
        }
    }
    assert(before@.to_multiset() =~= after@.to_multiset().add(returned.to_multiset()));
}

/// Inserting accounts for every block once: the blocks kept and the blocks
/// handed back are, counted with multiplicity, the blocks held before plus
/// the one inserted.
pub proof fn lemma_insert_accounts_once<C>(
    before: OrphanBlockPool<C>,
    lonely_block: LonelyBlockWithCallback<C>,
    after: OrphanBlockPool<C>,
    out: Seq<LonelyBlockWithCallback<C>>,
)
    requires
        before.wf(),
        has_hash(before@, lonely_block.hash_spec()) ==> after@ == before@ && out == seq![lonely_block],
        !has_hash(before@, lonely_block.hash_spec()) ==> {
            let s = before@.push(lonely_block);
            if s.len() > before.capacity_spec() {
                after@ == s.subrange(1, s.len() as int) && out == seq![s[0]]
            } else {
                after@ == s && out.len() == 0
            }
        },
    ensures
        before@.push(lonely_block).to_multiset() == after@.to_multiset().add(out.to_multiset()),
{
    broadcast use vstd::seq_lib::group_to_multiset_ensures;

    let s = before@.push(lonely_block);
    if has_hash(before@, lonely_block.hash_spec()) {
        vstd::seq_lib::lemma_multiset_commutative(before@, seq![lonely_block]);
        assert(before@ + seq![lonely_block] =~= s);
    } else if s.len() > before.capacity_spec() {
        vstd::seq_lib::lemma_multiset_commutative(seq![s[0]], s.subrange(1, s.len() as int));
        assert(seq![s[0]] + s.subrange(1, s.len() as int) =~= s);
        assert(after@.to_multiset().add(out.to_multiset()) =~= out.to_multiset().add(
            after@.to_multiset(),
        ));
    } else {
        assert(out =~= Seq::<LonelyBlockWithCallback<C>>::empty());
        assert(out.to_multiset() =~= vstd::multiset::Multiset::<LonelyBlockWithCallback<C>>::empty());
        assert(after@.to_multiset().add(out.to_multiset()) =~= after@.to_multiset());
    }
}

} // verus!
