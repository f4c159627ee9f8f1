use vstd::prelude::*;

use crate::codec::{
    decode_inner, encode_inner, join_view, lemma_decode_encode, split_view, HeaderIndexView,
    HeaderIndexViewInner,
};
use crate::keyed::{
    find_key, has_key, key_index, keys_unique, lemma_absent, lemma_index, lemma_push,
    lemma_remove, pairs_map,
};
use crate::shrink::shrink_to_fit;
use crate::types::Byte32;

verus! {

/// Size of one in-memory header-index record; the memory budget counts in these.
pub const ITEM_BYTES_SIZE: usize = 152;

/// Budgets under this many bytes make synchronisation slow.
pub const WARN_THRESHOLD: usize = 15_200_000;

/// Spare capacity, in records, that the hot tier keeps after a removal.
const SHRINK_THRESHOLD: usize = 300;

/// The hot tier: records in order of last use, least recently used first.
pub struct MemoryMap {
    entries: Vec<(Byte32, HeaderIndexViewInner)>,
}

impl View for MemoryMap {
    type V = Seq<(Byte32, HeaderIndexViewInner)>;

    closed spec fn view(&self) -> Seq<(Byte32, HeaderIndexViewInner)> {
        self.entries@
    }
}

impl MemoryMap {
    pub open spec fn wf(&self) -> bool {
        keys_unique(self@)
    }

    pub open spec fn map(&self) -> Map<Byte32, HeaderIndexViewInner> {
        pairs_map(self@)
    }

    pub fn new() -> (r: MemoryMap)
        ensures
            r.wf(),
            r@ == Seq::<(Byte32, HeaderIndexViewInner)>::empty(),
    {
        MemoryMap { entries: Vec::new() }
    }

    pub fn len(&self) -> (r: usize)
        ensures
            r == self@.len(),
    {
        self.entries.len()
    }

    pub fn contains_key(&self, key: &Byte32) -> (r: bool)
        requires
            self.wf(),
        ensures
            r == self.map().contains_key(*key),
    {
        match find_key(&self.entries, key) {
            Some(i) => {
                proof {
                    lemma_index(self@, i as int);
                }
                true
            },
            None => false,
        }
    }

    /// Looks a record up and makes it the most recently used one.
    pub fn get_refresh(&mut self, key: &Byte32) -> (r: Option<HeaderIndexView>)
        requires
            old(self).wf(),
        ensures
            final(self).wf(),
            final(self).map() == old(self).map(),
            final(self)@.len() == old(self)@.len(),
            match r {
                Some(v) => {
                    &&& old(self).map().contains_key(*key)
                    &&& v == join_view(*key, old(self).map()[*key])
                    &&& final(self)@.last() == (*key, old(self).map()[*key])
                },
                None => !old(self).map().contains_key(*key) && final(self)@ == old(self)@,
            },
    {
        match find_key(&self.entries, key) {
            Some(i) => {
                proof {
                    lemma_index(self@, i as int);
                    lemma_remove(self@, i as int);
                }
                let ghost before = self@;
                let (k, inner) = self.entries.remove(i);
                proof {
                    assert(!has_key(self@, k)) by {
                        if has_key(self@, k) {
                            assert(pairs_map(self@).contains_key(k));
                        }
                    }
                    lemma_push(self@, k, inner);
                    assert(pairs_map(before).remove(k).insert(k, inner) =~= pairs_map(before));
                }
                self.entries.push((k, inner));
                Some(HeaderIndexView::join(k, inner))
            },
            None => None,
        }
    }

    /// Stores a record as the most recently used one, replacing any record
    /// under the same hash.
    pub fn insert(&mut self, header: HeaderIndexView)
        requires
            old(self).wf(),
        ensures
            final(self).wf(),
            final(self).map() == old(self).map().insert(header.hash, split_view(header).1),
            final(self)@.last() == split_view(header),
    {
        let (key, value) = header.split();
        match find_key(&self.entries, &key) {
            Some(i) => {
                proof {
                    lemma_remove(self@, i as int);
                }
                let ghost before = self@;
                self.entries.remove(i);
                proof {
                    assert(!has_key(self@, key)) by {
                        if has_key(self@, key) {
                            assert(pairs_map(self@).contains_key(key));
                        }
                    }
                    lemma_push(self@, key, value);
                    assert(pairs_map(before).remove(key).insert(key, value) =~= pairs_map(
                        before,
                    ).insert(key, value));
                }
                self.entries.push((key, value));
            },
            None => {
                proof {
                    lemma_push(self@, key, value);
                }
                self.entries.push((key, value));
            },
        }
    }

    pub fn remove(&mut self, key: &Byte32) -> (r: Option<HeaderIndexView>)
        requires
            old(self).wf(),
        ensures
            final(self).wf(),
            final(self).map() == old(self).map().remove(*key),
            r == (if old(self).map().contains_key(*key) {
                Some(join_view(*key, old(self).map()[*key]))
            } else {
                None::<HeaderIndexView>
            }),
    {
        match find_key(&self.entries, key) {
            Some(i) => {
                proof {
                    lemma_index(self@, i as int);
                    lemma_remove(self@, i as int);
                }
                let (k, inner) = self.entries.remove(i);
                shrink_to_fit(&mut self.entries, SHRINK_THRESHOLD);
                Some(HeaderIndexView::join(k, inner))
            },
            None => {
                proof {
                    lemma_absent(self@, *key);
                    assert(pairs_map(self@).remove(*key) =~= pairs_map(self@));
                }
                None
            },
        }
    }

    /// The least recently used records beyond the first `size_limit`, if the
    /// tier holds more than `size_limit`.
    pub fn front_n(&self, size_limit: usize) -> (r: Option<Vec<HeaderIndexView>>)
        ensures
            match r {
                Some(v) => {
                    &&& self@.len() > size_limit
                    &&& v@.len() == self@.len() - size_limit
                    &&& forall|i: int|
                        0 <= i < v@.len() ==> #[trigger] v@[i] == join_view(
                            self@[i].0,
                            self@[i].1,
                        )
                },
                None => self@.len() <= size_limit,
            },
    {
        let size = self.entries.len();
        if size > size_limit {
            let num = size - size_limit;
            let mut out: Vec<HeaderIndexView> = Vec::new();
            let mut i: usize = 0;
            while i < num
                invariant
                    num <= self@.len(),
                    i <= num,
                    out@.len() == i,
                    forall|j: int|
                        0 <= j < i ==> #[trigger] out@[j] == join_view(self@[j].0, self@[j].1),
                decreases num - i,
            {
                let (k, inner) = self.entries[i];
                out.push(HeaderIndexView::join(k, inner));
                i = i + 1;
            }
            Some(out)
        } else {
            None
        }
    }

    /// Drops the `n` least recently used records.
    pub fn remove_front(&mut self, n: usize)
        requires
            old(self).wf(),
            n <= old(self)@.len(),
        ensures
            final(self).wf(),
            final(self)@ == old(self)@.subrange(n as int, old(self)@.len() as int),
    {
        let rest = self.entries.split_off(n);
        self.entries = rest;
        assert forall|i: int, j: int| 0 <= i < j < self@.len() implies self@[i].0 != self@[j].0 by {
            assert(self@[i] == old(self)@[i + n] && self@[j] == old(self)@[j + n]);
        }
    }

    pub fn remove_batch(&mut self, keys: &[Byte32])
        requires
            old(self).wf(),
        ensures
            final(self).wf(),
            final(self).map() == old(self).map().remove_keys(keys@.to_set()),
    {
        let mut i: usize = 0;
        while i < keys.len()
            invariant
                self.wf(),
                i <= keys@.len(),
                self.map() == old(self).map().remove_keys(keys@.subrange(0, i as int).to_set()),
            decreases keys@.len() - i,
        {
            self.remove(&keys[i]);
            proof {
                assert(keys@.subrange(0, i + 1) =~= keys@.subrange(0, i as int).push(keys@[i as int]));
                let sub = keys@.subrange(0, i as int);
                let x = keys@[i as int];
                assert forall|a: Byte32| #[trigger] sub.push(x).contains(a) == (sub.contains(a)
                    || a == x) by {
                    if sub.contains(a) {
                        let j = choose|j: int| 0 <= j < sub.len() && sub[j] == a;
                        assert(sub.push(x)[j] == a);
                    }
                    if a == x {
                        assert(sub.push(x)[i as int] == a);
                    }
                    if sub.push(x).contains(a) && a != x {
                        let j = choose|j: int| 0 <= j < sub.len() + 1 && sub.push(x)[j] == a;
                        assert(sub[j] == a);
                    }
                }
                assert(sub.push(x).to_set() =~= sub.to_set().insert(x));
                assert(self.map() =~= old(self).map().remove_keys(keys@.subrange(0, i + 1).to_set()));
            }
            i = i + 1;
        }
        assert(keys@.subrange(0, keys@.len() as int) =~= keys@);
        shrink_to_fit(&mut self.entries, SHRINK_THRESHOLD);
    }
}

/// The map that a batch of views adds to `m`, later views winning.
pub open spec fn insert_all(m: Map<Byte32, HeaderIndexView>, vs: Seq<HeaderIndexView>) -> Map<
    Byte32,
    HeaderIndexView,
>
    decreases vs.len(),
{
    if vs.len() == 0 {
        m
    } else {
        insert_all(m, vs.drop_last()).insert(vs.last().hash, vs.last())
    }
}

/// The cold tier: records kept in their encoded byte layout.
pub struct ColdStore {
    records: Vec<(Byte32, Vec<u8>)>,
}

pub open spec fn record_ok(b: Seq<u8>) -> bool {
    b.len() == 88 || b.len() == 120
}

impl ColdStore {
    pub closed spec fn records(&self) -> Seq<(Byte32, Vec<u8>)> {
        self.records@
    }

    pub closed spec fn wf(&self) -> bool {
        &&& keys_unique(self.records@)
        &&& forall|i: int| 0 <= i < self.records@.len() ==> record_ok(#[trigger] self.records@[i].1@)
    }

    /// The views that the stored records decode to.
    pub closed spec fn map(&self) -> Map<Byte32, HeaderIndexView> {
        Map::new(
            |k: Byte32| pairs_map(self.records@).contains_key(k),
            |k: Byte32| join_view(k, decode_inner(pairs_map(self.records@)[k]@)),
        )
    }

    pub fn new() -> (r: ColdStore)
        ensures
            r.wf(),
            r.map() == Map::<Byte32, HeaderIndexView>::empty(),
    {
        let r = ColdStore { records: Vec::new() };
        assert(r.map() =~= Map::<Byte32, HeaderIndexView>::empty());
        r
    }

    pub fn is_empty(&self) -> (r: bool)
        requires
            self.wf(),
        ensures
            r == (self.map() == Map::<Byte32, HeaderIndexView>::empty()),
    {
        if self.records.len() == 0 {
            assert(self.map() =~= Map::<Byte32, HeaderIndexView>::empty());
            true
        } else {
            proof {
                lemma_index(self.records@, 0);
                assert(self.map().contains_key(self.records@[0].0));
            }
            false
        }
    }

    pub fn contains_key(&self, key: &Byte32) -> (r: bool)
        requires
            self.wf(),
        ensures
            r == self.map().contains_key(*key),
    {
        match find_key(&self.records, key) {
            Some(i) => {
                proof {
                    lemma_index(self.records@, i as int);
                }
                true
            },
            None => false,
        }
    }

    pub fn get(&self, key: &Byte32) -> (r: Option<HeaderIndexView>)
        requires
            self.wf(),
        ensures
            r == (if self.map().contains_key(*key) {
                Some(self.map()[*key])
            } else {
                None::<HeaderIndexView>
            }),
    {
        match find_key(&self.records, key) {
            Some(i) => {
                proof {
                    lemma_index(self.records@, i as int);
                }
                let inner = HeaderIndexViewInner::from_slice_should_be_ok(
                    self.records[i].1.as_slice(),
                );
                Some(HeaderIndexView::join(*key, inner))
            },
            None => None,
        }
    }

    fn insert_one(&mut self, value: &HeaderIndexView)
        requires
            old(self).wf(),
        ensures
            final(self).wf(),
            final(self).map() == old(self).map().insert(value.hash, *value),
    {
        let (hash, inner) = value.split();
        let bytes = inner.to_vec();
        proof {
            lemma_decode_encode(inner);
        }
        let ghost m0 = self.map();
        match find_key(&self.records, &hash) {
            Some(i) => {
                proof {
                    lemma_remove(self.records@, i as int);
                }
                let ghost before = self.records@;
                self.records.remove(i);
                proof {
                    assert(!has_key(self.records@, hash)) by {
                        if has_key(self.records@, hash) {
                            assert(pairs_map(self.records@).contains_key(hash));
                        }
                    }
                    lemma_push(self.records@, hash, bytes);
                }
                self.records.push((hash, bytes));
                proof {
                    assert forall|j: int| 0 <= j < self.records@.len() implies record_ok(
                        #[trigger] self.records@[j].1@,
                    ) by {
                        if j < self.records@.len() - 1 {
                            let j0 = if j < i {
                                j
                            } else {
                                j + 1
                            };
                            assert(self.records@[j] == before[j0]);
                        }
                    }
                }
            },
            None => {
                proof {
                    lemma_push(self.records@, hash, bytes);
                }
                self.records.push((hash, bytes));
            },
        }
        assert(self.map() =~= m0.insert(value.hash, *value));
    }

    /// Stores a batch of views, each under its hash.
    pub fn insert(&mut self, values: &[HeaderIndexView])
        requires
            old(self).wf(),
        ensures
            final(self).wf(),
            final(self).map() == insert_all(old(self).map(), values@),
    {
        let mut i: usize = 0;
        while i < values.len()
            invariant
                self.wf(),
                i <= values@.len(),
                self.map() == insert_all(old(self).map(), values@.subrange(0, i as int)),
            decreases values@.len() - i,
        {
            self.insert_one(&values[i]);
            proof {
                assert(values@.subrange(0, i + 1).drop_last() =~= values@.subrange(0, i as int));
            }
            i = i + 1;
        }
        assert(values@.subrange(0, values@.len() as int) =~= values@);
    }

    pub fn remove(&mut self, key: &Byte32)
        requires
            old(self).wf(),
        ensures
            final(self).wf(),
            final(self).map() == old(self).map().remove(*key),
    {
        let ghost m0 = self.map();
        match find_key(&self.records, key) {
            Some(i) => {
                proof {
                    lemma_remove(self.records@, i as int);
                }
                let ghost before = self.records@;
                self.records.remove(i);
                proof {
                    assert forall|j: int| 0 <= j < self.records@.len() implies record_ok(
                        #[trigger] self.records@[j].1@,
                    ) by {
                        let j0 = if j < i {
                            j
                        } else {
                            j + 1
                        };
                        assert(self.records@[j] == before[j0]);
                    }
                }
            },
            None => {
                proof {
                    lemma_absent(self.records@, *key);
                }
            },
        }
        assert(self.map() =~= m0.remove(*key));
    }
}

} // verus!

verus! {

pub proof fn lemma_insert_all_contains(
    m: Map<Byte32, HeaderIndexView>,
    vs: Seq<HeaderIndexView>,
    k: Byte32,
)
    ensures
        insert_all(m, vs).contains_key(k) == (m.contains_key(k) || exists|i: int|
            0 <= i < vs.len() && vs[i].hash == k),
    decreases vs.len(),
{
    if vs.len() > 0 {
        let init = vs.drop_last();
        lemma_insert_all_contains(m, init, k);
        if exists|i: int| 0 <= i < vs.len() && vs[i].hash == k {
            let i = choose|i: int| 0 <= i < vs.len() && vs[i].hash == k;
            if i < vs.len() - 1 {
                assert(init[i] == vs[i]);
            }
        }
        if exists|i: int| 0 <= i < init.len() && init[i].hash == k {
            let i = choose|i: int| 0 <= i < init.len() && init[i].hash == k;
            assert(vs[i] == init[i]);
        }
    }
}

pub proof fn lemma_insert_all_untouched(
    m: Map<Byte32, HeaderIndexView>,
    vs: Seq<HeaderIndexView>,
    k: Byte32,
)
    requires
        forall|i: int| 0 <= i < vs.len() ==> vs[i].hash != k,
    ensures
        insert_all(m, vs).contains_key(k) == m.contains_key(k),
        insert_all(m, vs)[k] == m[k],
    decreases vs.len(),
{
    if vs.len() > 0 {
        let init = vs.drop_last();
        assert(vs[vs.len() - 1].hash != k);
        assert forall|i: int| 0 <= i < init.len() implies init[i].hash != k by {
            assert(init[i] == vs[i]);
        }
        lemma_insert_all_untouched(m, init, k);
    }
}

pub proof fn lemma_insert_all_last(m: Map<Byte32, HeaderIndexView>, vs: Seq<HeaderIndexView>, i: int)
    requires
        0 <= i < vs.len(),
        forall|j: int| i < j < vs.len() ==> vs[j].hash != vs[i].hash,
    ensures
        insert_all(m, vs).contains_key(vs[i].hash),
        insert_all(m, vs)[vs[i].hash] == vs[i],
    decreases vs.len(),
{
    let init = vs.drop_last();
    if i < vs.len() - 1 {
        assert(init[i] == vs[i]);
        assert forall|j: int| i < j < init.len() implies init[j].hash != init[i].hash by {
            assert(init[j] == vs[j]);
        }
        lemma_insert_all_last(m, init, i);
    }
}

/// Storage for the records that leave the hot tier, keyed by hash.
pub trait ColdTier {
    /// The views that the stored records stand for.
    open spec fn cold_map(&self) -> Map<Byte32, HeaderIndexView> {
        Map::empty()
    }

    open spec fn cold_wf(&self) -> bool {
        true
    }

    fn contains_key(&self, key: &Byte32) -> (r: bool)
        requires
            self.cold_wf(),
        ensures
            r == self.cold_map().contains_key(*key),
    ;

    fn get(&self, key: &Byte32) -> (r: Option<HeaderIndexView>)
        requires
            self.cold_wf(),
        ensures
            r == (if self.cold_map().contains_key(*key) {
                Some(self.cold_map()[*key])
            } else {
                None::<HeaderIndexView>
            }),
    ;

    fn insert(&mut self, values: &[HeaderIndexView])
        requires
            old(self).cold_wf(),
        ensures
            final(self).cold_wf(),
            final(self).cold_map() == insert_all(old(self).cold_map(), values@),
    ;

    fn remove(&mut self, key: &Byte32)
        requires
            old(self).cold_wf(),
        ensures
            final(self).cold_wf(),
            final(self).cold_map() == old(self).cold_map().remove(*key),
    ;
}

impl ColdTier for ColdStore {
    open spec fn cold_map(&self) -> Map<Byte32, HeaderIndexView> {
        self.map()
    }

    open spec fn cold_wf(&self) -> bool {
        self.wf()
    }

    fn contains_key(&self, key: &Byte32) -> (r: bool) {
        ColdStore::contains_key(self, key)
    }

    fn get(&self, key: &Byte32) -> (r: Option<HeaderIndexView>) {
        ColdStore::get(self, key)
    }

    fn insert(&mut self, values: &[HeaderIndexView]) {
        ColdStore::insert(self, values)
    }

    fn remove(&mut self, key: &Byte32) {
        ColdStore::remove(self, key)
    }
}

impl HeaderMap<ColdStore> {
    /// An index whose cold tier stays in memory and whose hot tier holds
    /// `memory_limit / 152` records.
    pub fn new(memory_limit: usize) -> (r: HeaderMap<ColdStore>)
        requires
            memory_limit >= ITEM_BYTES_SIZE,
        ensures
            r.wf(),
            r@ == Map::<Byte32, HeaderIndexView>::empty(),
            r.capacity() == memory_limit / ITEM_BYTES_SIZE,
            r.hot_len() == 0,
    {
        HeaderMap::with_backend(memory_limit, ColdStore::new())
    }

    /// Whether a memory budget is low enough to slow synchronisation down.
    pub fn is_low_memory_limit(memory_limit: usize) -> (r: bool)
        ensures
            r == (memory_limit < WARN_THRESHOLD),
    {
        memory_limit < WARN_THRESHOLD
    }
}

/// Index from block hash to header summary, in a bounded hot tier and an
/// unbounded cold tier of encoded records.
pub struct HeaderMap<B: ColdTier> {
    memory: MemoryMap,
    backend: B,
    size_limit: usize,
}

impl<B: ColdTier> View for HeaderMap<B> {
    type V = Map<Byte32, HeaderIndexView>;

    closed spec fn view(&self) -> Map<Byte32, HeaderIndexView> {
        Map::new(
            |k: Byte32| self.memory.map().contains_key(k) || self.backend.cold_map().contains_key(k),
            |k: Byte32|
                if self.memory.map().contains_key(k) {
                    join_view(k, self.memory.map()[k])
                } else {
                    self.backend.cold_map()[k]
                },
        )
    }
}

impl<B: ColdTier> HeaderMap<B> {
    pub closed spec fn wf(&self) -> bool {
        &&& self.memory.wf()
        &&& self.backend.cold_wf()
        &&& self.size_limit >= 1
        &&& forall|k: Byte32|
            !(#[trigger] self.memory.map().contains_key(k) && self.backend.cold_map().contains_key(k))
        &&& forall|k: Byte32| #[trigger]
            self.backend.cold_map().contains_key(k) ==> self.backend.cold_map()[k].hash == k
    }

    /// How many records the hot tier keeps after each trim.
    pub closed spec fn capacity(&self) -> nat {
        self.size_limit as nat
    }

    pub closed spec fn hot_len(&self) -> nat {
        self.memory@.len()
    }

    /// An index over an empty cold tier whose hot tier holds
    /// `memory_limit / 152` records.
    pub fn with_backend(memory_limit: usize, backend: B) -> (r: HeaderMap<B>)
        requires
            memory_limit >= ITEM_BYTES_SIZE,
            backend.cold_wf(),
            backend.cold_map() == Map::<Byte32, HeaderIndexView>::empty(),
        ensures
            r.wf(),
            r@ == Map::<Byte32, HeaderIndexView>::empty(),
            r.capacity() == memory_limit / ITEM_BYTES_SIZE,
            r.hot_len() == 0,
    {
        let r = HeaderMap { memory: MemoryMap::new(), backend, size_limit: memory_limit / ITEM_BYTES_SIZE };
        assert(r.memory.map() =~= Map::<Byte32, HeaderIndexViewInner>::empty());
        assert(r@ =~= Map::<Byte32, HeaderIndexView>::empty());
        r
    }

    pub fn size_limit(&self) -> (r: usize)
        ensures
            r == self.capacity(),
    {
        self.size_limit
    }

    pub fn memory_len(&self) -> (r: usize)
        ensures
            r == self.hot_len(),
    {
        self.memory.len()
    }

    pub fn contains_key(&self, hash: &Byte32) -> (r: bool)
        requires
            self.wf(),
        ensures
            r == self@.contains_key(*hash),
    {
        self.memory.contains_key(hash) || self.backend.contains_key(hash)
    }

    /// Looks a view up; a view found in the cold tier moves to the hot tier.
    pub fn get(&mut self, hash: &Byte32) -> (r: Option<HeaderIndexView>)
        requires
            old(self).wf(),
        ensures
            final(self).wf(),
            final(self)@ == old(self)@,
            final(self).capacity() == old(self).capacity(),
            r == (if old(self)@.contains_key(*hash) {
                Some(old(self)@[*hash])
            } else {
                None::<HeaderIndexView>
            }),
    {
        let ghost v0 = self@;
        if self.memory.contains_key(hash) {
            let r = self.memory.get_refresh(hash);
            assert(self@ =~= v0);
            return r;
        }
        match self.backend.get(hash) {
            Some(view) => {
                self.memory.insert(view);
                self.backend.remove(hash);
                assert(self@ =~= v0);
                Some(view)
            },
            None => None,
        }
    }

    /// Stores a view under its hash, replacing what was there.
    pub fn insert(&mut self, view: HeaderIndexView)
        requires
            old(self).wf(),
        ensures
            final(self).wf(),
            final(self)@ == old(self)@.insert(view.hash, view),
            final(self).capacity() == old(self).capacity(),
    {
        let ghost v0 = self@;
        let hash = view.hash();
        self.memory.insert(view);
        self.backend.remove(&hash);
        assert(self@ =~= v0.insert(view.hash, view));
    }

    pub fn remove(&mut self, hash: &Byte32)
        requires
            old(self).wf(),
        ensures
            final(self).wf(),
            final(self)@ == old(self)@.remove(*hash),
            final(self).capacity() == old(self).capacity(),
    {
        let ghost v0 = self@;
        self.memory.remove(hash);
        self.backend.remove(hash);
        assert(self@ =~= v0.remove(*hash));
    }

    /// Moves the least recently used views out of the hot tier until it holds
    /// at most `capacity()` of them; what the index holds does not change.
    pub fn limit_memory(&mut self)
        requires
            old(self).wf(),
        ensures
            final(self).wf(),
            final(self)@ == old(self)@,
            final(self).capacity() == old(self).capacity(),
            final(self).hot_len() <= final(self).capacity(),
    {
        let ghost v0 = self@;
        let ghost hot0 = self.memory@;
        let ghost cold0 = self.backend.cold_map();
        if let Some(values) = self.memory.front_n(self.size_limit) {
            let n = values.len();
            self.backend.insert(values.as_slice());
            self.memory.remove_front(n);
            proof {
                let hot1 = self.memory@;
                assert forall|k: Byte32| #[trigger]
                    self.memory.map().contains_key(k) == (exists|j: int|
                        n <= j < hot0.len() && hot0[j].0 == k) by {
                    if self.memory.map().contains_key(k) {
                        let a = choose|a: int| 0 <= a < hot1.len() && hot1[a].0 == k;
                        assert(hot0[a + n].0 == k);
                    }
                    if exists|j: int| n <= j < hot0.len() && hot0[j].0 == k {
                        let j = choose|j: int| n <= j < hot0.len() && hot0[j].0 == k;
                        assert(hot1[j - n].0 == k);
                    }
                }
                assert forall|k: Byte32| #[trigger] self@.contains_key(k) == v0.contains_key(k)
                    && (self@.contains_key(k) ==> self@[k] == v0[k] && !(
                    self.memory.map().contains_key(k) && self.backend.cold_map().contains_key(k)) && (
                    self.backend.cold_map().contains_key(k) ==> self.backend.cold_map()[k].hash == k)) by {
                    lemma_insert_all_contains(cold0, values@, k);
                    if exists|j: int| 0 <= j < hot0.len() && hot0[j].0 == k {
                        let j = choose|j: int| 0 <= j < hot0.len() && hot0[j].0 == k;
                        lemma_index(hot0, j);
                        assert(!cold0.contains_key(k));
                        if j < n {
                            assert(values@[j].hash == k);
                            assert forall|j2: int| j < j2 < values@.len() implies values@[j2].hash
                                != values@[j].hash by {
                                assert(hot0[j2].0 != hot0[j].0);
                            }
                            lemma_insert_all_last(cold0, values@, j);
                            assert forall|j2: int| n <= j2 < hot0.len() implies hot0[j2].0 != k by {
                                assert(hot0[j2].0 != hot0[j].0);
                            }
                        } else {
                            assert forall|j2: int| 0 <= j2 < values@.len() implies values@[j2].hash
                                != k by {
                                assert(hot0[j2].0 != hot0[j].0);
                            }
                            lemma_insert_all_untouched(cold0, values@, k);
                            let a = j - n;
                            assert(self.memory@[a] == hot0[j]);
                            lemma_index(self.memory@, a);
                        }
                    } else {
                        assert forall|j2: int| 0 <= j2 < values@.len() implies values@[j2].hash
                            != k by {
                            assert(values@[j2].hash == hot0[j2].0);
                        }
                        lemma_insert_all_untouched(cold0, values@, k);
                    }
                }
                assert forall|k: Byte32|
                    !(#[trigger] self.memory.map().contains_key(k) && self.backend.cold_map().contains_key(
                        k,
                    )) by {
                    assert(self@.contains_key(k) == v0.contains_key(k));
                }
                assert forall|k: Byte32| #[trigger]
                    self.backend.cold_map().contains_key(k) implies self.backend.cold_map()[k].hash == k by {
                    assert(self@.contains_key(k) == v0.contains_key(k));
                }
                assert(self@ =~= v0);
            }
        }
    }
}

} // verus!
