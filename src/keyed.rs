use vstd::prelude::*;

use crate::types::Byte32;

verus! {

/// No two pairs share a key.
pub open spec fn keys_unique<V>(s: Seq<(Byte32, V)>) -> bool {
    forall|i: int, j: int| 0 <= i < j < s.len() ==> s[i].0 != s[j].0
}

pub open spec fn has_key<V>(s: Seq<(Byte32, V)>, k: Byte32) -> bool {
    exists|i: int| 0 <= i < s.len() && s[i].0 == k
}

pub open spec fn key_index<V>(s: Seq<(Byte32, V)>, k: Byte32) -> int {
    choose|i: int| 0 <= i < s.len() && s[i].0 == k
}

/// The map that a sequence of pairs with unique keys stands for.
pub open spec fn pairs_map<V>(s: Seq<(Byte32, V)>) -> Map<Byte32, V> {
    Map::new(|k: Byte32| has_key(s, k), |k: Byte32| s[key_index(s, k)].1)
}

pub proof fn lemma_index<V>(s: Seq<(Byte32, V)>, i: int)
    requires
        keys_unique(s),
        0 <= i < s.len(),
    ensures
        has_key(s, s[i].0),
        key_index(s, s[i].0) == i,
        pairs_map(s).contains_key(s[i].0),
        pairs_map(s)[s[i].0] == s[i].1,
{
    assert(has_key(s, s[i].0));
}

pub proof fn lemma_push<V>(s: Seq<(Byte32, V)>, k: Byte32, v: V)
    requires
        keys_unique(s),
        !has_key(s, k),
    ensures
        keys_unique(s.push((k, v))),
        pairs_map(s.push((k, v))) == pairs_map(s).insert(k, v),
{
    let t = s.push((k, v));
    assert forall|i: int, j: int| 0 <= i < j < t.len() implies t[i].0 != t[j].0 by {
        if j == s.len() {
            assert(s[i].0 != k);
        }
    }
    assert forall|x: Byte32| #[trigger] has_key(t, x) == (has_key(s, x) || x == k) by {
        if has_key(s, x) {
            let i = choose|i: int| 0 <= i < s.len() && s[i].0 == x;
            assert(t[i].0 == x);
        }
        if x == k {
            assert(t[s.len() as int].0 == x);
        }
    }
    assert forall|x: Byte32| has_key(t, x) implies #[trigger] pairs_map(t)[x] == pairs_map(
        s,
    ).insert(k, v)[x] by {
        let i = key_index(t, x);
        lemma_index(t, i);
        if i < s.len() {
            lemma_index(s, i);
        }
    }
    assert(pairs_map(t) =~= pairs_map(s).insert(k, v));
}

pub proof fn lemma_remove<V>(s: Seq<(Byte32, V)>, i: int)
    requires
        keys_unique(s),
        0 <= i < s.len(),
    ensures
        keys_unique(s.remove(i)),
        pairs_map(s.remove(i)) == pairs_map(s).remove(s[i].0),
{
    let t = s.remove(i);
    let k = s[i].0;
    assert forall|a: int, b: int| 0 <= a < b < t.len() implies t[a].0 != t[b].0 by {
        let a0 = if a < i {
            a
        } else {
            a + 1
        };
        let b0 = if b < i {
            b
        } else {
            b + 1
        };
        assert(t[a] == s[a0] && t[b] == s[b0]);
    }
    assert forall|x: Byte32| #[trigger] has_key(t, x) == (has_key(s, x) && x != k) by {
        if has_key(t, x) {
            let a = choose|a: int| 0 <= a < t.len() && t[a].0 == x;
            let a0 = if a < i {
                a
            } else {
                a + 1
            };
            assert(s[a0].0 == x);
        }
        if has_key(s, x) && x != k {
            let a0 = choose|a: int| 0 <= a < s.len() && s[a].0 == x;
            let a = if a0 < i {
                a0
            } else {
                a0 - 1
            };
            assert(t[a].0 == x);
        }
    }
    assert forall|x: Byte32| has_key(t, x) implies #[trigger] pairs_map(t)[x] == pairs_map(
        s,
    ).remove(k)[x] by {
        let a = key_index(t, x);
        lemma_index(t, a);
        let a0 = if a < i {
            a
        } else {
            a + 1
        };
        assert(t[a] == s[a0]);
        lemma_index(s, a0);
    }
    assert(pairs_map(t) =~= pairs_map(s).remove(k));
}

pub proof fn lemma_absent<V>(s: Seq<(Byte32, V)>, k: Byte32)
    requires
        !has_key(s, k),
    ensures
        !pairs_map(s).contains_key(k),
{
}

/// Position of the pair with key `k`, if any.
pub fn find_key<V>(s: &Vec<(Byte32, V)>, k: &Byte32) -> (r: Option<usize>)
    ensures
        match r {
            Some(i) => i < s@.len() && s@[i as int].0 == *k,
            None => !has_key(s@, *k),
        },
{
    let mut i: usize = 0;
    while i < s.len()
        invariant
            i <= s@.len(),
            forall|j: int| 0 <= j < i ==> s@[j].0 != *k,
        decreases s@.len() - i,
    {
        if s[i].0 == *k {
            return Some(i);
        }
        i = i + 1;
    }
    None
}

} // verus!
