//! A set of content hashes: the groups the user has picked out.

use crate::order::{
    key_less, key_less_asymmetric, key_less_irreflexive, key_less_total, key_less_transitive,
    smaller_at,
};
use vstd::prelude::*;

verus! {

/// The sort key of a hash: its bytes.
pub open spec fn hash_key(hash: [u8; 32]) -> Seq<u64> {
    Seq::new(32, |i: int| hash@[i] as u64)
}

/// Different hashes have different keys.
pub proof fn hash_key_tells_apart(a: [u8; 32], b: [u8; 32])
    requires
        hash_key(a) == hash_key(b),
    ensures
        a == b,
{
    assert forall|i: int| 0 <= i < 32 implies a@[i] == b@[i] by {
        assert(hash_key(a)[i] == a@[i] as u64);
        assert(hash_key(b)[i] == b@[i] as u64);
    }
    assert(a@ =~= b@);
    assert(a =~= b);
}

/// The sort key of a hash.
pub fn hash_key_of(hash: &[u8; 32]) -> (key: Vec<u64>)
    ensures
        key@ == hash_key(*hash),
{
    let mut key: Vec<u64> = Vec::new();
    while key.len() < 32
        invariant
            key@.len() <= 32,
            forall|i: int| 0 <= i < key@.len() ==> #[trigger] key@[i] == hash@[i] as u64,
        decreases 32 - key@.len(),
    {
        let byte: u8 = hash[key.len()];
        key.push(byte as u64);
    }
    assert(key@ =~= hash_key(*hash));
    key
}

/// Whether two hashes are the same.
pub fn same_hash(a: &[u8; 32], b: &[u8; 32]) -> (same: bool)
    ensures
        same == (*a == *b),
{
    let mut i: usize = 0;
    while i < 32
        invariant
            i <= 32,
            forall|j: int| 0 <= j < i ==> a@[j] == b@[j],
        decreases 32 - i,
    {
        if a[i] != b[i] {
            assert(a@[i as int] != b@[i as int]);
            return false;
        }
        i += 1;
    }
    assert(a@ =~= b@);
    assert(*a =~= *b);
    true
}

/// Whether hash `a` is listed before hash `b`.
pub fn hash_less(a: &[u8; 32], b: &[u8; 32]) -> (less: bool)
    ensures
        less == key_less(hash_key(*a), hash_key(*b)),
{
    let ghost x = hash_key(*a);
    let ghost y = hash_key(*b);
    let mut i: usize = 0;
    while i < 32 && a[i] == b[i]
        invariant
            i <= 32,
            x == hash_key(*a),
            y == hash_key(*b),
            forall|j: int| 0 <= j < i ==> #[trigger] x[j] == y[j],
        decreases 32 - i,
    {
        i += 1;
    }
    if i < 32 && a[i] < b[i] {
        assert(smaller_at(x, y, i as int));
        return true;
    }
    proof {
        if i == 32 {
            assert(x =~= y);
            key_less_irreflexive(x);
        } else {
            assert forall|j: int| 0 <= j < i implies #[trigger] y[j] == x[j] by {
                assert(x[j] == y[j]);
            }
            assert(smaller_at(y, x, i as int));
            key_less_asymmetric(y, x);
        }
    }
    false
}

/// A set of content hashes.
#[derive(Debug)]
pub struct Selection {
    /// The hashes in ascending order.
    pub items: Vec<[u8; 32]>,
}

impl View for Selection {
    type V = Set<[u8; 32]>;

    open spec fn view(&self) -> Set<[u8; 32]> {
        self.items@.to_set()
    }
}

impl Selection {
    /// The hashes stand in ascending order, each once.
    pub open spec fn wf(self) -> bool {
        forall|i: int, j: int|
            0 <= i < j < self.items@.len() ==> key_less(
                hash_key(#[trigger] self.items@[i]),
                hash_key(#[trigger] self.items@[j]),
            )
    }

    /// The empty set.
    pub fn new() -> (s: Self)
        ensures
            s.wf(),
            s@ == Set::<[u8; 32]>::empty(),
    {
        let s = Selection { items: Vec::new() };
        assert(s@ =~= Set::<[u8; 32]>::empty());
        s
    }

    /// How many of the hashes come before `hash`, and whether it is there.
    fn find(&self, hash: &[u8; 32]) -> (r: (usize, bool))
        requires
            self.wf(),
        ensures
            r.0 <= self.items@.len(),
            forall|i: int|
                0 <= i < r.0 ==> key_less(hash_key(#[trigger] self.items@[i]), hash_key(*hash)),
            r.1 ==> r.0 < self.items@.len() && self.items@[r.0 as int] == *hash,
            !r.1 ==> forall|i: int|
                r.0 <= i < self.items@.len() ==> key_less(
                    hash_key(*hash),
                    hash_key(#[trigger] self.items@[i]),
                ),
            r.1 == self@.contains(*hash),
    {
        let mut lo: usize = 0;
        let mut hi: usize = self.items.len();
        while lo < hi
            invariant
                self.wf(),
                lo <= hi <= self.items@.len(),
                forall|i: int|
                    0 <= i < lo ==> key_less(hash_key(#[trigger] self.items@[i]), hash_key(*hash)),
                forall|i: int|
                    hi <= i < self.items@.len() ==> !key_less(
                        hash_key(#[trigger] self.items@[i]),
                        hash_key(*hash),
                    ),
            decreases hi - lo,
        {
            let mid: usize = lo + (hi - lo) / 2;
            if hash_less(&self.items[mid], hash) {
                proof {
                    assert forall|i: int| 0 <= i < mid + 1 implies key_less(
                        hash_key(#[trigger] self.items@[i]),
                        hash_key(*hash),
                    ) by {
                        if lo <= i < mid {
                            key_less_transitive(
                                hash_key(self.items@[i]),
                                hash_key(self.items@[mid as int]),
                                hash_key(*hash),
                            );
                        }
                    }
                }
                lo = mid + 1;
            } else {
                proof {
                    assert forall|i: int| mid <= i < self.items@.len() implies !key_less(
                        hash_key(#[trigger] self.items@[i]),
                        hash_key(*hash),
                    ) by {
                        if mid < i < hi && key_less(hash_key(self.items@[i]), hash_key(*hash)) {
                            key_less_transitive(
                                hash_key(self.items@[mid as int]),
                                hash_key(self.items@[i]),
                                hash_key(*hash),
                            );
                        }
                    }
                }
                hi = mid;
            }
        }
        let found: bool = lo < self.items.len() && same_hash(&self.items[lo], hash);
        proof {
            if found {
                assert(self.items@.contains(*hash));
            } else {
                assert forall|i: int| lo <= i < self.items@.len() implies key_less(
                    hash_key(*hash),
                    hash_key(#[trigger] self.items@[i]),
                ) by {
                    let first = self.items@[lo as int];
                    key_less_total(hash_key(*hash), hash_key(first));
                    if hash_key(*hash) == hash_key(first) {
                        hash_key_tells_apart(*hash, first);
                    }
                    if lo < i {
                        key_less_transitive(
                            hash_key(*hash),
                            hash_key(first),
                            hash_key(self.items@[i]),
                        );
                    }
                }
                if self.items@.contains(*hash) {
                    let i = choose|i: int| 0 <= i < self.items@.len() && self.items@[i] == *hash;
                    key_less_irreflexive(hash_key(*hash));
                    assert(hash_key(self.items@[i]) == hash_key(*hash));
                }
            }
        }
        (lo, found)
    }

    /// Whether the hash is in the set.
    pub fn contains(&self, hash: &[u8; 32]) -> (b: bool)
        requires
            self.wf(),
        ensures
            b == self@.contains(*hash),
    {
        self.find(hash).1
    }

    /// How many hashes there are.
    pub fn len(&self) -> (n: usize)
        requires
            self.wf(),
        ensures
            n == self@.len(),
    {
        proof {
            assert(self.items@.no_duplicates()) by {
                assert forall|i: int, j: int|
                    0 <= i < self.items@.len() && 0 <= j < self.items@.len() && i != j implies
                    self.items@[i] != self.items@[j] by {
                    key_less_irreflexive(hash_key(self.items@[i]));
                    key_less_irreflexive(hash_key(self.items@[j]));
                }
            }
            self.items@.unique_seq_to_set();
        }
        self.items.len()
    }

    /// Whether nothing is in the set.
    pub fn is_empty(&self) -> (b: bool)
        ensures
            b == (self@ == Set::<[u8; 32]>::empty()),
            b == (self.items@.len() == 0),
    {
        let b: bool = self.items.len() == 0;
        proof {
            if b {
                assert(self@ =~= Set::<[u8; 32]>::empty());
            } else {
                assert(self.items@.contains(self.items@[0]));
                assert(self@.contains(self.items@[0]));
            }
        }
        b
    }

    /// Put the hash in.
    pub fn insert(&mut self, hash: [u8; 32])
        requires
            old(self).wf(),
        ensures
            final(self).wf(),
            final(self)@ == old(self)@.insert(hash),
    {
        let (at, found): (usize, bool) = self.find(&hash);
        if found {
            assert(self@ =~= self@.insert(hash));
            return;
        }
        let ghost before = self.items@;
        self.items.insert(at, hash);
        proof {
            let after = self.items@;
            assert(after =~= before.insert(at as int, hash));
            assert forall|i: int, j: int| 0 <= i < j < after.len() implies key_less(
                hash_key(#[trigger] after[i]),
                hash_key(#[trigger] after[j]),
            ) by {
                if i < at && j > at {
                    assert(after[i] == before[i] && after[j] == before[j - 1]);
                } else if j < at {
                    assert(after[i] == before[i] && after[j] == before[j]);
                } else if i > at {
                    assert(after[i] == before[i - 1] && after[j] == before[j - 1]);
                } else if i == at {
                    assert(after[j] == before[j - 1]);
                }
            }
            assert forall|h: [u8; 32]| after.to_set().contains(h) <==> before.to_set().insert(
                hash,
            ).contains(h) by {
                if after.contains(h) {
                    let i = choose|i: int| 0 <= i < after.len() && after[i] == h;
                    if i < at {
                        assert(before[i] == h);
                    } else if i > at {
                        assert(before[i - 1] == h);
                    }
                }
                if before.contains(h) {
                    let i = choose|i: int| 0 <= i < before.len() && before[i] == h;
                    if i < at {
                        assert(after[i] == h);
                    } else {
                        assert(after[i + 1] == h);
                    }
                }
                if h == hash {
                    assert(after[at as int] == h);
                }
            }
            assert(after.to_set() =~= before.to_set().insert(hash));
        }
    }

    /// Take the hash out, and tell whether it was in.
    pub fn remove(&mut self, hash: &[u8; 32]) -> (found: bool)
        requires
            old(self).wf(),
        ensures
            final(self).wf(),
            found == old(self)@.contains(*hash),
            final(self)@ == old(self)@.remove(*hash),
    {
        let (at, found): (usize, bool) = self.find(hash);
        if !found {
            assert(self@ =~= self@.remove(*hash));
            return false;
        }
        let ghost before = self.items@;
        let _ = self.items.remove(at);
        proof {
            let after = self.items@;
            assert(after =~= before.remove(at as int));
            assert forall|i: int, j: int| 0 <= i < j < after.len() implies key_less(
                hash_key(#[trigger] after[i]),
                hash_key(#[trigger] after[j]),
            ) by {
                let x = if i < at {
                    i
                } else {
                    i + 1
                };
                let y = if j < at {
                    j
                } else {
                    j + 1
                };
                assert(after[i] == before[x] && after[j] == before[y]);
            }
            assert forall|h: [u8; 32]| after.to_set().contains(h) <==> before.to_set().remove(
                *hash,
            ).contains(h) by {
                if after.contains(h) {
                    let i = choose|i: int| 0 <= i < after.len() && after[i] == h;
                    let x = if i < at {
                        i
                    } else {
                        i + 1
                    };
                    assert(before[x] == h);
                    key_less_irreflexive(hash_key(h));
                    if h == *hash {
                        assert(before[at as int] == h);
                    }
                }
                if before.contains(h) && h != *hash {
                    let i = choose|i: int| 0 <= i < before.len() && before[i] == h;
                    if i < at {
                        assert(after[i] == h);
                    } else {
                        assert(i != at);
                        assert(after[i - 1] == h);
                    }
                }
            }
            assert(after.to_set() =~= before.to_set().remove(*hash));
        }
        true
    }

    /// Take everything out.
    pub fn clear(&mut self)
        ensures
            final(self).wf(),
            final(self)@ == Set::<[u8; 32]>::empty(),
            final(self).items@.len() == 0,
    {
        self.items.clear();
        assert(self@ =~= Set::<[u8; 32]>::empty());
    }
}

impl Clone for Selection {
    fn clone(&self) -> (r: Self)
        ensures
            r.items@ == self.items@,
    {
        let mut items: Vec<[u8; 32]> = Vec::new();
        let mut i: usize = 0;
        while i < self.items.len()
            invariant
                i <= self.items@.len(),
                items@ == self.items@.take(i as int),
            decreases self.items@.len() - i,
        {
            items.push(self.items[i]);
            i += 1;
        }
        assert(items@ =~= self.items@);
        Selection { items }
    }
}

} // verus!
