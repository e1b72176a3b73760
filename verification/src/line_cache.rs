//! A bounded cache of laid-out lines with least-recently-used eviction.
//!
//! Entries are keyed by a 64-bit hash of what determines a layout (the
//! line's text, and the styling the caller mixes in). The cache holds at
//! most `MAX_CACHE_ENTRIES` entries; inserting into a full cache first evicts
//! the least recently used ones. The layout type is a parameter, so the
//! cache itself knows nothing of fonts or painters.

use vstd::prelude::*;
use std::collections::{HashMap, VecDeque};
use std::hash::{DefaultHasher, Hash, Hasher};

verus! {

broadcast use vstd::std_specs::hash::group_hash_axioms, vstd::std_specs::vecdeque::group_vec_dequeue_axioms;

/// Maximum number of cached entries before LRU eviction kicks in.
pub const MAX_CACHE_ENTRIES: usize = 200;

/// The 64-bit hash that std's `DefaultHasher` gives a string.
pub uninterp spec fn content_hash(s: Seq<char>) -> u64;

/// Hashes a string to a `u64` with std's `DefaultHasher` (SipHash with
/// fixed keys, so the same text gives the same hash within one build of
/// std). The result is named `content_hash` of the text.
#[verifier::external_body]
pub fn hash_content(content: &str) -> (h: u64)
    ensures
        h == content_hash(content@),
{
    let mut hasher = DefaultHasher::new();
    content.hash(&mut hasher);
    hasher.finish()
}

/// A cache key: the hash of everything a layout depends on.
#[derive(Debug, Clone, Copy, PartialEq, Eq, Structural, Hash)]
pub struct CacheKey(pub u64);

impl CacheKey {
    /// The key made of a content hash alone.
    pub fn from_content_hash(content_hash: u64) -> (k: Self)
        ensures
            k.0 == content_hash,
    {
        CacheKey(content_hash)
    }
}

/// What `insert` evicts before adding: while the map holds
/// `MAX_CACHE_ENTRIES` or more entries, the oldest key in `order` goes; if
/// `order` runs out first, everything goes.
pub open spec fn evict<G>(m: Map<u64, G>, order: Seq<u64>) -> (Map<u64, G>, Seq<u64>)
    decreases order.len(),
{
    if m.len() < MAX_CACHE_ENTRIES {
        (m, order)
    } else if order.len() == 0 {
        (Map::empty(), order)
    } else {
        evict(m.remove(order[0]), order.drop_first())
    }
}

/// `order` without the first occurrence of `k`.
pub open spec fn without_first(order: Seq<u64>, k: u64) -> Seq<u64>
    decreases order.len(),
{
    if order.len() == 0 {
        order
    } else if order[0] == k {
        order.drop_first()
    } else {
        seq![order[0]] + without_first(order.drop_first(), k)
    }
}

/// Removing the first occurrence of `k`, found at `i`, is removing index `i`;
/// with no occurrence before `i` and `i` past the end, nothing is removed.
proof fn lemma_without_first(order: Seq<u64>, k: u64, i: int)
    requires
        0 <= i <= order.len(),
        forall|j: int| 0 <= j < i ==> order[j] != k,
        i < order.len() ==> order[i] == k,
    ensures
        i < order.len() ==> without_first(order, k) == order.remove(i),
        i == order.len() ==> without_first(order, k) == order,
    decreases i,
{
    if i > 0 {
        let d = order.drop_first();
        assert forall|j: int| 0 <= j < i - 1 implies d[j] != k by {
            assert(d[j] == order[j + 1]);
        }
        if i < order.len() {
            assert(d[i - 1] == order[i]);
        }
        lemma_without_first(d, k, i - 1);
        if i < order.len() {
            assert(seq![order[0]] + d.remove(i - 1) =~= order.remove(i));
        } else {
            assert(seq![order[0]] + d =~= order);
        }
    }
}

/// The order lists each cached key exactly once, and nothing else.
pub open spec fn order_matches<G>(m: Map<u64, G>, order: Seq<u64>) -> bool {
    &&& order.no_duplicates()
    &&& forall|k: u64| m.contains_key(k) <==> order.contains(k)
}

/// Eviction leaves fewer than `MAX_CACHE_ENTRIES` entries, keeps only
/// entries that were there, and keeps the order matching the map.
pub proof fn lemma_evict<G>(m: Map<u64, G>, order: Seq<u64>)
    requires
        m.dom().finite(),
    ensures
        evict(m, order).0.dom().finite(),
        evict(m, order).0.len() < MAX_CACHE_ENTRIES,
        evict(m, order).0.dom().subset_of(m.dom()),
        forall|k: u64| #[trigger] evict(m, order).0.contains_key(k) ==> evict(m, order).0[k] == m[k],
        order_matches(m, order) ==> order_matches(evict(m, order).0, evict(m, order).1),
    decreases order.len(),
{
    if m.len() >= MAX_CACHE_ENTRIES && order.len() > 0 {
        let m2 = m.remove(order[0]);
        let o2 = order.drop_first();
        lemma_evict(m2, o2);
        if order_matches(m, order) {
            assert forall|k: u64| m2.contains_key(k) <==> o2.contains(k) by {
                assert(m.contains_key(k) <==> order.contains(k));
                if o2.contains(k) {
                    let i = choose|i: int| 0 <= i < o2.len() && o2[i] == k;
                    assert(order[i + 1] == k);
                    assert(order[0] != order[i + 1]);
                    assert(order.contains(k));
                }
                if m2.contains_key(k) {
                    assert(m.contains_key(k));
                    assert(order.contains(k));
                    let i = choose|i: int| 0 <= i < order.len() && order[i] == k;
                    assert(i != 0);
                    assert(o2[i - 1] == k);
                }
            }
            assert(o2.no_duplicates()) by {
                assert forall|a: int, b: int| 0 <= a < o2.len() && 0 <= b < o2.len() && a != b implies o2[a]
                    != o2[b] by {
                    assert(o2[a] == order[a + 1] && o2[b] == order[b + 1]);
                }
            }
        }
    } else if m.len() >= MAX_CACHE_ENTRIES {
        assert(evict(m, order).0 =~= Map::<u64, G>::empty());
    }
}

/// A bounded LRU cache of layouts keyed by hash.
#[derive(Debug)]
pub struct LineCache<G> {
    cache: HashMap<u64, G>,
    lru_order: VecDeque<u64>,
}

impl<G> LineCache<G> {
    /// The cached layouts.
    pub closed spec fn entries(&self) -> Map<u64, G> {
        self.cache@
    }

    /// The cached keys from least to most recently used.
    pub closed spec fn order(&self) -> Seq<u64> {
        self.lru_order@
    }

    /// The order lists each cached key exactly once.
    pub open spec fn wf(&self) -> bool {
        order_matches(self.entries(), self.order())
    }

    /// An empty cache.
    pub fn new() -> (c: Self)
        ensures
            c.entries() == Map::<u64, G>::empty(),
            c.order() == Seq::<u64>::empty(),
            c.wf(),
    {
        LineCache {
            cache: HashMap::with_capacity(MAX_CACHE_ENTRIES),
            lru_order: VecDeque::with_capacity(MAX_CACHE_ENTRIES),
        }
    }

    /// The cached layout for a key, if any (the LRU order is not touched).
    pub fn get(&self, key: CacheKey) -> (r: Option<&G>)
        ensures
            match r {
                Some(g) => self.entries().contains_key(key.0) && *g == self.entries()[key.0],
                None => !self.entries().contains_key(key.0),
            },
    {
        self.cache.get(&key.0)
    }

    /// Whether a key is cached.
    pub fn contains(&self, key: CacheKey) -> (r: bool)
        ensures
            r == self.entries().contains_key(key.0),
    {
        self.cache.contains_key(&key.0)
    }

    /// Caches a layout under `key`; a full cache first evicts its least
    /// recently used entries. The key becomes the most recently used.
    pub fn insert(&mut self, key: CacheKey, galley: G)
        ensures
            final(self).entries() == evict(old(self).entries(), old(self).order()).0.insert(
                key.0,
                galley,
            ),
            final(self).order() == evict(old(self).entries(), old(self).order()).1.push(key.0),
    {
        let ghost m0 = self.cache@;
        let ghost o0 = self.lru_order@;
        while self.cache.len() >= MAX_CACHE_ENTRIES
            invariant
                evict(self.cache@, self.lru_order@) == evict(m0, o0),
            ensures
                evict(m0, o0) == (self.cache@, self.lru_order@),
            decreases self.lru_order@.len(),
        {
            let ghost before = self.lru_order@;
            match self.lru_order.pop_front() {
                Some(oldest_key) => {
                    proof {
                        assert(self.lru_order@ =~= before.drop_first());
                    }
                    self.cache.remove(&oldest_key);
                },
                None => {
                    self.cache.clear();
                    break;
                },
            }
        }
        self.cache.insert(key.0, galley);
        self.lru_order.push_back(key.0);
    }

    /// Marks a key as the most recently used: its first occurrence in the
    /// order is removed and it is appended at the back.
    pub fn update_lru_order(&mut self, key: CacheKey)
        ensures
            final(self).entries() == old(self).entries(),
            final(self).order() == without_first(old(self).order(), key.0).push(key.0),
    {
        let n = self.lru_order.len();
        let mut i: usize = 0;
        while i < n
            invariant
                n == self.lru_order@.len(),
                self.lru_order@ == old(self).lru_order@,
                self.cache@ == old(self).cache@,
                i <= n,
                forall|j: int| 0 <= j < i ==> self.lru_order@[j] != key.0,
            decreases n - i,
        {
            if self.lru_order[i] == key.0 {
                proof {
                    lemma_without_first(self.lru_order@, key.0, i as int);
                }
                let _ = self.lru_order.remove(i);
                self.lru_order.push_back(key.0);
                return;
            }
            i = i + 1;
        }
        proof {
            lemma_without_first(self.lru_order@, key.0, n as int);
        }
        self.lru_order.push_back(key.0);
    }

    /// Makes sure `key` is cached: on a hit the key becomes the most
    /// recently used; on a miss `make` lays the entry out and it is
    /// inserted (evicting as `insert` does). Returns whether it was a hit.
    pub fn ensure_cached<F: FnOnce() -> G>(&mut self, key: CacheKey, make: F) -> (hit: bool)
        requires
            make.requires(()),
        ensures
            hit == old(self).entries().contains_key(key.0),
            final(self).entries().contains_key(key.0),
            hit ==> final(self).entries() == old(self).entries() && final(self).order() == without_first(
                old(self).order(),
                key.0,
            ).push(key.0),
            !hit ==> exists|g: G|
                call_ensures(make, (), g) && #[trigger] final(self).entries() == evict(
                    old(self).entries(),
                    old(self).order(),
                ).0.insert(key.0, g) && final(self).order() == evict(old(self).entries(), old(self).order()).1.push(
                    key.0,
                ),
    {
        if self.contains(key) {
            self.update_lru_order(key);
            true
        } else {
            let galley = make();
            self.insert(key, galley);
            false
        }
    }

    /// Drops every cached entry.
    pub fn invalidate(&mut self)
        ensures
            final(self).entries() == Map::<u64, G>::empty(),
            final(self).order() == Seq::<u64>::empty(),
    {
        self.cache.clear();
        self.lru_order.clear();
    }

    /// Drops the entry of one key, wherever it is in the order.
    pub fn invalidate_key(&mut self, key: CacheKey)
        ensures
            final(self).entries() == old(self).entries().remove(key.0),
            final(self).order() == old(self).order().filter(|k: u64| k != key.0),
    {
        self.cache.remove(&key.0);
        let mut kept: VecDeque<u64> = VecDeque::new();
        let n = self.lru_order.len();
        let mut i: usize = 0;
        let ghost o = self.lru_order@;
        let ghost keep = |k: u64| k != key.0;
        proof {
            assert(o.take(0).filter(keep) =~= Seq::<u64>::empty());
        }
        while i < n
            invariant
                o == self.lru_order@,
                n == o.len(),
                i <= n,
                keep == (|k: u64| k != key.0),
                kept@ == o.take(i as int).filter(keep),
            decreases n - i,
        {
            let k = self.lru_order[i];
            proof {
                assert(o.take(i + 1).drop_last() =~= o.take(i as int));
                assert(o.take(i + 1).last() == k);
                o.take(i as int).lemma_filter_push(k, keep);
                assert(o.take(i as int).push(k) =~= o.take(i + 1));
            }
            if k != key.0 {
                kept.push_back(k);
            }
            i = i + 1;
        }
        proof {
            assert(o.take(n as int) =~= o);
        }
        self.lru_order = kept;
    }

    /// The number of cached entries.
    pub fn len(&self) -> (n: usize)
        ensures
            n == self.entries().len(),
    {
        self.cache.len()
    }

    /// Whether nothing is cached.
    pub fn is_empty(&self) -> (r: bool)
        ensures
            r == (self.entries().len() == 0),
    {
        self.cache.is_empty()
    }

    /// The most entries the cache holds.
    pub fn capacity() -> (n: usize)
        ensures
            n == MAX_CACHE_ENTRIES,
    {
        MAX_CACHE_ENTRIES
    }

    /// The cached keys from least to most recently used.
    pub fn lru_keys(&self) -> (r: &VecDeque<u64>)
        ensures
            r@ == self.order(),
    {
        &self.lru_order
    }
}

impl<G> Default for LineCache<G> {
    /// An empty cache.
    fn default() -> (c: Self)
        ensures
            c.entries() == Map::<u64, G>::empty(),
            c.order() == Seq::<u64>::empty(),
    {
        Self::new()
    }
}

/// Inserting never leaves more than `MAX_CACHE_ENTRIES` entries, the new
/// layout is what a lookup of its key then gives, and inserting a key that
/// is not cached keeps the order listing each cached key exactly once.
pub proof fn lemma_insert_bounded<G>(m: Map<u64, G>, order: Seq<u64>, key: u64, g: G)
    requires
        m.dom().finite(),
    ensures
        evict(m, order).0.insert(key, g).len() <= MAX_CACHE_ENTRIES,
        evict(m, order).0.insert(key, g)[key] == g,
        order_matches(m, order) && !m.contains_key(key) ==> order_matches(
            evict(m, order).0.insert(key, g),
            evict(m, order).1.push(key),
        ),
{
    lemma_evict(m, order);
    let e = evict(m, order);
    if order_matches(m, order) && !m.contains_key(key) {
        assert(!e.0.contains_key(key));
        assert(!e.1.contains(key));
        let o2 = e.1.push(key);
        assert forall|k: u64| e.0.insert(key, g).contains_key(k) <==> o2.contains(k) by {
            assert(e.0.contains_key(k) <==> e.1.contains(k));
            if o2.contains(k) && k != key {
                let i = choose|i: int| 0 <= i < o2.len() && o2[i] == k;
                assert(e.1[i] == k);
            }
            if e.0.contains_key(k) {
                let i = choose|i: int| 0 <= i < e.1.len() && e.1[i] == k;
                assert(o2[i] == k);
            }
            if k == key {
                assert(o2[o2.len() - 1] == key);
            }
        }
        assert(o2.no_duplicates()) by {
            assert forall|a: int, b: int| 0 <= a < o2.len() && 0 <= b < o2.len() && a != b implies o2[a]
                != o2[b] by {
                if a == o2.len() - 1 {
                    assert(e.1.contains(o2[b]));
                } else if b == o2.len() - 1 {
                    assert(e.1.contains(o2[a]));
                }
            }
        }
    }
}

} // verus!
