//! The bounded embedding cache: a least-recently-used cache from chunk keys
//! to processed chunks, holding at most 100 entries.  The cache itself is the
//! `lru` crate's `LruCache`, reached through trusted wrappers whose contracts
//! describe its contents as a map together with a recency order.

use vstd::prelude::*;

use crate::insights::ProcessedChunk;
use lru::LruCache;
use std::collections::hash_map::RandomState;
use std::num::NonZeroUsize;

verus! {

/// Most entries the embedding cache will hold at once.
pub const CACHE_CAPACITY: usize = 100;

#[verifier::external_type_specification]
#[verifier::external_body]
#[verifier::reject_recursive_types(K)]
#[verifier::reject_recursive_types(V)]
#[verifier::reject_recursive_types(S)]
pub struct ExLruCache<K, V, S>(LruCache<K, V, S>);

/// The keys of an `LruCache`, least-recently used first, most-recently used
/// last.
pub uninterp spec fn lru_order(c: LruCache<u64, ProcessedChunk, RandomState>) -> Seq<u64>;

/// The entries of an `LruCache`.
pub uninterp spec fn lru_map(c: LruCache<u64, ProcessedChunk, RandomState>) -> Map<u64, ProcessedChunk>;

/// The capacity the `LruCache` was created with.
pub uninterp spec fn lru_cap(c: LruCache<u64, ProcessedChunk, RandomState>) -> int;

/// The recency order lists each key once, lists exactly the stored keys, and
/// never exceeds the capacity.
pub open spec fn lru_wf(c: LruCache<u64, ProcessedChunk, RandomState>) -> bool {
    &&& lru_order(c).no_duplicates()
    &&& lru_map(c).dom() == lru_order(c).to_set()
    &&& lru_order(c).len() <= lru_cap(c)
    &&& lru_cap(c) >= 1
}

/// The empty cache contents.
pub open spec fn empty_cache_map() -> Map<u64, ProcessedChunk> {
    Map::empty()
}

/// The recency order with one key taken out.
pub open spec fn without_key(order: Seq<u64>, k: u64) -> Seq<u64> {
    order.filter(|x: u64| x != k)
}

/// Relies on `lru::LruCache::with_hasher`: creates an empty cache that holds
/// at most `cap` items.
#[verifier::external_body]
fn lru_new(cap: usize) -> (r: LruCache<u64, ProcessedChunk, RandomState>)
    requires
        cap >= 1,
    ensures
        lru_order(r) == Seq::<u64>::empty(),
        lru_map(r) == empty_cache_map(),
        lru_cap(r) == cap as int,
        lru_wf(r),
{
    LruCache::with_hasher(NonZeroUsize::new(cap).unwrap(), RandomState::new())
}

/// Relies on `lru::LruCache::put`: stores `v` under `k` as the
/// most-recently-used entry.  An existing entry under `k` is replaced and
/// its value returned; otherwise, when the cache is full, the
/// least-recently-used entry is evicted and `None` is returned.
#[verifier::external_body]
fn lru_put(c: &mut LruCache<u64, ProcessedChunk, RandomState>, k: u64, v: ProcessedChunk) -> (r: Option<
    ProcessedChunk,
>)
    requires
        lru_wf(*old(c)),
    ensures
        lru_wf(*final(c)),
        lru_cap(*final(c)) == lru_cap(*old(c)),
        if lru_map(*old(c)).dom().contains(k) {
            &&& r == Some(lru_map(*old(c))[k])
            &&& lru_map(*final(c)) == lru_map(*old(c)).insert(k, v)
            &&& lru_order(*final(c)) == without_key(lru_order(*old(c)), k).push(k)
        } else if lru_order(*old(c)).len() < lru_cap(*old(c)) {
            &&& r is None
            &&& lru_map(*final(c)) == lru_map(*old(c)).insert(k, v)
            &&& lru_order(*final(c)) == lru_order(*old(c)).push(k)
        } else {
            &&& r is None
            &&& lru_order(*old(c)).len() > 0
            &&& lru_map(*final(c)) == lru_map(*old(c)).remove(lru_order(*old(c))[0]).insert(k, v)
            &&& lru_order(*final(c)) == lru_order(*old(c)).drop_first().push(k)
        },
{
    c.put(k, v)
}

/// Relies on `lru::LruCache::get`: returns a copy of the entry under `k`,
/// making it the most-recently-used one, or `None` and no change when there
/// is none.
#[verifier::external_body]
fn lru_get(c: &mut LruCache<u64, ProcessedChunk, RandomState>, k: u64) -> (r: Option<ProcessedChunk>)
    requires
        lru_wf(*old(c)),
    ensures
        lru_wf(*final(c)),
        lru_cap(*final(c)) == lru_cap(*old(c)),
        lru_map(*final(c)) == lru_map(*old(c)),
        if lru_map(*old(c)).dom().contains(k) {
            &&& match r {
                Some(v) => v@ == lru_map(*old(c))[k]@,
                None => false,
            }
            &&& lru_order(*final(c)) == without_key(lru_order(*old(c)), k).push(k)
        } else {
            &&& r is None
            &&& lru_order(*final(c)) == lru_order(*old(c))
        },
{
    c.get(&k).cloned()
}

/// Relies on `lru::LruCache::len`: the number of stored entries.
#[verifier::external_body]
fn lru_len(c: &LruCache<u64, ProcessedChunk, RandomState>) -> (r: usize)
    ensures
        r == lru_order(*c).len(),
{
    c.len()
}

/// Relies on `lru::LruCache::contains`: whether an entry is stored under
/// `k`; the recency order is not touched.
#[verifier::external_body]
fn lru_contains(c: &LruCache<u64, ProcessedChunk, RandomState>, k: u64) -> (r: bool)
    ensures
        r == lru_map(*c).dom().contains(k),
{
    c.contains(&k)
}

/// The bounded least-recently-used cache mapping a chunk key to the chunk's
/// last-computed embedding and insights.
pub struct EmbeddingCache {
    inner: LruCache<u64, ProcessedChunk, RandomState>,
}

impl EmbeddingCache {
    /// The stored entries.
    pub closed spec fn entries(&self) -> Map<u64, ProcessedChunk> {
        lru_map(self.inner)
    }

    /// The stored keys, least-recently used first.
    pub closed spec fn order(&self) -> Seq<u64> {
        lru_order(self.inner)
    }

    /// Well-formed: the recency order matches the entries, and the cache
    /// holds at most `CACHE_CAPACITY` entries.
    pub closed spec fn wf(&self) -> bool {
        lru_wf(self.inner) && lru_cap(self.inner) == CACHE_CAPACITY as int
    }

    /// Creates an empty cache with capacity `CACHE_CAPACITY`.
    pub fn new() -> (r: Self)
        ensures
            r.wf(),
            r.entries() == Map::<u64, ProcessedChunk>::empty(),
            r.order() == Seq::<u64>::empty(),
    {
        EmbeddingCache { inner: lru_new(CACHE_CAPACITY) }
    }

    /// Number of stored entries; never more than `CACHE_CAPACITY`.
    pub fn len(&self) -> (r: usize)
        requires
            self.wf(),
        ensures
            r == self.order().len(),
            r <= CACHE_CAPACITY,
    {
        lru_len(&self.inner)
    }

    /// Whether an entry is stored under `key`, without touching recency.
    pub fn contains(&self, key: u64) -> (r: bool)
        requires
            self.wf(),
        ensures
            r == self.entries().dom().contains(key),
    {
        lru_contains(&self.inner, key)
    }

    /// Stores `value` under `key` as the most-recently-used entry.  A
    /// previous entry under `key` is replaced; otherwise, at capacity, the
    /// least-recently-used entry — the front of the order — is evicted and
    /// nothing else changes: inserting a fresh key into a full cache evicts
    /// exactly one entry, the least recently touched.
    pub fn insert(&mut self, key: u64, value: ProcessedChunk)
        requires
            old(self).wf(),
        ensures
            final(self).wf(),
            final(self).order().len() <= CACHE_CAPACITY,
            final(self).entries().dom().contains(key),
            final(self).entries()[key] == value,
            if old(self).entries().dom().contains(key) {
                &&& final(self).entries() == old(self).entries().insert(key, value)
                &&& final(self).order() == without_key(old(self).order(), key).push(key)
            } else if old(self).order().len() < CACHE_CAPACITY {
                &&& final(self).entries() == old(self).entries().insert(key, value)
                &&& final(self).order() == old(self).order().push(key)
            } else {
                &&& old(self).order().len() > 0
                &&& final(self).entries() == old(self).entries().remove(
                    old(self).order()[0],
                ).insert(key, value)
                &&& final(self).order() == old(self).order().drop_first().push(key)
            },
    {
        let _ = lru_put(&mut self.inner, key, value);
    }

    /// Returns a copy of the entry under `key`, making it the
    /// most-recently-used one; the stored entries do not change.
    pub fn lookup(&mut self, key: u64) -> (r: Option<ProcessedChunk>)
        requires
            old(self).wf(),
        ensures
            final(self).wf(),
            final(self).entries() == old(self).entries(),
            match r {
                Some(v) => old(self).entries().dom().contains(key) && v@ == old(self).entries()[key]@,
                None => !old(self).entries().dom().contains(key),
            },
    {
        lru_get(&mut self.inner, key)
    }
}

/// A well-formed cache never holds more than `CACHE_CAPACITY` entries.
pub proof fn lemma_cache_bounded(c: &EmbeddingCache)
    requires
        c.wf(),
    ensures
        c.entries().dom().len() <= CACHE_CAPACITY,
{
    c.order().unique_seq_to_set();
}

/// The key under which a chunk is cached: page and index packed into one
/// integer.  Distinct page/index pairs give distinct keys.
pub fn chunk_key(page: usize, chunk_index: usize) -> (r: u64)
    requires
        page < 0x1_0000_0000,
        chunk_index < 0x1_0000_0000,
    ensures
        r == page * 0x1_0000_0000 + chunk_index,
{
    (page as u64) * 0x1_0000_0000u64 + (chunk_index as u64)
}

/// Packing page and chunk index into a key is injective.
pub proof fn lemma_chunk_key_injective(p1: int, c1: int, p2: int, c2: int)
    requires
        0 <= p1 < 0x1_0000_0000,
        0 <= c1 < 0x1_0000_0000,
        0 <= p2 < 0x1_0000_0000,
        0 <= c2 < 0x1_0000_0000,
        p1 * 0x1_0000_0000 + c1 == p2 * 0x1_0000_0000 + c2,
    ensures
        p1 == p2 && c1 == c2,
{
    assert(p1 == p2 && c1 == c2) by (nonlinear_arith)
        requires
            0 <= p1 < 0x1_0000_0000 && 0 <= c1 < 0x1_0000_0000 && 0 <= p2 < 0x1_0000_0000 && 0 <= c2
                < 0x1_0000_0000 && p1 * 0x1_0000_0000 + c1 == p2 * 0x1_0000_0000 + c2,
    ;
}

} // verus!
