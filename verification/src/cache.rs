//! The in-memory chunk cache: a weight-bounded map from chunk id to bytes.

use vstd::prelude::*;
use vstd::string::*;
use crate::errors::{SyncError, SyncErrorView};

verus! {

/// Largest weight a cache entry can carry.
pub const MAX_ENTRY_WEIGHT: u32 = 2147483647;

/// The weight of a cache entry holding `len` bytes: the length, but at least
/// one and at most `MAX_ENTRY_WEIGHT`.
pub open spec fn weight_of(len: nat) -> int {
    if len < 1 {
        1
    } else if len > MAX_ENTRY_WEIGHT {
        MAX_ENTRY_WEIGHT as int
    } else {
        len as int
    }
}

/// Weighs a cache entry by the length of its bytes.
pub struct BytesWeighter;

impl Clone for BytesWeighter {
    fn clone(&self) -> (r: Self) {
        BytesWeighter
    }
}

impl quick_cache::Weighter<String, Vec<u8>> for BytesWeighter {
    /// The weight that the cache counts for an entry: the length of its
    /// bytes, but at least one and at most `MAX_ENTRY_WEIGHT`, whatever its
    /// key.
    fn weight(&self, _key: &String, val: &Vec<u8>) -> (w: u64)
        ensures
            w == weight_of(val@.len()),
            1 <= w <= MAX_ENTRY_WEIGHT,
    {
        let len: usize = val.len();
        if len < 1 {
            1
        } else if len > 2147483647 {
            MAX_ENTRY_WEIGHT as u64
        } else {
            len as u64
        }
    }
}

/// What the cache holds: the bytes stored under each chunk id.
pub uninterp spec fn cache_entries(cache: InMemoryCache) -> Map<Seq<char>, Seq<u8>>;

/// A cache of chunks bounded in the number of entries and in their total
/// weight. Storing a chunk may evict others; it never changes the bytes of
/// an entry that stays.
#[verifier::external_body]
pub struct InMemoryCache {
    cache: quick_cache::sync::Cache<String, Vec<u8>, BytesWeighter>,
}

impl View for InMemoryCache {
    type V = Map<Seq<char>, Seq<u8>>;

    open spec fn view(&self) -> Map<Seq<char>, Seq<u8>> {
        cache_entries(*self)
    }
}

/// The bytes a chunk id stands for in a cache holding `entries`: nothing for
/// the empty id, the stored bytes for an id that is held.
pub open spec fn chunk_bytes(entries: Map<Seq<char>, Seq<u8>>, id: Seq<char>) -> Option<Seq<u8>> {
    if id.len() == 0 {
        Some(Seq::empty())
    } else if entries.contains_key(id) {
        Some(entries[id])
    } else {
        None
    }
}

/// What storing `bytes` under `id` may do to what a cache holds. Nothing is
/// ever stored under the empty id: the cache stays as it is. For any other
/// id the cache may drop entries to stay within its bounds, the new one
/// among them; whatever it still holds is an entry it held before, with the
/// same bytes, or the new one.
pub open spec fn stored(
    before: Map<Seq<char>, Seq<u8>>,
    after: Map<Seq<char>, Seq<u8>>,
    id: Seq<char>,
    bytes: Seq<u8>,
) -> bool {
    if id.len() == 0 {
        after == before
    } else {
        after.submap_of(before.insert(id, bytes))
    }
}

impl InMemoryCache {
    /// `quick_cache::sync::Cache::with_weighter`: an empty cache for about
    /// `total_keys` entries of at most `total_weight` in all.
    #[verifier::external_body]
    pub fn new(total_keys: usize, total_weight: u64) -> (c: InMemoryCache)
        ensures
            forall|k: Seq<char>| !cache_entries(c).contains_key(k),
    {
        InMemoryCache {
            cache: quick_cache::sync::Cache::with_weighter(total_keys, total_weight, BytesWeighter),
        }
    }

    /// `quick_cache::sync::Cache::get`: a copy of the bytes held under `key`,
    /// if the cache holds the key. What the cache holds stays as it is.
    #[verifier::external_body]
    fn lookup(&self, key: &str) -> (r: Option<Vec<u8>>)
        ensures
            r is Some <==> cache_entries(*self).contains_key(key@),
            r is Some ==> r->0@ == cache_entries(*self)[key@],
    {
        self.cache.get(key)
    }

    /// `quick_cache::sync::Cache::is_empty`: whether the cache holds no entry
    /// at all.
    #[verifier::external_body]
    fn holds_nothing(&self) -> (r: bool)
        ensures
            r == (forall|k: Seq<char>| !cache_entries(*self).contains_key(k)),
    {
        self.cache.is_empty()
    }

    /// `quick_cache::sync::Cache::insert`: stores `value` under `key`. The
    /// cache may drop entries to stay within its bounds, the new one among
    /// them; whatever it still holds is an entry it held before, with the
    /// same bytes, or the new one.
    #[verifier::external_body]
    fn store(&mut self, key: String, value: Vec<u8>)
        ensures
            cache_entries(*final(self)).submap_of(cache_entries(*old(self)).insert(key@, value@)),
    {
        self.cache.insert(key, value)
    }

    /// The bytes of the chunk `chunk_hash`: empty for the empty id, the cached
    /// bytes for a cached id, and `GetFromCacheError` otherwise.
    pub fn get(&self, chunk_hash: &str) -> (r: Result<Vec<u8>, SyncError>)
        ensures
            match r {
                Ok(bytes) => chunk_bytes(self@, chunk_hash@) == Some(bytes@),
                Err(e) => chunk_bytes(self@, chunk_hash@) is None && e@
                    == SyncErrorView::GetFromCacheError,
            },
    {
        if chunk_hash.unicode_len() == 0 {
            return Ok(Vec::new());
        }
        match self.lookup(chunk_hash) {
            Some(content) => Ok(content),
            None => Err(SyncError::GetFromCacheError),
        }
    }

    /// Stores `content` under `chunk_hash`, unless that is the empty id,
    /// which stands for no bytes and is never stored. Always succeeds;
    /// entries may be evicted, but every entry that remains keeps its bytes.
    pub fn set(&mut self, chunk_hash: &str, content: Vec<u8>) -> (r: Result<(), SyncError>)
        ensures
            r is Ok,
            stored(old(self)@, final(self)@, chunk_hash@, content@),
    {
        if chunk_hash.unicode_len() > 0 {
            self.store(chunk_hash.to_string(), content);
        }
        Ok(())
    }

    /// Whether the cache holds no chunk at all.
    pub fn is_empty(&self) -> (r: bool)
        ensures
            r == (self@ == Map::<Seq<char>, Seq<u8>>::empty()),
    {
        let r = self.holds_nothing();
        proof {
            if r {
                assert(self@ =~= Map::<Seq<char>, Seq<u8>>::empty());
            }
        }
        r
    }

    /// Whether the cache holds `chunk_hash`.
    pub fn contains(&self, chunk_hash: &str) -> (r: bool)
        ensures
            r == self@.contains_key(chunk_hash@),
    {
        match self.lookup(chunk_hash) {
            Some(_content) => true,
            None => false,
        }
    }
}

/// A cache that holds nothing under the empty id still holds nothing under
/// it after a chunk is stored, whatever its id and whatever was evicted.
pub proof fn lemma_null_chunk_stays_out(
    before: Map<Seq<char>, Seq<u8>>,
    after: Map<Seq<char>, Seq<u8>>,
    id: Seq<char>,
    bytes: Seq<u8>,
)
    requires
        !before.contains_key(Seq::<char>::empty()),
        stored(before, after, id, bytes),
    ensures
        !after.contains_key(Seq::<char>::empty()),
{
    if id.len() > 0 && after.contains_key(Seq::<char>::empty()) {
        assert(before.insert(id, bytes).contains_key(Seq::<char>::empty()));
        assert(id != Seq::<char>::empty());
    }
}

/// The empty id always stands for the empty byte sequence, whatever the
/// cache holds.
pub proof fn lemma_null_chunk_is_empty(entries: Map<Seq<char>, Seq<u8>>)
    ensures
        chunk_bytes(entries, Seq::<char>::empty()) == Some(Seq::<u8>::empty()),
{
}

/// Storing a chunk leaves every other entry that remains with the bytes it
/// had, and leaves the stored id, if it remains, with the new bytes.
pub proof fn lemma_eviction_keeps_bytes(
    before: Map<Seq<char>, Seq<u8>>,
    after: Map<Seq<char>, Seq<u8>>,
    id: Seq<char>,
    bytes: Seq<u8>,
    other: Seq<char>,
)
    requires
        stored(before, after, id, bytes),
        after.contains_key(other),
    ensures
        other == id && id.len() > 0 ==> after[other] == bytes,
        other != id ==> before.contains_key(other) && after[other] == before[other],
{
    if id.len() > 0 {
        assert(before.insert(id, bytes).contains_key(other));
    }
}

} // verus!
