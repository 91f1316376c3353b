//! The client's cache of chunk locations, keyed by chunk handle, whose
//! entries expire after a time to live.
use vstd::prelude::*;
use std::collections::HashMap;
use crate::clock::MonotonicClock;
use crate::proto::{ChunkLocationsResponse, ChunkLocationsResponseView, clone_locations_response};

verus! {

broadcast use vstd::std_specs::hash::group_hash_axioms;

/// A cached answer and the time (milliseconds) from which it is stale.
pub struct CacheEntry {
    pub response: ChunkLocationsResponse,
    pub expires_at: u64,
}

/// What a cache entry stands for.
pub struct CacheEntryView {
    pub response: ChunkLocationsResponseView,
    pub expires_at: u64,
}

impl View for CacheEntry {
    type V = CacheEntryView;

    open spec fn view(&self) -> CacheEntryView {
        CacheEntryView { response: self.response@, expires_at: self.expires_at }
    }
}

/// How long an answer stays fresh: its lease expiry read as a number of
/// milliseconds when positive, the cache's default otherwise.
pub open spec fn entry_ttl(default_ttl: u64, lease_expiry: i64) -> u64 {
    if lease_expiry > 0 {
        lease_expiry as u64
    } else {
        default_ttl
    }
}

/// `now + ttl`, held at the largest representable time.
pub open spec fn expiry_after(now: u64, ttl: u64) -> u64 {
    if now + ttl > u64::MAX {
        u64::MAX
    } else {
        (now + ttl) as u64
    }
}

/// The entry that inserting `response` at `now` creates.
pub open spec fn cached(default_ttl: u64, response: ChunkLocationsResponseView, now: u64) -> CacheEntryView {
    CacheEntryView {
        response,
        expires_at: expiry_after(now, entry_ttl(default_ttl, response.lease_expiry_unix_millis)),
    }
}

/// What a lookup of `handle` at `now` finds: the cached answer while it is fresh.
pub open spec fn lookup(entries: Map<u64, CacheEntryView>, handle: u64, now: u64) -> Option<ChunkLocationsResponseView> {
    if entries.contains_key(handle) && now < entries[handle].expires_at {
        Some(entries[handle].response)
    } else {
        None
    }
}

/// The view of an optional answer.
pub open spec fn opt_response_view(r: Option<ChunkLocationsResponse>) -> Option<ChunkLocationsResponseView> {
    match r {
        Some(resp) => Some(resp@),
        None => None,
    }
}

/// Chunk locations cached per chunk handle.
pub struct ChunkLocationCache {
    default_ttl: u64,
    entries: HashMap<u64, CacheEntry>,
    clock: MonotonicClock,
}

impl ChunkLocationCache {
    /// The cached entries.
    pub closed spec fn entries(&self) -> Map<u64, CacheEntryView> {
        self.entries@.map_values(|e: CacheEntry| e@)
    }

    /// The time to live, in milliseconds, of answers without a lease expiry.
    pub closed spec fn default_ttl(&self) -> u64 {
        self.default_ttl
    }

    /// An empty cache whose default time to live is `default_ttl_ms` milliseconds.
    pub fn new(default_ttl_ms: u64) -> (c: Self)
        ensures
            c.entries() =~= Map::empty(),
            c.default_ttl() == default_ttl_ms,
    {
        let c = ChunkLocationCache { default_ttl: default_ttl_ms, entries: HashMap::new(), clock: MonotonicClock::start() };
        proof {
            assert(c.entries() =~= Map::empty());
        }
        c
    }

    /// The cached answer for `handle` if it is still fresh at `now`.
    pub fn get_at(&self, handle: u64, now: u64) -> (r: Option<ChunkLocationsResponse>)
        ensures
            opt_response_view(r) == lookup(self.entries(), handle, now),
    {
        match self.entries.get(&handle) {
            Some(entry) => {
                if now < entry.expires_at {
                    Some(clone_locations_response(&entry.response))
                } else {
                    None
                }
            },
            None => None,
        }
    }

    /// The cached answer for `handle` if it is still fresh now, on the cache's monotonic clock. An answer
    /// returned is the cached one; whether a cached answer is still fresh
    /// depends on the clock.
    pub fn get(&self, handle: u64) -> (r: Option<ChunkLocationsResponse>)
        ensures
            !self.entries().contains_key(handle) ==> r is None,
            r matches Some(resp) ==> self.entries().contains_key(handle)
                && resp@ == self.entries()[handle].response,
            exists|now: u64| opt_response_view(r) == lookup(self.entries(), handle, now),
    {
        let now = self.clock.now_millis();
        self.get_at(handle, now)
    }

    /// Caches `response` for `handle` at `now`, replacing any earlier entry.
    pub fn insert_at(&mut self, handle: u64, response: ChunkLocationsResponse, now: u64)
        ensures
            final(self).entries() == old(self).entries().insert(handle, cached(old(self).default_ttl(), response@, now)),
            final(self).default_ttl() == old(self).default_ttl(),
    {
        let ttl: u64 = if response.lease_expiry_unix_millis > 0 {
            response.lease_expiry_unix_millis as u64
        } else {
            self.default_ttl
        };
        let expires_at = now.saturating_add(ttl);
        let ghost view = response@;
        self.entries.insert(handle, CacheEntry { response, expires_at });
        proof {
            assert(self.entries() =~= old(self).entries().insert(handle, cached(self.default_ttl, view, now)));
        }
    }

    /// Caches `response` for `handle` now (on the cache's monotonic clock), replacing any earlier entry.
    pub fn insert(&mut self, handle: u64, response: ChunkLocationsResponse)
        ensures
            exists|now: u64| final(self).entries()
                == old(self).entries().insert(handle, cached(old(self).default_ttl(), response@, now)),
            final(self).default_ttl() == old(self).default_ttl(),
    {
        let now = self.clock.now_millis();
        self.insert_at(handle, response, now);
    }

    /// Drops the entry of `handle`, if any.
    pub fn invalidate(&mut self, handle: u64)
        ensures
            final(self).entries() == old(self).entries().remove(handle),
            final(self).default_ttl() == old(self).default_ttl(),
    {
        self.entries.remove(&handle);
        proof {
            assert(self.entries() =~= old(self).entries().remove(handle));
        }
    }
}

/// A lookup right after an insert finds the inserted answer until its expiry,
/// and nothing from then on.
pub proof fn lemma_get_after_insert(
    entries: Map<u64, CacheEntryView>,
    default_ttl: u64,
    handle: u64,
    response: ChunkLocationsResponseView,
    inserted_at: u64,
    now: u64,
)
    ensures
        lookup(entries.insert(handle, cached(default_ttl, response, inserted_at)), handle, now)
            == (if now < cached(default_ttl, response, inserted_at).expires_at { Some(response) } else { None }),
{
}

/// An insert for one handle leaves the lookups of every other handle as they were.
pub proof fn lemma_insert_keeps_others(
    entries: Map<u64, CacheEntryView>,
    default_ttl: u64,
    handle: u64,
    other: u64,
    response: ChunkLocationsResponseView,
    inserted_at: u64,
    now: u64,
)
    requires
        other != handle,
    ensures
        lookup(entries.insert(handle, cached(default_ttl, response, inserted_at)), other, now)
            == lookup(entries, other, now),
{
}

/// After an invalidation a lookup of the handle finds nothing, and lookups of
/// other handles are unchanged.
pub proof fn lemma_get_after_invalidate(entries: Map<u64, CacheEntryView>, handle: u64, other: u64, now: u64)
    ensures
        lookup(entries.remove(handle), handle, now) is None,
        other != handle ==> lookup(entries.remove(handle), other, now) == lookup(entries, other, now),
{
}

} // verus!
