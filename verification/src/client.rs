//! The client library's own state and decisions: the master's address and the
//! connection retry policy, the location cache, and which chunk a read or an
//! append goes to.
use vstd::prelude::*;
use vstd::string::*;
use crate::cache::{ChunkLocationCache, CacheEntryView, lookup, cached, opt_response_view};
use crate::offset_map::{DEFAULT_CHUNK_SIZE, chunk_index_and_offset};
use crate::pipeline::PipelineError;
use crate::proto::{ChunkHandle, ChunkLocationsResponse, FileInfo, ListDirectoryResponse, RpcCode, RpcStatus};

verus! {

/// Connection attempts made before giving up.
pub const CONNECT_ATTEMPTS: u32 = 3;

/// The wait before the first retry, in milliseconds; it doubles after each retry.
pub const FIRST_RETRY_DELAY_MS: u64 = 100;

/// Default time to live of cached chunk locations, in milliseconds (one minute).
pub const LOCATION_CACHE_TTL_MS: u64 = 60000;

/// A client of the master's metadata service at one address.
pub struct MasterClient {
    master_addr: String,
}

impl MasterClient {
    /// The master's address.
    pub closed spec fn addr(&self) -> Seq<char> {
        self.master_addr@
    }

    /// A client for the master at `master_addr`.
    pub fn new(master_addr: String) -> (c: Self)
        ensures
            c.addr() == master_addr@,
    {
        MasterClient { master_addr }
    }

    /// The master's address.
    pub fn master_addr(&self) -> (r: &String)
        ensures
            r@ == self.addr(),
    {
        &self.master_addr
    }
}

impl Clone for MasterClient {
    fn clone(&self) -> (r: Self)
        ensures
            r.addr() == self.addr(),
    {
        MasterClient { master_addr: self.master_addr.clone() }
    }
}

/// What to do after a failed connection attempt.
#[derive(Debug, Clone, Copy, PartialEq, Eq)]
pub enum RetryStep {
    /// Wait this many milliseconds, then try again.
    RetryAfter(u64),
    /// Stop and report the failure.
    GiveUp,
}

/// The wait before the next retry when `retries_left` retries remain.
pub open spec fn retry_delay(retries_left: u32) -> u64 {
    if retries_left >= 3 {
        100
    } else if retries_left == 2 {
        200
    } else {
        400
    }
}

/// The state of the connection retry policy: attempts left and the next wait.
pub struct ConnectRetry {
    retries: u32,
    delay_ms: u64,
}

impl ConnectRetry {
    /// Attempts that may still fail before giving up.
    pub closed spec fn retries_left(&self) -> u32 {
        self.retries
    }

    /// The next wait, in milliseconds.
    pub closed spec fn delay(&self) -> u64 {
        self.delay_ms
    }

    /// The wait always matches the attempts left.
    pub open spec fn wf(&self) -> bool {
        self.retries_left() <= CONNECT_ATTEMPTS && self.delay() == retry_delay(self.retries_left())
    }

    /// A fresh policy: three attempts, the first retry after 100 ms.
    pub fn new() -> (p: Self)
        ensures
            p.wf(),
            p.retries_left() == CONNECT_ATTEMPTS,
            p.delay() == FIRST_RETRY_DELAY_MS,
    {
        ConnectRetry { retries: CONNECT_ATTEMPTS, delay_ms: FIRST_RETRY_DELAY_MS }
    }

    /// Takes in a failed attempt: give up after the last one, else wait the
    /// current delay and double it.
    pub fn on_failure(&mut self) -> (step: RetryStep)
        requires
            old(self).wf(),
            old(self).retries_left() > 0,
        ensures
            final(self).wf(),
            final(self).retries_left() == old(self).retries_left() - 1,
            step == (if final(self).retries_left() == 0 {
                RetryStep::GiveUp
            } else {
                RetryStep::RetryAfter(old(self).delay())
            }),
            final(self).delay() == (if final(self).retries_left() == 0 {
                old(self).delay()
            } else {
                (2 * old(self).delay()) as u64
            }),
    {
        self.retries = self.retries - 1;
        if self.retries == 0 {
            return RetryStep::GiveUp;
        }
        let wait = self.delay_ms;
        self.delay_ms = wait * 2;
        RetryStep::RetryAfter(wait)
    }
}

/// The status reported when the master cannot be reached.
pub fn connect_failure_status(master_addr: &str, error: &str) -> (st: RpcStatus)
    ensures
        st.code == RpcCode::Unavailable,
        st.message@ == "Failed to connect to master at "@ + master_addr@ + ": "@ + error@,
{
    let message = "Failed to connect to master at ".to_owned().concat(master_addr).concat(": ").concat(error);
    RpcStatus { code: RpcCode::Unavailable, message }
}

/// Errors of the client library.
#[derive(Debug, Clone, PartialEq, Eq)]
pub enum ClientError {
    MasterRpc(RpcStatus),
    Pipeline(PipelineError),
    FileNotFound(String),
}

/// Where a read at a file offset goes: the chunk's handle and the offset in
/// it, or nowhere when the file has no chunk there.
pub open spec fn read_target_of(chunks: Seq<ChunkHandle>, offset: u64, chunk_size: u32) -> Option<(u64, u32)> {
    let index = (offset / (chunk_size as u64)) as u32;
    if index < chunks.len() {
        Some((chunks[index as int].id, (offset % (chunk_size as u64)) as u32))
    } else {
        None
    }
}

/// The chunk an append goes to: the file's last chunk, or none when a first
/// chunk must be allocated.
pub open spec fn append_target_of(chunks: Seq<ChunkHandle>) -> Option<u64> {
    if chunks.len() > 0 {
        Some(chunks.last().id)
    } else {
        None
    }
}

/// A read at byte `k` of the file's `i`-th chunk (offset `i * chunk_size + k`)
/// goes to that chunk's handle, at offset `k` in it (for chunk indexes that
/// fit in 32 bits, as the index is computed in 32 bits).
pub proof fn lemma_read_lands_in_its_chunk(chunks: Seq<ChunkHandle>, chunk_size: u32, i: int, k: int)
    requires
        chunk_size > 0,
        0 <= i < chunks.len(),
        i <= u32::MAX,
        0 <= k < chunk_size,
        i * chunk_size + k <= u64::MAX,
    ensures
        read_target_of(chunks, (i * chunk_size + k) as u64, chunk_size) == Some((chunks[i].id, k as u32)),
{
    let offset = (i * chunk_size + k) as u64;
    vstd::arithmetic::div_mod::lemma_fundamental_div_mod_converse(offset as int, chunk_size as int, i, k);
    assert(offset / (chunk_size as u64) == i);
    assert(offset % (chunk_size as u64) == k);
    assert(((offset / (chunk_size as u64)) as u32) as int == i);
}

/// A read finds no chunk exactly when its offset lies at or past the end of
/// the file's last chunk (for offsets whose chunk index fits in 32 bits, as
/// the index is computed in 32 bits); otherwise it goes to the chunk that
/// holds the offset, at the offset's distance from that chunk's start.
pub proof fn lemma_read_past_end(chunks: Seq<ChunkHandle>, chunk_size: u32, offset: u64)
    requires
        chunk_size > 0,
        offset / (chunk_size as u64) <= u32::MAX,
    ensures
        read_target_of(chunks, offset, chunk_size) is None <==> offset >= chunks.len() * chunk_size,
        read_target_of(chunks, offset, chunk_size) matches Some((h, k)) ==> exists|i: int|
            0 <= i < chunks.len() && #[trigger] chunks[i].id == h && offset == i * chunk_size + k && k < chunk_size,
{
    let q = offset / (chunk_size as u64);
    let r = offset % (chunk_size as u64);
    vstd::arithmetic::div_mod::lemma_fundamental_div_mod(offset as int, chunk_size as int);
    assert(offset == chunk_size * q + r);
    if q < chunks.len() {
        assert(offset < chunks.len() * chunk_size) by (nonlinear_arith)
            requires q < chunks.len(), offset == chunk_size * q + r, r < chunk_size, chunk_size > 0;
        assert(chunks[q as int].id == chunks[q as int].id);
        assert(offset == q * chunk_size + r) by (nonlinear_arith)
            requires offset == chunk_size * q + r;
    } else {
        assert(offset >= chunks.len() * chunk_size) by (nonlinear_arith)
            requires q >= chunks.len(), offset == chunk_size * q + r, r >= 0, chunk_size > 0;
    }
}

/// A file with a chunk appends to its last chunk; only a file without
/// chunks has no append target (a first chunk must be allocated).
pub proof fn lemma_append_goes_to_last_chunk(chunks: Seq<ChunkHandle>)
    ensures
        append_target_of(chunks) is None <==> chunks.len() == 0,
        chunks.len() > 0 ==> append_target_of(chunks) == Some(chunks[chunks.len() - 1].id),
{
}

/// Once a chunk is added to a file, appends go to that chunk.
pub proof fn lemma_append_after_new_chunk(chunks: Seq<ChunkHandle>, h: ChunkHandle)
    ensures
        append_target_of(chunks.push(h)) == Some(h.id),
{
}

/// The paths of a directory listing, in order.
pub open spec fn listed_paths(entries: Seq<FileInfo>) -> Seq<Seq<char>> {
    entries.map_values(|e: FileInfo| e.path@)
}

/// The client: a master client, the chunk-location cache and the chunk size.
pub struct GfsClient {
    master: MasterClient,
    cache: ChunkLocationCache,
    chunk_size: u32,
}

impl GfsClient {
    /// Offsets are mapped with a positive chunk size.
    pub closed spec fn wf(&self) -> bool {
        self.chunk_size > 0
    }

    /// The master's address.
    pub closed spec fn master_addr_spec(&self) -> Seq<char> {
        self.master.addr()
    }

    /// The cached chunk locations.
    pub closed spec fn cached_entries(&self) -> Map<u64, CacheEntryView> {
        self.cache.entries()
    }

    /// The cache's default time to live.
    pub closed spec fn cache_ttl(&self) -> u64 {
        self.cache.default_ttl()
    }

    /// The chunk size the client maps offsets with.
    pub closed spec fn chunk_size_spec(&self) -> u32 {
        self.chunk_size
    }

    /// A client of the master at `master_addr`, with an empty cache whose
    /// entries live a minute and the default chunk size.
    pub fn new(master_addr: String) -> (c: Self)
        ensures
            c.wf(),
            c.master_addr_spec() == master_addr@,
            c.cached_entries() =~= Map::empty(),
            c.cache_ttl() == LOCATION_CACHE_TTL_MS,
            c.chunk_size_spec() == DEFAULT_CHUNK_SIZE,
    {
        GfsClient {
            master: MasterClient::new(master_addr),
            cache: ChunkLocationCache::new(LOCATION_CACHE_TTL_MS),
            chunk_size: DEFAULT_CHUNK_SIZE,
        }
    }

    /// The master client.
    pub fn master(&self) -> (r: &MasterClient)
        ensures
            r.addr() == self.master_addr_spec(),
    {
        &self.master
    }

    /// Where a read at `offset` of the file `info` goes: the chunk's handle and
    /// the offset in that chunk, or `None` when the file ends before that chunk.
    pub fn read_target(&self, info: &FileInfo, offset: u64) -> (r: Option<(u64, u32)>)
        requires
            self.wf(),
        ensures
            r == read_target_of(info.chunks@, offset, self.chunk_size_spec()),
    {
        let (index, chunk_offset) = chunk_index_and_offset(offset, self.chunk_size);
        if (index as usize) < info.chunks.len() {
            Some((info.chunks[index as usize].id, chunk_offset))
        } else {
            None
        }
    }

    /// The cached locations of `handle` at `now`, while fresh.
    pub fn cached_locations_at(&self, handle: u64, now: u64) -> (r: Option<ChunkLocationsResponse>)
        ensures
            opt_response_view(r) == lookup(self.cached_entries(), handle, now),
    {
        self.cache.get_at(handle, now)
    }

    /// The cached locations of `handle`, while fresh now.
    pub fn cached_locations(&self, handle: u64) -> (r: Option<ChunkLocationsResponse>)
        ensures
            !self.cached_entries().contains_key(handle) ==> r is None,
            r matches Some(resp) ==> self.cached_entries().contains_key(handle)
                && resp@ == self.cached_entries()[handle].response,
            exists|now: u64| opt_response_view(r) == lookup(self.cached_entries(), handle, now),
    {
        self.cache.get(handle)
    }

    /// Caches locations fetched from the master for `handle`, at `now`.
    pub fn remember_locations_at(&mut self, handle: u64, response: ChunkLocationsResponse, now: u64)
        ensures
            final(self).cached_entries() == old(self).cached_entries().insert(
                handle,
                cached(old(self).cache_ttl(), response@, now),
            ),
            final(self).cache_ttl() == old(self).cache_ttl(),
            final(self).master_addr_spec() == old(self).master_addr_spec(),
            final(self).chunk_size_spec() == old(self).chunk_size_spec(),
            final(self).wf() == old(self).wf(),
    {
        self.cache.insert_at(handle, response, now);
    }

    /// Caches locations fetched from the master for `handle`, now.
    pub fn remember_locations(&mut self, handle: u64, response: ChunkLocationsResponse)
        ensures
            exists|now: u64| final(self).cached_entries() == old(self).cached_entries().insert(
                handle,
                cached(old(self).cache_ttl(), response@, now),
            ),
            final(self).cache_ttl() == old(self).cache_ttl(),
            final(self).master_addr_spec() == old(self).master_addr_spec(),
            final(self).chunk_size_spec() == old(self).chunk_size_spec(),
            final(self).wf() == old(self).wf(),
    {
        let ghost old_entries = self.cached_entries();
        let ghost ttl = self.cache_ttl();
        let ghost view = response@;
        self.cache.insert(handle, response);
        proof {
            let now = choose|now: u64| self.cached_entries() == old_entries.insert(handle, cached(ttl, view, now));
            assert(self.cached_entries() == old_entries.insert(handle, cached(ttl, view, now)));
        }
    }

    /// Drops the cached locations of `handle`.
    pub fn forget_locations(&mut self, handle: u64)
        ensures
            final(self).cached_entries() == old(self).cached_entries().remove(handle),
            final(self).cache_ttl() == old(self).cache_ttl(),
            final(self).master_addr_spec() == old(self).master_addr_spec(),
            final(self).chunk_size_spec() == old(self).chunk_size_spec(),
            final(self).wf() == old(self).wf(),
    {
        self.cache.invalidate(handle);
    }
}

/// Where an append to the file `info` goes: its last chunk, or `None` when the
/// file has no chunk yet and one must be allocated (the append then goes to
/// the allocated chunk, see `allocated_handle`).
pub fn append_target(info: &FileInfo) -> (r: Option<u64>)
    ensures
        r == append_target_of(info.chunks@),
{
    let n = info.chunks.len();
    if n > 0 {
        Some(info.chunks[n - 1].id)
    } else {
        None
    }
}

/// The chunk an append goes to after the master allocated one: the handle
/// the allocation names; an allocation that names none is an internal error.
pub fn allocated_handle(resp: &ChunkLocationsResponse) -> (r: Result<u64, ClientError>)
    ensures
        resp.handle matches Some(h) ==> r == Ok::<u64, ClientError>(h.id),
        resp.handle is None ==> (r matches Err(ClientError::MasterRpc(st))
            && st.code == RpcCode::Internal && st.message@ == "Allocation named no chunk"@),
{
    match resp.handle {
        Some(h) => Ok(h.id),
        None => Err(ClientError::MasterRpc(RpcStatus { code: RpcCode::Internal, message: "Allocation named no chunk".to_owned() })),
    }
}

/// The paths of a directory listing, in order.
pub fn entry_paths(resp: &ListDirectoryResponse) -> (paths: Vec<String>)
    ensures
        paths@.map_values(|s: String| s@) == listed_paths(resp.entries@),
{
    let mut paths: Vec<String> = Vec::new();
    let n = resp.entries.len();
    let mut i: usize = 0;
    while i < n
        invariant
            n == resp.entries@.len(),
            i <= n,
            paths@.len() == i,
            forall|j: int| 0 <= j < i ==> paths@[j]@ == resp.entries@[j].path@,
        decreases n - i,
    {
        paths.push(resp.entries[i].path.clone());
        i = i + 1;
    }
    proof {
        assert(paths@.map_values(|s: String| s@) =~= listed_paths(resp.entries@));
    }
    paths
}

} // verus!
