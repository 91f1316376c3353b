//! The master's chunk table (chunk handle to replica metadata) and node
//! registry (chunk server to liveness and load), both held in `DashMap`s.
use vstd::prelude::*;
use dashmap::DashMap;
use crate::clock::MonotonicClock;

verus! {

/// The views of a sequence of strings.
pub open spec fn strings_view(v: Seq<String>) -> Seq<Seq<char>> {
    v.map_values(|s: String| s@)
}

/// The view of an optional string.
pub open spec fn opt_string_view(o: Option<String>) -> Option<Seq<char>> {
    match o {
        Some(s) => Some(s@),
        None => None,
    }
}

/// Copies a vector of strings.
pub fn clone_strings(v: &Vec<String>) -> (r: Vec<String>)
    ensures
        strings_view(r@) == strings_view(v@),
{
    let mut r: Vec<String> = Vec::new();
    let n = v.len();
    let mut i: usize = 0;
    while i < n
        invariant
            n == v@.len(),
            i <= n,
            r@.len() == i,
            forall|j: int| 0 <= j < i ==> r@[j]@ == v@[j]@,
        decreases n - i,
    {
        r.push(v[i].clone());
        i = i + 1;
    }
    proof {
        assert(strings_view(r@) =~= strings_view(v@));
    }
    r
}

/// Copies an optional string.
pub fn clone_opt_string(o: &Option<String>) -> (r: Option<String>)
    ensures
        opt_string_view(r) == opt_string_view(*o),
{
    match o {
        Some(s) => Some(s.clone()),
        None => None,
    }
}

/// Whether `name` occurs in `v`.
pub fn contains_string(v: &Vec<String>, name: &String) -> (r: bool)
    ensures
        r == strings_view(v@).contains(name@),
{
    let n = v.len();
    let mut i: usize = 0;
    while i < n
        invariant
            n == v@.len(),
            i <= n,
            forall|j: int| 0 <= j < i ==> v@[j]@ != name@,
        decreases n - i,
    {
        if v[i].eq(name) {
            proof {
                assert(strings_view(v@)[i as int] == name@);
            }
            return true;
        }
        i = i + 1;
    }
    proof {
        if strings_view(v@).contains(name@) {
            let j = choose|j: int| 0 <= j < v@.len() && strings_view(v@)[j] == name@;
            assert(v@[j]@ == name@);
        }
    }
    false
}

/// What the master knows about a chunk. `lease_expiry` is in milliseconds
/// since the Unix epoch; `locations` holds each node at most once.
#[derive(Debug)]
pub struct ChunkMetadata {
    pub version: u64,
    pub locations: Vec<String>,
    pub primary: Option<String>,
    pub lease_expiry: Option<u64>,
    pub pending_delete: bool,
}

/// What chunk metadata stands for.
pub struct ChunkMetadataView {
    pub version: u64,
    pub locations: Seq<Seq<char>>,
    pub primary: Option<Seq<char>>,
    pub lease_expiry: Option<u64>,
    pub pending_delete: bool,
}

impl View for ChunkMetadata {
    type V = ChunkMetadataView;

    open spec fn view(&self) -> ChunkMetadataView {
        ChunkMetadataView {
            version: self.version,
            locations: strings_view(self.locations@),
            primary: opt_string_view(self.primary),
            lease_expiry: self.lease_expiry,
            pending_delete: self.pending_delete,
        }
    }
}

impl Clone for ChunkMetadata {
    fn clone(&self) -> (r: Self)
        ensures
            r@ == self@,
    {
        ChunkMetadata {
            version: self.version,
            locations: clone_strings(&self.locations),
            primary: clone_opt_string(&self.primary),
            lease_expiry: self.lease_expiry,
            pending_delete: self.pending_delete,
        }
    }
}

impl ChunkMetadata {
    /// No node is listed twice as a replica.
    pub open spec fn wf(&self) -> bool {
        self@.locations.no_duplicates()
    }
}

/// The locations after a node reports the chunk: unchanged if listed, else appended.
pub open spec fn add_location(locations: Seq<Seq<char>>, node: Seq<char>) -> Seq<Seq<char>> {
    if locations.contains(node) {
        locations
    } else {
        locations.push(node)
    }
}

/// The metadata the master creates for a chunk first reported by `node`.
pub open spec fn reported_chunk(node: Seq<char>) -> ChunkMetadataView {
    ChunkMetadataView {
        version: 1,
        locations: seq![node],
        primary: None,
        lease_expiry: None,
        pending_delete: false,
    }
}

/// `now + duration`, held at the largest representable time.
pub open spec fn capped_expiry(now: u64, duration: u64) -> u64 {
    if now + duration > u64::MAX { u64::MAX } else { (now + duration) as u64 }
}

/// The chunk table after `primary` is granted the lease of `handle` until `expiry`.
pub open spec fn leased(chunks: Map<u64, ChunkMetadataView>, handle: u64, primary: Seq<char>, expiry: u64) -> Map<u64, ChunkMetadataView> {
    chunks.insert(handle, ChunkMetadataView { primary: Some(primary), lease_expiry: Some(expiry), ..chunks[handle] })
}

/// What the chunk table's map holds: each handle's metadata.
pub uninterp spec fn chunk_map_entries(m: DashMap<u64, ChunkMetadata>) -> Map<u64, ChunkMetadataView>;

/// `DashMap::new`: an empty map.
#[verifier::external_body]
fn chunk_map_new() -> (m: DashMap<u64, ChunkMetadata>)
    ensures
        chunk_map_entries(m) =~= Map::empty(),
{
    DashMap::new()
}

/// `DashMap::insert`: maps `handle` to `meta`, replacing any earlier value.
#[verifier::external_body]
fn chunk_map_insert(m: &mut DashMap<u64, ChunkMetadata>, handle: u64, meta: ChunkMetadata)
    ensures
        chunk_map_entries(*final(m)) == chunk_map_entries(*old(m)).insert(handle, meta@),
{
    m.insert(handle, meta);
}

/// `DashMap::get`, the value cloned out: the metadata of `handle`, if any.
#[verifier::external_body]
fn chunk_map_get(m: &DashMap<u64, ChunkMetadata>, handle: u64) -> (r: Option<ChunkMetadata>)
    ensures
        r is Some <==> chunk_map_entries(*m).contains_key(handle),
        r matches Some(meta) ==> meta@ == chunk_map_entries(*m)[handle],
{
    m.get(&handle).map(|e| e.value().clone())
}

/// `DashMap::len`: the number of entries.
#[verifier::external_body]
fn chunk_map_len(m: &DashMap<u64, ChunkMetadata>) -> (r: usize)
    ensures
        r == chunk_map_entries(*m).dom().len(),
{
    m.len()
}

/// `DashMap::iter`, each key copied out: every handle of the map, once each,
/// in the map's iteration order (which is not stated).
#[verifier::external_body]
fn chunk_map_handles(m: &DashMap<u64, ChunkMetadata>) -> (r: Vec<u64>)
    ensures
        r@.no_duplicates(),
        r@.to_set() == chunk_map_entries(*m).dom(),
{
    m.iter().map(|e| *e.key()).collect()
}

/// The chunk table: metadata per chunk handle, and the next handle to hand out.
pub struct ChunkTable {
    inner: DashMap<u64, ChunkMetadata>,
    next_handle: u64,
    clock: MonotonicClock,
}

impl Default for ChunkTable {
    /// An empty table whose handle counter starts at 0.
    fn default() -> (t: Self)
        ensures
            t.wf(),
            t.chunks() == Map::<u64, ChunkMetadataView>::empty(),
            t.next_handle_spec() == 0,
    {
        ChunkTable { inner: chunk_map_new(), next_handle: 0, clock: MonotonicClock::start() }
    }
}

impl ChunkTable {
    /// The metadata of each chunk.
    pub closed spec fn chunks(&self) -> Map<u64, ChunkMetadataView> {
        chunk_map_entries(self.inner)
    }

    /// The handle that `allocate_handle` returns next.
    pub closed spec fn next_handle_spec(&self) -> u64 {
        self.next_handle
    }

    /// No chunk lists a node twice.
    pub open spec fn wf(&self) -> bool {
        &&& self.chunks().dom().finite()
        &&& forall|h: u64| #[trigger] self.chunks().contains_key(h) ==> self.chunks()[h].locations.no_duplicates()
    }

    /// An empty table whose first handle is 1.
    pub fn new() -> (t: Self)
        ensures
            t.wf(),
            t.chunks() == Map::<u64, ChunkMetadataView>::empty(),
            t.next_handle_spec() == 1,
    {
        ChunkTable { inner: chunk_map_new(), next_handle: 1, clock: MonotonicClock::start() }
    }

    /// An empty table whose first handle is 1, measuring lease time on `clock`.
    pub fn with_clock(clock: MonotonicClock) -> (t: Self)
        ensures
            t.wf(),
            t.chunks() == Map::<u64, ChunkMetadataView>::empty(),
            t.next_handle_spec() == 1,
    {
        ChunkTable { inner: chunk_map_new(), next_handle: 1, clock }
    }

    /// Hands out the next chunk handle; the counter wraps at `u64::MAX`.
    pub fn allocate_handle(&mut self) -> (h: u64)
        ensures
            h == old(self).next_handle_spec(),
            final(self).next_handle_spec() == (if h == u64::MAX { 0 } else { (h + 1) as u64 }),
            final(self).chunks() == old(self).chunks(),
    {
        let h = self.next_handle;
        self.next_handle = h.wrapping_add(1);
        h
    }

    /// Sets the metadata of `handle`.
    pub fn insert(&mut self, handle: u64, meta: ChunkMetadata)
        requires
            old(self).wf(),
            meta.wf(),
        ensures
            final(self).wf(),
            final(self).chunks() == old(self).chunks().insert(handle, meta@),
            final(self).next_handle_spec() == old(self).next_handle_spec(),
    {
        chunk_map_insert(&mut self.inner, handle, meta);
    }

    /// The metadata of `handle`, if the table has it.
    pub fn get(&self, handle: u64) -> (r: Option<ChunkMetadata>)
        requires
            self.wf(),
        ensures
            r is Some <==> self.chunks().contains_key(handle),
            r matches Some(meta) ==> meta@ == self.chunks()[handle] && meta.wf(),
    {
        chunk_map_get(&self.inner, handle)
    }

    /// Every handle in the table, once each (in no stated order).
    pub fn handles(&self) -> (r: Vec<u64>)
        ensures
            r@.no_duplicates(),
            r@.to_set() == self.chunks().dom(),
    {
        chunk_map_handles(&self.inner)
    }

    /// Records that `node_id` holds a replica of `handle`; a handle not yet in
    /// the table is added with version 1 and that single location.
    pub fn update_locations(&mut self, handle: u64, node_id: String)
        requires
            old(self).wf(),
        ensures
            final(self).wf(),
            final(self).next_handle_spec() == old(self).next_handle_spec(),
            final(self).chunks() == old(self).chunks().insert(
                handle,
                if old(self).chunks().contains_key(handle) {
                    ChunkMetadataView {
                        locations: add_location(old(self).chunks()[handle].locations, node_id@),
                        ..old(self).chunks()[handle]
                    }
                } else {
                    reported_chunk(node_id@)
                },
            ),
    {
        match chunk_map_get(&self.inner, handle) {
            Some(mut meta) => {
                if !contains_string(&meta.locations, &node_id) {
                    meta.locations.push(node_id);
                    proof {
                        assert(strings_view(meta.locations@) =~= add_location(old(self).chunks()[handle].locations, node_id@));
                    }
                }
                chunk_map_insert(&mut self.inner, handle, meta);
            },
            None => {
                let mut locations: Vec<String> = Vec::new();
                locations.push(node_id);
                let meta = ChunkMetadata {
                    version: 1,
                    locations,
                    primary: None,
                    lease_expiry: None,
                    pending_delete: false,
                };
                proof {
                    assert(meta@.locations =~= seq![node_id@]);
                }
                chunk_map_insert(&mut self.inner, handle, meta);
            },
        }
        proof {
            assert forall|h: u64| #[trigger] self.chunks().contains_key(h) implies self.chunks()[h].locations.no_duplicates() by {
                if h == handle && old(self).chunks().contains_key(handle) {
                    let l = old(self).chunks()[handle].locations;
                    if !l.contains(node_id@) {
                        assert forall|a: int, b: int| 0 <= a < b < l.push(node_id@).len() implies l.push(node_id@)[a] != l.push(node_id@)[b] by {
                            if b == l.len() {
                                assert(l[a] == l.push(node_id@)[a]);
                            }
                        }
                    }
                }
            }
        }
    }

    /// Makes `primary` the lease holder of `handle` for `duration_ms` from the
    /// current time on the table's monotonic clock; false (and no change) if the table lacks `handle`. An
    /// expiry beyond `u64::MAX` milliseconds is capped there.
    pub fn grant_lease(&mut self, handle: u64, primary: String, duration_ms: u64) -> (granted: bool)
        requires
            old(self).wf(),
        ensures
            final(self).wf(),
            final(self).next_handle_spec() == old(self).next_handle_spec(),
            granted == old(self).chunks().contains_key(handle),
            !granted ==> final(self).chunks() == old(self).chunks(),
            granted ==> exists|now: u64| #[trigger] leased(old(self).chunks(), handle, primary@, capped_expiry(now, duration_ms))
                == final(self).chunks(),
    {
        let now = self.clock.now_millis();
        let d = if duration_ms <= u64::MAX - now { duration_ms } else { u64::MAX - now };
        let r = self.grant_lease_at(handle, primary, d, now);
        proof {
            if r {
                assert(leased(old(self).chunks(), handle, primary@, capped_expiry(now, duration_ms)) == final(self).chunks());
            }
        }
        r
    }

    /// Makes `primary` the lease holder of `handle` until `now + duration_ms`;
    /// false (and no change) if the table lacks `handle`.
    pub fn grant_lease_at(&mut self, handle: u64, primary: String, duration_ms: u64, now: u64) -> (granted: bool)
        requires
            old(self).wf(),
            now + duration_ms <= u64::MAX,
        ensures
            final(self).wf(),
            final(self).next_handle_spec() == old(self).next_handle_spec(),
            granted == old(self).chunks().contains_key(handle),
            !granted ==> final(self).chunks() == old(self).chunks(),
            granted ==> final(self).chunks() == old(self).chunks().insert(
                handle,
                ChunkMetadataView {
                    primary: Some(primary@),
                    lease_expiry: Some((now + duration_ms) as u64),
                    ..old(self).chunks()[handle]
                },
            ),
    {
        match chunk_map_get(&self.inner, handle) {
            Some(mut meta) => {
                meta.primary = Some(primary);
                meta.lease_expiry = Some(now + duration_ms);
                chunk_map_insert(&mut self.inner, handle, meta);
                true
            },
            None => false,
        }
    }

    /// The number of chunks.
    pub fn len(&self) -> (n: usize)
        ensures
            n == self.chunks().dom().len(),
    {
        chunk_map_len(&self.inner)
    }

    /// Whether the table has no chunks.
    pub fn is_empty(&self) -> (b: bool)
        ensures
            b == (self.chunks().dom().len() == 0),
    {
        chunk_map_len(&self.inner) == 0
    }
}

/// What the master knows of a chunk server. `last_heartbeat` is in
/// milliseconds since the Unix epoch.
#[derive(Debug)]
pub struct NodeState {
    pub last_heartbeat: u64,
    pub free_bytes: u64,
    pub used_bytes: u64,
    pub addr: String,
}

/// What a node state stands for.
pub struct NodeStateView {
    pub last_heartbeat: u64,
    pub free_bytes: u64,
    pub used_bytes: u64,
    pub addr: Seq<char>,
}

impl View for NodeState {
    type V = NodeStateView;

    open spec fn view(&self) -> NodeStateView {
        NodeStateView {
            last_heartbeat: self.last_heartbeat,
            free_bytes: self.free_bytes,
            used_bytes: self.used_bytes,
            addr: self.addr@,
        }
    }
}

impl Clone for NodeState {
    fn clone(&self) -> (r: Self)
        ensures
            r@ == self@,
    {
        NodeState {
            last_heartbeat: self.last_heartbeat,
            free_bytes: self.free_bytes,
            used_bytes: self.used_bytes,
            addr: self.addr.clone(),
        }
    }
}

/// A node paired with its state.
pub type NodeEntry = (String, NodeState);

/// The node identifiers of a sequence of entries.
pub open spec fn node_ids(s: Seq<NodeEntry>) -> Seq<Seq<char>> {
    s.map_values(|e: NodeEntry| e.0@)
}

/// Milliseconds elapsed from `since` to `now`, zero if `since` is later.
pub open spec fn elapsed(now: u64, since: u64) -> int {
    if now >= since { now - since } else { 0 }
}

/// A node is live when its last heartbeat is less than `timeout` ago.
pub open spec fn is_live(n: NodeStateView, now: u64, timeout: u64) -> bool {
    elapsed(now, n.last_heartbeat) < timeout
}

/// A node's capacity: free plus used bytes.
pub open spec fn total_bytes(n: NodeStateView) -> int {
    n.free_bytes + n.used_bytes
}

/// Placement order: the smaller used fraction `used / (free + used)` first
/// (a node without capacity counts as empty). Nodes with equal fractions are
/// equally placed; their relative order is left open.
pub open spec fn load_le(a: NodeStateView, b: NodeStateView) -> bool {
    if total_bytes(a) == 0 {
        true
    } else if total_bytes(b) == 0 {
        a.used_bytes == 0
    } else {
        a.used_bytes * total_bytes(b) <= b.used_bytes * total_bytes(a)
    }
}

/// Comparing fractions by cross-multiplying totals is the same as
/// cross-multiplying free bytes.
proof fn lemma_cross_free(ua: int, fa: int, ub: int, fb: int)
    by (nonlinear_arith)
    ensures
        (ua * (ub + fb) <= ub * (ua + fa)) == (ua * fb <= ub * fa),
{
}

/// Cross-multiplied fractions compare transitively through a positive middle.
proof fn lemma_cross_transitive(ua: int, ta: int, ub: int, tb: int, uc: int, tc: int)
    by (nonlinear_arith)
    requires
        ta > 0,
        tb > 0,
        tc > 0,
        ua >= 0,
        ub >= 0,
        uc >= 0,
        ua * tb <= ub * ta,
        ub * tc <= uc * tb,
    ensures
        ua * tc <= uc * ta,
{
    assert(ua * tb * tc <= ub * ta * tc);
    assert(ub * tc * ta <= uc * tb * ta);
}

/// The placement order is total and transitive.
pub proof fn lemma_load_order(a: NodeStateView, b: NodeStateView, c: NodeStateView)
    ensures
        load_le(a, b) || load_le(b, a),
        load_le(a, b) && load_le(b, c) ==> load_le(a, c),
{
    let (ta, tb, tc) = (total_bytes(a), total_bytes(b), total_bytes(c));
    if ta > 0 && tb > 0 && tc > 0 && load_le(a, b) && load_le(b, c) {
        lemma_cross_transitive(a.used_bytes as int, ta, b.used_bytes as int, tb, c.used_bytes as int, tc);
    }
    if ta > 0 && tb == 0 && load_le(a, b) && load_le(b, c) && tc > 0 {
        assert(a.used_bytes == 0);
        assert(0 * tc <= c.used_bytes * ta) by (nonlinear_arith)
            requires c.used_bytes >= 0, ta > 0;
    }
    if ta > 0 && tb > 0 && tc == 0 && load_le(a, b) && load_le(b, c) {
        assert(b.used_bytes == 0);
        assert(a.used_bytes * tb <= 0);
        assert(a.used_bytes == 0) by (nonlinear_arith)
            requires a.used_bytes * tb <= 0, tb > 0, a.used_bytes >= 0;
    }
}

/// A sequence of entries is in placement order.
pub open spec fn sorted_by_load(s: Seq<NodeEntry>) -> bool {
    forall|i: int, j: int| 0 <= i < j < s.len() ==> load_le(s[i].1@, s[j].1@)
}

/// The product of two 64-bit counts fits in 128 bits.
proof fn lemma_product_fits(x: u64, y: u64)
    ensures
        x * y <= u128::MAX,
{
    assert(x * y <= u128::MAX) by (nonlinear_arith)
        requires
            x <= 18446744073709551615u64,
            y <= 18446744073709551615u64,
    {
        assert(x * y <= 18446744073709551615 * 18446744073709551615int);
    }
}

/// Whether `a` goes strictly before `b` in placement order.
fn strictly_less_loaded(a: &NodeState, b: &NodeState) -> (r: bool)
    ensures
        r == !load_le(b@, a@),
{
    let ta = a.free_bytes as u128 + a.used_bytes as u128;
    let tb = b.free_bytes as u128 + b.used_bytes as u128;
    if tb == 0 {
        false
    } else if ta == 0 {
        b.used_bytes != 0
    } else {
        proof {
            lemma_product_fits(b.used_bytes, a.free_bytes);
            lemma_product_fits(a.used_bytes, b.free_bytes);
            lemma_cross_free(b.used_bytes as int, b.free_bytes as int, a.used_bytes as int, a.free_bytes as int);
        }
        let lhs = b.used_bytes as u128 * a.free_bytes as u128;
        let rhs = a.used_bytes as u128 * b.free_bytes as u128;
        !(lhs <= rhs)
    }
}

/// The position of a least-loaded entry whose node is not one of `held`, if
/// any: every other such entry is at least as loaded. Of equally loaded
/// entries the first is taken.
pub fn least_loaded_outside(entries: &Vec<NodeEntry>, held: &Vec<String>) -> (r: Option<usize>)
    ensures
        r is None <==> forall|i: int| 0 <= i < entries@.len() ==> strings_view(held@).contains(#[trigger] entries@[i].0@),
        r matches Some(b) ==> {
            &&& b < entries@.len()
            &&& !strings_view(held@).contains(entries@[b as int].0@)
            &&& forall|i: int| 0 <= i < entries@.len() && !strings_view(held@).contains(#[trigger] entries@[i].0@)
                ==> load_le(entries@[b as int].1@, entries@[i].1@)
        },
{
    let n = entries.len();
    let mut best: Option<usize> = None;
    let mut i: usize = 0;
    while i < n
        invariant
            n == entries@.len(),
            i <= n,
            best is None <==> forall|j: int| 0 <= j < i ==> strings_view(held@).contains(#[trigger] entries@[j].0@),
            best matches Some(b) ==> {
                &&& b < i
                &&& !strings_view(held@).contains(entries@[b as int].0@)
                &&& forall|j: int| 0 <= j < i && !strings_view(held@).contains(#[trigger] entries@[j].0@)
                    ==> load_le(entries@[b as int].1@, entries@[j].1@)
            },
        decreases n - i,
    {
        if !contains_string(held, &entries[i].0) {
            match best {
                None => {
                    proof {
                        lemma_load_order(entries@[i as int].1@, entries@[i as int].1@, entries@[i as int].1@);
                    }
                    best = Some(i);
                },
                Some(b) => {
                    if strictly_less_loaded(&entries[i].1, &entries[b].1) {
                        proof {
                            let (x, y) = (entries@[i as int].1@, entries@[b as int].1@);
                            lemma_load_order(x, y, y);
                            assert forall|j: int| 0 <= j < i + 1 && !strings_view(held@).contains(#[trigger] entries@[j].0@)
                                implies load_le(x, entries@[j].1@) by {
                                lemma_load_order(x, y, entries@[j].1@);
                                lemma_load_order(x, x, x);
                            }
                        }
                        best = Some(i);
                    }
                },
            }
        }
        i = i + 1;
    }
    best
}

/// Copies a node entry.
fn clone_entry(e: &NodeEntry) -> (r: NodeEntry)
    ensures
        r.0@ == e.0@,
        r.1@ == e.1@,
{
    (e.0.clone(), e.1.clone())
}

/// Two entries name the same node with the same state.
pub open spec fn same_entry(a: NodeEntry, b: NodeEntry) -> bool {
    a.0@ == b.0@ && a.1@ == b.1@
}

/// An entry equal to `e` occurs in `v`.
pub open spec fn entry_in(e: NodeEntry, v: Seq<NodeEntry>) -> bool {
    exists|j: int| 0 <= j < v.len() && #[trigger] same_entry(e, v[j])
}

/// Orders entries by placement order, keeping the relative order of equals.
pub fn sort_by_load(v: Vec<NodeEntry>) -> (r: Vec<NodeEntry>)
    ensures
        sorted_by_load(r@),
        r@.len() == v@.len(),
        node_ids(r@).to_multiset() == node_ids(v@).to_multiset(),
        node_ids(r@).to_set() == node_ids(v@).to_set(),
        node_ids(v@).no_duplicates() ==> node_ids(r@).no_duplicates(),
        forall|i: int| 0 <= i < r@.len() ==> entry_in(#[trigger] r@[i], v@),
{
    broadcast use vstd::seq_lib::group_to_multiset_ensures;
    let mut r: Vec<NodeEntry> = Vec::new();
    let n = v.len();
    let mut i: usize = 0;
    while i < n
        invariant
            n == v@.len(),
            i <= n,
            r@.len() == i,
            sorted_by_load(r@),
            node_ids(r@).to_multiset() == node_ids(v@.take(i as int)).to_multiset(),
            forall|a: int| 0 <= a < r@.len() ==> entry_in(#[trigger] r@[a], v@),
        decreases n - i,
    {
        let x = clone_entry(&v[i]);
        let m = r.len();
        let mut p: usize = 0;
        while p < m && !strictly_less_loaded(&x.1, &r[p].1)
            invariant
                m == r@.len(),
                p <= m,
                forall|q: int| 0 <= q < p ==> load_le(r@[q].1@, x.1@),
            decreases m - p,
        {
            proof {
                lemma_load_order(r@[p as int].1@, x.1@, x.1@);
            }
            p = p + 1;
        }
        let ghost old_r = r@;
        r.insert(p, x);
        proof {
            assert(r@ == old_r.insert(p as int, x));
            assert forall|a: int, b: int| 0 <= a < b < r@.len() implies load_le(r@[a].1@, r@[b].1@) by {
                if a < p && b < p {
                    assert(r@[a] == old_r[a] && r@[b] == old_r[b]);
                } else if a < p && b == p {
                } else if a < p {
                    assert(r@[a] == old_r[a] && r@[b] == old_r[b - 1]);
                    lemma_load_order(old_r[a].1@, x.1@, old_r[b - 1].1@);
                    if p < m {
                        lemma_load_order(x.1@, old_r[p as int].1@, old_r[b - 1].1@);
                        lemma_load_order(old_r[p as int].1@, x.1@, x.1@);
                    }
                    assert(load_le(old_r[a].1@, old_r[b - 1].1@));
                } else if a == p {
                    assert(r@[b] == old_r[b - 1]);
                    lemma_load_order(old_r[p as int].1@, x.1@, x.1@);
                    lemma_load_order(x.1@, old_r[p as int].1@, old_r[b - 1].1@);
                } else {
                    assert(r@[a] == old_r[a - 1] && r@[b] == old_r[b - 1]);
                }
            }
            assert(node_ids(r@) =~= node_ids(old_r).insert(p as int, x.0@));
            assert(v@.take(i + 1) =~= v@.take(i as int).push(v@[i as int]));
            assert(node_ids(v@.take(i + 1)) =~= node_ids(v@.take(i as int)).push(x.0@));
            vstd::seq_lib::to_multiset_insert(node_ids(old_r), p as int, x.0@);
            vstd::seq_lib::to_multiset_build(node_ids(v@.take(i as int)), x.0@);
            assert forall|a: int| 0 <= a < r@.len() implies entry_in(#[trigger] r@[a], v@) by {
                if a < p {
                    assert(r@[a] == old_r[a]);
                } else if a == p {
                    assert(same_entry(r@[a], v@[i as int]));
                } else {
                    assert(r@[a] == old_r[a - 1]);
                }
            }
        }
        i = i + 1;
    }
    proof {
        assert(v@.take(n as int) =~= v@);
        let a = node_ids(r@);
        let b = node_ids(v@);
        assert forall|k: Seq<char>| #[trigger] a.to_set().contains(k) == b.to_set().contains(k) by {
            vstd::seq_lib::to_multiset_contains(a, k);
            vstd::seq_lib::to_multiset_contains(b, k);
        }
        assert(a.to_set() =~= b.to_set());
        if b.no_duplicates() {
            b.lemma_multiset_has_no_duplicates();
            assert forall|k: Seq<char>| a.to_multiset().contains(k) implies a.to_multiset().count(k) == 1 by {
            }
            a.lemma_multiset_has_no_duplicates_conv();
        }
    }
    r
}

/// What the node registry's map holds: each node's state.
pub uninterp spec fn node_map_entries(m: DashMap<String, NodeState>) -> Map<Seq<char>, NodeStateView>;

/// `DashMap::new`: an empty map.
#[verifier::external_body]
fn node_map_new() -> (m: DashMap<String, NodeState>)
    ensures
        node_map_entries(m) =~= Map::empty(),
{
    DashMap::new()
}

/// `DashMap::insert`: maps `node` to `state`, replacing any earlier value.
#[verifier::external_body]
fn node_map_insert(m: &mut DashMap<String, NodeState>, node: String, state: NodeState)
    ensures
        node_map_entries(*final(m)) == node_map_entries(*old(m)).insert(node@, state@),
{
    m.insert(node, state);
}

/// `DashMap::get`, the value cloned out: the state of `node`, if any.
#[verifier::external_body]
fn node_map_get(m: &DashMap<String, NodeState>, node: &String) -> (r: Option<NodeState>)
    ensures
        r is Some <==> node_map_entries(*m).contains_key(node@),
        r matches Some(state) ==> state@ == node_map_entries(*m)[node@],
{
    m.get(node).map(|e| e.value().clone())
}

/// `DashMap::remove`: drops the entry of `node`, if any.
#[verifier::external_body]
fn node_map_remove(m: &mut DashMap<String, NodeState>, node: &String)
    ensures
        node_map_entries(*final(m)) == node_map_entries(*old(m)).remove(node@),
{
    m.remove(node);
}

/// `DashMap::iter`, each entry cloned out: every node with its state, once
/// each, in the map's iteration order (which is not stated).
#[verifier::external_body]
fn node_map_snapshot(m: &DashMap<String, NodeState>) -> (r: Vec<NodeEntry>)
    ensures
        node_ids(r@).no_duplicates(),
        forall|i: int| 0 <= i < r@.len() ==> node_map_entries(*m).contains_key(#[trigger] r@[i].0@) && r@[i].1@ == node_map_entries(*m)[r@[i].0@],
        forall|k: Seq<char>| #[trigger] node_map_entries(*m).contains_key(k) ==> node_ids(r@).contains(k),
{
    m.iter().map(|e| (e.key().clone(), e.value().clone())).collect()
}

/// The registry of chunk servers that have sent heartbeats.
pub struct NodeRegistry {
    inner: DashMap<String, NodeState>,
    clock: MonotonicClock,
}

/// The identifiers of the nodes that are live at `now`.
pub open spec fn live_ids(nodes: Map<Seq<char>, NodeStateView>, now: u64, timeout: u64) -> Set<Seq<char>> {
    nodes.dom().filter(|k: Seq<char>| is_live(nodes[k], now, timeout))
}

/// The state recorded for a heartbeat received at `now`.
pub open spec fn heard(now: u64, free_bytes: u64, used_bytes: u64, addr: Seq<char>) -> NodeStateView {
    NodeStateView { last_heartbeat: now, free_bytes, used_bytes, addr }
}

/// `r` is what picking `count` least-loaded live nodes at `now` gives: as
/// many live nodes as asked for (all if fewer), each once, in placement order,
/// none more loaded than a live node left out.
pub open spec fn least_loaded(nodes: Map<Seq<char>, NodeStateView>, count: usize, now: u64, timeout: u64, r: Seq<NodeEntry>) -> bool {
    let live = live_ids(nodes, now, timeout);
    &&& live.finite()
    &&& r.len() == (if count < live.len() { count as int } else { live.len() as int })
    &&& node_ids(r).no_duplicates()
    &&& sorted_by_load(r)
    &&& forall|i: int| 0 <= i < r.len() ==> {
        &&& live.contains(#[trigger] r[i].0@)
        &&& r[i].1@ == nodes[r[i].0@]
    }
    &&& forall|k: Seq<char>, i: int| #[trigger] live.contains(k) && !node_ids(r).contains(k) && 0 <= i < r.len()
        ==> load_le(#[trigger] r[i].1@, nodes[k])
}

impl Default for NodeRegistry {
    /// An empty registry.
    fn default() -> (r: Self)
        ensures
            r.nodes() == Map::<Seq<char>, NodeStateView>::empty(),
    {
        NodeRegistry { inner: node_map_new(), clock: MonotonicClock::start() }
    }
}

impl NodeRegistry {
    /// Each known node's state.
    pub closed spec fn nodes(&self) -> Map<Seq<char>, NodeStateView> {
        node_map_entries(self.inner)
    }

    /// An empty registry.
    pub fn new() -> (r: Self)
        ensures
            r.nodes() == Map::<Seq<char>, NodeStateView>::empty(),
    {
        NodeRegistry { inner: node_map_new(), clock: MonotonicClock::start() }
    }

    /// An empty registry that measures heartbeat ages on `clock`.
    pub fn with_clock(clock: MonotonicClock) -> (r: Self)
        ensures
            r.nodes() == Map::<Seq<char>, NodeStateView>::empty(),
    {
        NodeRegistry { inner: node_map_new(), clock }
    }

    /// Records a heartbeat of `node_id` at the current time on the registry's
    /// monotonic clock.
    pub fn record_heartbeat(&mut self, node_id: String, addr: String, free_bytes: u64, used_bytes: u64)
        ensures
            exists|now: u64| final(self).nodes() == old(self).nodes().insert(
                node_id@,
                #[trigger] heard(now, free_bytes, used_bytes, addr@),
            ),
    {
        let now = self.clock.now_millis();
        let ghost a = addr@;
        let ghost id = node_id@;
        self.record_heartbeat_at(node_id, addr, free_bytes, used_bytes, now);
        proof {
            assert(final(self).nodes() == old(self).nodes().insert(id, heard(now, free_bytes, used_bytes, a)));
        }
    }

    /// Records a heartbeat of `node_id` received at time `now`.
    pub fn record_heartbeat_at(&mut self, node_id: String, addr: String, free_bytes: u64, used_bytes: u64, now: u64)
        ensures
            final(self).nodes() == old(self).nodes().insert(
                node_id@,
                NodeStateView { last_heartbeat: now, free_bytes, used_bytes, addr: addr@ },
            ),
    {
        let state = NodeState { last_heartbeat: now, free_bytes, used_bytes, addr };
        node_map_insert(&mut self.inner, node_id, state);
    }

    /// The state of `node_id`, if known.
    pub fn get(&self, node_id: &String) -> (r: Option<NodeState>)
        ensures
            r is Some <==> self.nodes().contains_key(node_id@),
            r matches Some(state) ==> state@ == self.nodes()[node_id@],
    {
        node_map_get(&self.inner, node_id)
    }

    /// The `count` least loaded nodes that are live at the current time on the registry's monotonic clock (all
    /// of them if fewer), in placement order.
    pub fn pick_least_loaded(&self, count: usize, timeout_ms: u64) -> (r: Vec<NodeEntry>)
        ensures
            exists|now: u64| #[trigger] least_loaded(self.nodes(), count, now, timeout_ms, r@),
    {
        let now = self.clock.now_millis();
        let r = self.pick_least_loaded_at(count, now, timeout_ms);
        proof {
            assert(least_loaded(self.nodes(), count, now, timeout_ms, r@));
        }
        r
    }

    /// The `count` least loaded nodes that are live at `now` (all of them if
    /// fewer), in placement order: the smaller used fraction
    /// `used / (free + used)` first.
    pub fn pick_least_loaded_at(&self, count: usize, now: u64, timeout_ms: u64) -> (r: Vec<NodeEntry>)
        ensures
            live_ids(self.nodes(), now, timeout_ms).finite(),
            r@.len() == (if count < live_ids(self.nodes(), now, timeout_ms).len() { count as int } else { live_ids(self.nodes(), now, timeout_ms).len() as int }),
            node_ids(r@).no_duplicates(),
            sorted_by_load(r@),
            forall|i: int| 0 <= i < r@.len() ==> {
                &&& live_ids(self.nodes(), now, timeout_ms).contains(#[trigger] r@[i].0@)
                &&& r@[i].1@ == self.nodes()[r@[i].0@]
            },
            forall|k: Seq<char>, i: int| #[trigger] live_ids(self.nodes(), now, timeout_ms).contains(k) && !node_ids(r@).contains(k) && 0 <= i < r@.len()
                ==> load_le(#[trigger] r@[i].1@, self.nodes()[k]),
    {
        let live = self.get_live_nodes_at(now, timeout_ms);
        let mut sorted = sort_by_load(live);
        let ghost full = sorted@;
        let ghost lset = live_ids(self.nodes(), now, timeout_ms);
        proof {
            node_ids(full).unique_seq_to_set();
            assert forall|i: int| 0 <= i < full.len() implies {
                &&& lset.contains(#[trigger] full[i].0@)
                &&& full[i].1@ == self.nodes()[full[i].0@]
            } by {
                assert(entry_in(full[i], live@));
                let j = choose|j: int| 0 <= j < live@.len() && #[trigger] same_entry(full[i], live@[j]);
                assert(node_ids(live@)[j] == full[i].0@);
                assert(node_ids(full).to_set().contains(full[i].0@)) by {
                    assert(node_ids(full)[i] == full[i].0@);
                }
            }
        }
        if count < sorted.len() {
            sorted.truncate(count);
        }
        proof {
            let r = sorted@;
            assert(r =~= full.take(r.len() as int));
            assert(node_ids(r).no_duplicates()) by {
                assert forall|a: int, b: int| 0 <= a < node_ids(r).len() && 0 <= b < node_ids(r).len() && a != b
                    implies node_ids(r)[a] != node_ids(r)[b] by {
                    assert(node_ids(r)[a] == node_ids(full)[a]);
                    assert(node_ids(r)[b] == node_ids(full)[b]);
                }
            }
            assert forall|i: int| 0 <= i < r.len() implies {
                &&& lset.contains(#[trigger] r[i].0@)
                &&& r[i].1@ == self.nodes()[r[i].0@]
            } by {
                assert(r[i] == full[i]);
            }
            assert forall|k: Seq<char>, i: int| #[trigger] lset.contains(k) && !node_ids(r).contains(k) && 0 <= i < r.len()
                implies load_le(#[trigger] r[i].1@, self.nodes()[k]) by {
                assert(node_ids(full).to_set().contains(k));
                let j = choose|j: int| 0 <= j < node_ids(full).len() && node_ids(full)[j] == k;
                if j < r.len() {
                    assert(node_ids(r)[j] == k);
                }
                assert(r[i] == full[i]);
                assert(full[j].0@ == k);
            }
        }
        sorted
    }

    /// Removes every node whose last heartbeat is not less than `timeout_ms`
    /// before `now`.
    pub fn retain_live_at(&mut self, now: u64, timeout_ms: u64)
        ensures
            final(self).nodes() == old(self).nodes().restrict(live_ids(old(self).nodes(), now, timeout_ms)),
    {
        let all = node_map_snapshot(&self.inner);
        let ghost start = self.nodes();
        let ghost live = live_ids(start, now, timeout_ms);
        let n = all.len();
        let mut i: usize = 0;
        while i < n
            invariant
                n == all@.len(),
                i <= n,
                start == old(self).nodes(),
                live == live_ids(start, now, timeout_ms),
                forall|a: int| 0 <= a < all@.len() ==> start.contains_key(#[trigger] all@[a].0@) && all@[a].1@ == start[all@[a].0@],
                forall|k: Seq<char>| #[trigger] start.contains_key(k) ==> node_ids(all@).contains(k),
                self.nodes().dom().subset_of(start.dom()),
                forall|k: Seq<char>| #[trigger] self.nodes().contains_key(k) ==> self.nodes()[k] == start[k],
                forall|k: Seq<char>| start.contains_key(k) && live.contains(k) ==> #[trigger] self.nodes().contains_key(k),
                forall|a: int| 0 <= a < i && !live.contains(#[trigger] all@[a].0@) ==> !self.nodes().contains_key(all@[a].0@),
            decreases n - i,
        {
            let e = &all[i];
            let since = e.1.last_heartbeat;
            let dead = if now >= since { now - since >= timeout_ms } else { 0 >= timeout_ms };
            if dead {
                proof {
                    assert(!is_live(start[e.0@], now, timeout_ms));
                    assert(!live.contains(e.0@));
                }
                node_map_remove(&mut self.inner, &e.0);
            }
            i = i + 1;
        }
        proof {
            assert forall|k: Seq<char>| #[trigger] self.nodes().contains_key(k) <==> start.restrict(live).contains_key(k) by {
                if start.contains_key(k) && !live.contains(k) {
                    let a = choose|a: int| 0 <= a < node_ids(all@).len() && node_ids(all@)[a] == k;
                    assert(all@[a].0@ == k);
                }
                if self.nodes().contains_key(k) {
                    assert(start.contains_key(k));
                    if !live.contains(k) {
                        let a = choose|a: int| 0 <= a < node_ids(all@).len() && node_ids(all@)[a] == k;
                        assert(all@[a].0@ == k);
                    }
                }
            }
            assert(self.nodes() =~= start.restrict(live));
        }
    }

    /// The nodes whose last heartbeat is less than `timeout_ms` before the
    /// current time on the registry's monotonic clock, each once, in no stated order.
    pub fn get_live_nodes(&self, timeout_ms: u64) -> (r: Vec<NodeEntry>)
        ensures
            node_ids(r@).no_duplicates(),
            exists|now: u64| node_ids(r@).to_set() == #[trigger] live_ids(self.nodes(), now, timeout_ms),
            forall|i: int| 0 <= i < r@.len() ==> self.nodes().contains_key(#[trigger] r@[i].0@) && r@[i].1@ == self.nodes()[r@[i].0@],
    {
        let now = self.clock.now_millis();
        let r = self.get_live_nodes_at(now, timeout_ms);
        proof {
            assert(node_ids(r@).to_set() == live_ids(self.nodes(), now, timeout_ms));
        }
        r
    }

    /// The nodes whose last heartbeat is less than `timeout_ms` before `now`,
    /// each once, in no stated order.
    pub fn get_live_nodes_at(&self, now: u64, timeout_ms: u64) -> (r: Vec<NodeEntry>)
        ensures
            node_ids(r@).no_duplicates(),
            node_ids(r@).to_set() == live_ids(self.nodes(), now, timeout_ms),
            forall|i: int| 0 <= i < r@.len() ==> self.nodes().contains_key(#[trigger] r@[i].0@) && r@[i].1@ == self.nodes()[r@[i].0@],
    {
        let all = node_map_snapshot(&self.inner);
        let mut r: Vec<NodeEntry> = Vec::new();
        let n = all.len();
        let mut i: usize = 0;
        let ghost mut src: Seq<int> = Seq::empty();
        while i < n
            invariant
                n == all@.len(),
                i <= n,
                node_ids(all@).no_duplicates(),
                forall|a: int| 0 <= a < all@.len() ==> self.nodes().contains_key(#[trigger] all@[a].0@) && all@[a].1@ == self.nodes()[all@[a].0@],
                forall|k: Seq<char>| #[trigger] self.nodes().contains_key(k) ==> node_ids(all@).contains(k),
                src.len() == r@.len(),
                forall|a: int| 0 <= a < src.len() ==> 0 <= #[trigger] src[a] < i,
                forall|a: int, b: int| 0 <= a < b < src.len() ==> src[a] < src[b],
                forall|a: int| 0 <= a < src.len() ==> r@[a].0@ == all@[#[trigger] src[a]].0@ && r@[a].1@ == all@[src[a]].1@,
                forall|a: int| 0 <= a < r@.len() ==> is_live(#[trigger] r@[a].1@, now, timeout_ms),
                forall|j: int| 0 <= j < i && is_live(#[trigger] all@[j].1@, now, timeout_ms) ==> exists|a: int| 0 <= a < src.len() && src[a] == j,
            decreases n - i,
        {
            let ghost old_src = src;
            let e = &all[i];
            let since = e.1.last_heartbeat;
            let el: u64 = if now >= since { now - since } else { 0 };
            if el < timeout_ms {
                r.push(clone_entry(e));
                proof {
                    src = src.push(i as int);
                }
            }
            proof {
                assert forall|j: int| 0 <= j < i + 1 && is_live(#[trigger] all@[j].1@, now, timeout_ms) implies exists|a: int| 0 <= a < src.len() && src[a] == j by {
                    if j == i {
                        assert(src[src.len() - 1] == j);
                    } else {
                        let a = choose|a: int| 0 <= a < old_src.len() && old_src[a] == j;
                        assert(src[a] == j);
                    }
                }
            }
            i = i + 1;
        }
        proof {
            assert forall|a: int| 0 <= a < r@.len() implies self.nodes().contains_key(#[trigger] r@[a].0@) && r@[a].1@ == self.nodes()[r@[a].0@] by {
                assert(r@[a].0@ == all@[src[a]].0@);
            }
            assert(node_ids(r@).no_duplicates()) by {
                assert forall|a: int, b: int| 0 <= a < node_ids(r@).len() && 0 <= b < node_ids(r@).len() && a != b
                    implies node_ids(r@)[a] != node_ids(r@)[b] by {
                    assert(src[a] != src[b]);
                    assert(node_ids(all@)[src[a]] != node_ids(all@)[src[b]]);
                }
            }
            assert forall|k: Seq<char>| #[trigger] node_ids(r@).to_set().contains(k) == live_ids(self.nodes(), now, timeout_ms).contains(k) by {
                if node_ids(r@).contains(k) {
                    let a = choose|a: int| 0 <= a < node_ids(r@).len() && node_ids(r@)[a] == k;
                    assert(r@[a].0@ == k);
                }
                if live_ids(self.nodes(), now, timeout_ms).contains(k) {
                    assert(node_ids(all@).contains(k));
                    let j = choose|j: int| 0 <= j < node_ids(all@).len() && node_ids(all@)[j] == k;
                    assert(all@[j].0@ == k);
                    let a = choose|a: int| 0 <= a < src.len() && src[a] == j;
                    assert(node_ids(r@)[a] == k);
                }
            }
            assert(node_ids(r@).to_set() =~= live_ids(self.nodes(), now, timeout_ms));
        }
        r
    }
}

} // verus!
