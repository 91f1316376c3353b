//! The master's request handling: chunk-server heartbeats and leases, client
//! namespace and chunk-placement requests, and replica maintenance.
use vstd::prelude::*;
use vstd::string::*;
use dashmap::DashMap;
use crate::clock::{MonotonicClock, unix_millis_now};
use crate::chunk_table::{
    ChunkMetadata, ChunkMetadataView, ChunkTable, NodeEntry, NodeRegistry, NodeStateView, add_location,
    reported_chunk, leased, contains_string, live_ids, load_le, node_ids, strings_view, opt_string_view,
    least_loaded_outside,
};
use crate::namespace::{Entry, FileMetadata, FileMetadataView, Namespace, NamespaceError, has_key, key_at, root_only};
use crate::path::{ComponentView, GfsPath, PathView, is_direct_child, std_path_components};
use crate::proto::{
    AllocateChunkRequest, ChunkHandle, ChunkLocation, ChunkLocationView, ChunkLocationsResponse, ChunkReport,
    ChunkVersion, CommandType, CreateFileRequest, CreateFileResponse, DeleteChunkCommand, Empty, FileInfo,
    CloneToCommand, HeartbeatRequest, HeartbeatResponse, LeaseRequest, LeaseResponse, ListDirectoryResponse, MasterCommand,
    MasterCommandPayload, NodeId, PathRequest, RpcCode, RpcStatus, Timestamp, locations_view,
};
use crate::text::{decimal_text, u64_to_decimal};

verus! {

/// Replicas a chunk should have.
pub const REPLICATION_FACTOR: usize = 3;

/// A node whose last heartbeat is this old (20 s) counts as dead.
pub const HEARTBEAT_TIMEOUT_MS: u64 = 20000;

/// How long a primary's lease lasts by default (60 s).
pub const DEFAULT_LEASE_MS: u64 = 60000;

/// What the command queue's map holds: each node's undelivered commands.
pub uninterp spec fn command_map_entries(m: DashMap<String, Vec<MasterCommand>>) -> Map<Seq<char>, Seq<MasterCommand>>;

/// `DashMap::new`: an empty map.
#[verifier::external_body]
fn command_map_new() -> (m: DashMap<String, Vec<MasterCommand>>)
    ensures
        command_map_entries(m) =~= Map::empty(),
{
    DashMap::new()
}

/// `DashMap::remove`: takes `node`'s entry out of the map, if any.
#[verifier::external_body]
fn command_map_remove(m: &mut DashMap<String, Vec<MasterCommand>>, node: &String) -> (r: Option<(String, Vec<MasterCommand>)>)
    ensures
        command_map_entries(*final(m)) == command_map_entries(*old(m)).remove(node@),
        r is Some <==> command_map_entries(*old(m)).contains_key(node@),
        r matches Some(e) ==> e.0@ == node@ && e.1@ == command_map_entries(*old(m))[node@],
{
    m.remove(node)
}

/// `DashMap::insert`: maps `node` to `cmds`, replacing any earlier value.
#[verifier::external_body]
fn command_map_insert(m: &mut DashMap<String, Vec<MasterCommand>>, node: String, cmds: Vec<MasterCommand>)
    ensures
        command_map_entries(*final(m)) == command_map_entries(*old(m)).insert(node@, cmds@),
{
    m.insert(node, cmds);
}

/// The command telling a chunk server to copy chunk `h` to `target`.
pub open spec fn clone_command(h: u64, target: ChunkLocation) -> MasterCommand {
    MasterCommand {
        command_type: CommandType::CloneTo,
        payload: Some(MasterCommandPayload::CloneTo(CloneToCommand { handle: Some(ChunkHandle { id: h }), target: Some(target) })),
    }
}

/// Whether `c` tells a chunk server to copy chunk `h` somewhere.
pub open spec fn is_clone_for(c: MasterCommand, h: u64) -> bool {
    c.payload matches Some(MasterCommandPayload::CloneTo(cc)) && cc.handle == Some(ChunkHandle { id: h })
}

/// Whether one of `cmds` tells a chunk server to copy chunk `h`.
pub open spec fn has_clone_for(cmds: Seq<MasterCommand>, h: u64) -> bool {
    exists|i: int| 0 <= i < cmds.len() && is_clone_for(#[trigger] cmds[i], h)
}

/// Whether `c` copies chunk `h`.
fn clones_chunk(c: &MasterCommand, h: u64) -> (r: bool)
    ensures
        r == is_clone_for(*c, h),
{
    match &c.payload {
        Some(MasterCommandPayload::CloneTo(cc)) => match cc.handle {
            Some(ch) => ch.id == h,
            None => false,
        },
        _ => false,
    }
}

/// Whether one of `cmds` copies chunk `h`.
fn any_clone_for(cmds: &Vec<MasterCommand>, h: u64) -> (r: bool)
    ensures
        r == has_clone_for(cmds@, h),
{
    let n = cmds.len();
    let mut i: usize = 0;
    while i < n
        invariant
            n == cmds@.len(),
            i <= n,
            forall|j: int| 0 <= j < i ==> !is_clone_for(#[trigger] cmds@[j], h),
        decreases n - i,
    {
        if clones_chunk(&cmds[i], h) {
            return true;
        }
        i = i + 1;
    }
    false
}

/// The chunk a copy command names (0 for any other command).
pub open spec fn cloned_handle(c: MasterCommand) -> u64 {
    match c.payload {
        Some(MasterCommandPayload::CloneTo(cc)) => match cc.handle {
            Some(h) => h.id,
            None => 0,
        },
        _ => 0,
    }
}

/// The first of `locs` that is live, if any: the node a chunk is copied from.
pub open spec fn first_live(locs: Seq<Seq<char>>, live: Set<Seq<char>>) -> Option<Seq<char>>
    decreases locs.len(),
{
    if locs.len() == 0 {
        None
    } else if live.contains(locs[0]) {
        Some(locs[0])
    } else {
        first_live(locs.drop_first(), live)
    }
}

/// Whether `t` may receive a copy of a chunk held at `locs`: a live node that
/// does not hold it, and no other such node is less loaded.
pub open spec fn is_clone_target(t: Seq<char>, locs: Seq<Seq<char>>, nodes: Map<Seq<char>, NodeStateView>, live: Set<Seq<char>>) -> bool {
    &&& live.contains(t)
    &&& !locs.contains(t)
    &&& forall|k: Seq<char>| #[trigger] live.contains(k) && !locs.contains(k) ==> load_le(nodes[t], nodes[k])
}

/// A chunk that should get another replica: fewer than `REPLICATION_FACTOR`
/// and not marked for deletion.
pub open spec fn under_replicated(m: ChunkMetadataView) -> bool {
    m.locations.len() < REPLICATION_FACTOR && !m.pending_delete
}

/// Whether `c`, waiting for `source`, is a copy the detector plans: it copies
/// an under-replicated chunk from its first live holder `source` to a
/// least-loaded live node that does not hold it, named with its address.
pub open spec fn planned_clone(
    chunks: Map<u64, ChunkMetadataView>,
    nodes: Map<Seq<char>, NodeStateView>,
    live: Set<Seq<char>>,
    source: Seq<char>,
    c: MasterCommand,
) -> bool {
    &&& c.command_type == CommandType::CloneTo
    &&& c.payload matches Some(MasterCommandPayload::CloneTo(cc))
    &&& cc.handle matches Some(h)
    &&& cc.target matches Some(loc)
    &&& loc.node matches Some(t)
    &&& chunks.contains_key(h.id)
    &&& under_replicated(chunks[h.id])
    &&& first_live(chunks[h.id].locations, live) == Some(source)
    &&& is_clone_target(t.value@, chunks[h.id].locations, nodes, live)
    &&& loc.grpc_addr@ == nodes[t.value@].addr
}

/// What waits for `k` in the queue `q`.
pub open spec fn waiting_for(q: Map<Seq<char>, Seq<MasterCommand>>, k: Seq<char>) -> Seq<MasterCommand> {
    if q.contains_key(k) { q[k] } else { Seq::empty() }
}

/// The queue `q` is `q0` with planned copies appended: each node keeps its
/// earlier commands first, and each command added copies a chunk that no
/// earlier command of that node copies.
pub open spec fn clones_appended(
    q0: Map<Seq<char>, Seq<MasterCommand>>,
    q: Map<Seq<char>, Seq<MasterCommand>>,
    chunks: Map<u64, ChunkMetadataView>,
    nodes: Map<Seq<char>, NodeStateView>,
    live: Set<Seq<char>>,
) -> bool {
    &&& q0.dom().subset_of(q.dom())
    &&& forall|k: Seq<char>| #[trigger] q.contains_key(k) ==> {
        &&& waiting_for(q0, k).len() <= q[k].len()
        &&& q[k].take(waiting_for(q0, k).len() as int) == waiting_for(q0, k)
        &&& forall|i: int| waiting_for(q0, k).len() <= i < q[k].len() ==> {
            &&& planned_clone(chunks, nodes, live, k, #[trigger] q[k][i])
            &&& !has_clone_for(q[k].take(i), cloned_handle(q[k][i]))
        }
    }
}

/// Chunk `h` waits to be copied, if it should be and can be: when it is
/// under-replicated, has a live holder and some live node does not hold it,
/// a command copying it waits for its first live holder.
pub open spec fn clone_covered(
    q: Map<Seq<char>, Seq<MasterCommand>>,
    chunks: Map<u64, ChunkMetadataView>,
    live: Set<Seq<char>>,
    h: u64,
) -> bool {
    (chunks.contains_key(h) && under_replicated(chunks[h]) && first_live(chunks[h].locations, live) is Some
        && exists|t: Seq<char>| #[trigger] live.contains(t) && !chunks[h].locations.contains(t))
        ==> has_clone_for(waiting_for(q, first_live(chunks[h].locations, live)->Some_0), h)
}

/// Appending a command keeps every chunk that a command already copies.
proof fn lemma_clone_kept(cmds: Seq<MasterCommand>, x: MasterCommand, h: u64)
    requires
        has_clone_for(cmds, h),
    ensures
        has_clone_for(cmds.push(x), h),
{
    let i = choose|i: int| 0 <= i < cmds.len() && is_clone_for(#[trigger] cmds[i], h);
    assert(cmds.push(x)[i] == cmds[i]);
}

/// Appending a planned copy of a chunk that nothing waiting for `s` copies
/// keeps the queue one with planned copies appended.
proof fn lemma_clone_appended(
    q0: Map<Seq<char>, Seq<MasterCommand>>,
    q: Map<Seq<char>, Seq<MasterCommand>>,
    chunks: Map<u64, ChunkMetadataView>,
    nodes: Map<Seq<char>, NodeStateView>,
    live: Set<Seq<char>>,
    s: Seq<char>,
    c: MasterCommand,
)
    requires
        clones_appended(q0, q, chunks, nodes, live),
        planned_clone(chunks, nodes, live, s, c),
        !has_clone_for(waiting_for(q, s), cloned_handle(c)),
    ensures
        clones_appended(q0, q.insert(s, waiting_for(q, s).push(c)), chunks, nodes, live),
{
    let w = waiting_for(q, s);
    let q1 = q.insert(s, w.push(c));
    assert forall|k: Seq<char>| #[trigger] q1.contains_key(k) implies {
        &&& waiting_for(q0, k).len() <= q1[k].len()
        &&& q1[k].take(waiting_for(q0, k).len() as int) == waiting_for(q0, k)
        &&& forall|i: int| waiting_for(q0, k).len() <= i < q1[k].len() ==> {
            &&& planned_clone(chunks, nodes, live, k, #[trigger] q1[k][i])
            &&& !has_clone_for(q1[k].take(i), cloned_handle(q1[k][i]))
        }
    } by {
        if k == s {
            let b = waiting_for(q0, k);
            if q.contains_key(k) {
                assert(w == q[k]);
            } else {
                assert(!q0.contains_key(k));
                assert(b =~= Seq::<MasterCommand>::empty());
            }
            assert(b.len() <= w.len());
            assert(w.push(c).take(b.len() as int) =~= w.take(b.len() as int));
            assert forall|i: int| b.len() <= i < q1[k].len() implies {
                &&& planned_clone(chunks, nodes, live, k, #[trigger] q1[k][i])
                &&& !has_clone_for(q1[k].take(i), cloned_handle(q1[k][i]))
            } by {
                if i == w.len() {
                    assert(q1[k].take(i) =~= w);
                } else {
                    assert(q1[k][i] == w[i]);
                    assert(q1[k].take(i) =~= w.take(i));
                }
            }
        }
    }
    assert(q0.dom().subset_of(q1.dom()));
}

/// Commands waiting to be delivered to chunk servers with their next heartbeat.
pub struct CommandQueue {
    inner: DashMap<String, Vec<MasterCommand>>,
}

impl CommandQueue {
    /// Each node's waiting commands.
    pub closed spec fn queued(&self) -> Map<Seq<char>, Seq<MasterCommand>> {
        command_map_entries(self.inner)
    }

    /// An empty queue.
    pub fn new() -> (q: Self)
        ensures
            q.queued() == Map::<Seq<char>, Seq<MasterCommand>>::empty(),
    {
        CommandQueue { inner: command_map_new() }
    }

    /// Takes out the commands waiting for `node`.
    pub fn take(&mut self, node: &String) -> (r: Vec<MasterCommand>)
        ensures
            final(self).queued() == old(self).queued().remove(node@),
            r@ == (if old(self).queued().contains_key(node@) { old(self).queued()[node@] } else { Seq::empty() }),
    {
        match command_map_remove(&mut self.inner, node) {
            Some((_, cmds)) => cmds,
            None => Vec::new(),
        }
    }

    /// Queues for `node` the command to copy chunk `handle` to `target`,
    /// unless a command copying that chunk already waits for `node`. Says
    /// whether it queued one.
    pub fn queue_clone(&mut self, node: &String, handle: u64, target: ChunkLocation) -> (queued: bool)
        ensures
            ({
                let waiting = if old(self).queued().contains_key(node@) { old(self).queued()[node@] } else { Seq::empty() };
                &&& queued == !has_clone_for(waiting, handle)
                &&& queued ==> final(self).queued() == old(self).queued().insert(node@, waiting.push(clone_command(handle, target)))
                &&& !queued ==> final(self).queued() == old(self).queued()
            }),
    {
        let ghost start = self.queued();
        match command_map_remove(&mut self.inner, node) {
            Some((key, mut cmds)) => {
                if any_clone_for(&cmds, handle) {
                    command_map_insert(&mut self.inner, key, cmds);
                    proof {
                        assert(self.queued() =~= start);
                    }
                    false
                } else {
                    cmds.push(MasterCommand {
                        command_type: CommandType::CloneTo,
                        payload: Some(MasterCommandPayload::CloneTo(CloneToCommand { handle: Some(ChunkHandle { id: handle }), target: Some(target) })),
                    });
                    command_map_insert(&mut self.inner, key, cmds);
                    proof {
                        assert(self.queued() =~= start.insert(node@, start[node@].push(clone_command(handle, target))));
                    }
                    true
                }
            },
            None => {
                let mut cmds: Vec<MasterCommand> = Vec::new();
                cmds.push(MasterCommand {
                    command_type: CommandType::CloneTo,
                    payload: Some(MasterCommandPayload::CloneTo(CloneToCommand { handle: Some(ChunkHandle { id: handle }), target: Some(target) })),
                });
                command_map_insert(&mut self.inner, node.clone(), cmds);
                proof {
                    assert(Seq::<MasterCommand>::empty().push(clone_command(handle, target)) =~= cmds@);
                    assert(self.queued() =~= start.insert(node@, Seq::<MasterCommand>::empty().push(clone_command(handle, target))));
                }
                true
            },
        }
    }
}

/// The identifier a request names, or the empty text when it names none.
pub open spec fn node_id_of(node: Option<NodeId>) -> Seq<char> {
    match node {
        Some(n) => n.value@,
        None => Seq::empty(),
    }
}

/// Takes the node identifier out of an optional `NodeId` (empty if absent).
fn node_id_or_default(node: Option<NodeId>) -> (s: String)
    ensures
        s@ == node_id_of(node),
{
    match node {
        Some(n) => n.value,
        None => String::new(),
    }
}

/// The command telling a chunk server to delete chunk `h`.
pub open spec fn delete_command(h: ChunkHandle) -> MasterCommand {
    MasterCommand {
        command_type: CommandType::DeleteChunk,
        payload: Some(MasterCommandPayload::DeleteChunk(DeleteChunkCommand { handle: Some(h) })),
    }
}

/// The metadata of chunk `id` once `node` reports holding it.
pub open spec fn located(chunks: Map<u64, ChunkMetadataView>, id: u64, node: Seq<char>) -> ChunkMetadataView {
    if chunks.contains_key(id) {
        ChunkMetadataView { locations: add_location(chunks[id].locations, node), ..chunks[id] }
    } else {
        reported_chunk(node)
    }
}

/// The metadata of chunk `id` once `node` reports its replica corrupted: the
/// node is no longer one of its locations.
pub open spec fn unlocated(chunks: Map<u64, ChunkMetadataView>, id: u64, node: Seq<char>) -> ChunkMetadataView {
    ChunkMetadataView { locations: without_location(chunks[id].locations, node), ..chunks[id] }
}

/// Every node identifier but `node`.
pub open spec fn all_but(node: Seq<char>) -> Set<Seq<char>> {
    Set::new(|l: Seq<char>| l != node)
}

/// `locs` without `node`, the others in order.
pub open spec fn without_location(locs: Seq<Seq<char>>, node: Seq<char>) -> Seq<Seq<char>> {
    keep_live(locs, all_but(node))
}

/// One chunk report's effect on the chunk table and the outgoing commands: a
/// chunk pending deletion yields a delete command; a replica reported
/// corrupted stops counting as a location (which leaves the chunk
/// under-replicated for the detector to copy again); any other reported chunk
/// gains the node as a location.
pub open spec fn apply_report(
    state: (Map<u64, ChunkMetadataView>, Seq<MasterCommand>),
    node: Seq<char>,
    report: ChunkReport,
) -> (Map<u64, ChunkMetadataView>, Seq<MasterCommand>) {
    match report.handle {
        None => state,
        Some(h) => if state.0.contains_key(h.id) && state.0[h.id].pending_delete {
            (state.0, state.1.push(delete_command(h)))
        } else if report.corrupted {
            if state.0.contains_key(h.id) {
                (state.0.insert(h.id, unlocated(state.0, h.id, node)), state.1)
            } else {
                state
            }
        } else {
            (state.0.insert(h.id, located(state.0, h.id, node)), state.1)
        },
    }
}

/// The effect of a sequence of chunk reports, in order.
pub open spec fn apply_reports(
    chunks: Map<u64, ChunkMetadataView>,
    commands: Seq<MasterCommand>,
    node: Seq<char>,
    reports: Seq<ChunkReport>,
) -> (Map<u64, ChunkMetadataView>, Seq<MasterCommand>)
    decreases reports.len(),
{
    if reports.len() == 0 {
        (chunks, commands)
    } else {
        apply_report(apply_reports(chunks, commands, node, reports.drop_last()), node, reports.last())
    }
}

/// The chunk ids of a list of handles.
pub open spec fn handles_of(s: Seq<ChunkHandle>) -> Seq<u64> {
    s.map_values(|h: ChunkHandle| h.id)
}

/// `info` describes a direct child of directory `dir` in namespace `view`.
pub open spec fn is_child_entry(
    info: FileInfo,
    dir: Seq<ComponentView>,
    view: Map<Seq<ComponentView>, (PathView, FileMetadataView)>,
) -> bool {
    exists|c: Seq<ComponentView>| #[trigger] is_direct_child(dir, c) && view.contains_key(c) && describes(info, view[c].0.text, view[c].1)
}

/// `entries` describes exactly the direct children of `dir` in `view`.
pub open spec fn lists_children(
    entries: Seq<FileInfo>,
    dir: Seq<ComponentView>,
    view: Map<Seq<ComponentView>, (PathView, FileMetadataView)>,
) -> bool {
    &&& forall|i: int| 0 <= i < entries.len() ==> is_child_entry(#[trigger] entries[i], dir, view)
    &&& forall|c: Seq<ComponentView>| #[trigger] view.contains_key(c) && is_direct_child(dir, c) ==>
        exists|i: int| 0 <= i < entries.len() && describes(#[trigger] entries[i], view[c].0.text, view[c].1)
}

/// The timestamp of a time in milliseconds since the epoch.
pub open spec fn timestamp_of(ms: u64) -> Timestamp {
    Timestamp { unix_millis: ms as i64 }
}

/// `info` reports metadata `m` of the file named `text`.
pub open spec fn describes(info: FileInfo, text: Seq<char>, m: FileMetadataView) -> bool {
    &&& info.path@ == text
    &&& info.size == m.size
    &&& handles_of(info.chunks@) == m.chunks
    &&& info.mtime == Some(timestamp_of(m.mtime))
    &&& info.ctime == Some(timestamp_of(m.ctime))
    &&& info.is_directory == m.is_directory
}

/// Reports metadata `m` of the file named `path`.
fn file_info(path: String, m: &FileMetadata) -> (info: FileInfo)
    ensures
        describes(info, path@, m@),
{
    let mut chunks: Vec<ChunkHandle> = Vec::new();
    let n = m.chunks.len();
    let mut i: usize = 0;
    while i < n
        invariant
            n == m.chunks@.len(),
            i <= n,
            handles_of(chunks@) == m.chunks@.take(i as int),
        decreases n - i,
    {
        let ghost prev = chunks@;
        chunks.push(ChunkHandle { id: m.chunks[i] });
        proof {
            assert(handles_of(chunks@) =~= handles_of(prev).push(m.chunks@[i as int]));
            assert(m.chunks@.take(i + 1) =~= m.chunks@.take(i as int).push(m.chunks@[i as int]));
        }
        i = i + 1;
    }
    proof {
        assert(m.chunks@.take(n as int) =~= m.chunks@);
    }
    FileInfo {
        path,
        size: m.size,
        chunks,
        mtime: Some(Timestamp { unix_millis: #[verifier::truncate] (m.mtime as i64) }),
        ctime: Some(Timestamp { unix_millis: #[verifier::truncate] (m.ctime as i64) }),
        is_directory: m.is_directory,
    }
}

/// A status with a code and a namespace error's message.
fn namespace_status(code: RpcCode, e: &NamespaceError) -> (st: RpcStatus)
    ensures
        st.code == code,
        st.message@ == e.message_spec(),
{
    RpcStatus { code, message: e.message() }
}

/// The locations of the replicas whose nodes the registry knows, in order.
pub open spec fn replica_locations(locs: Seq<Seq<char>>, nodes: Map<Seq<char>, NodeStateView>) -> Seq<ChunkLocationView>
    decreases locs.len(),
{
    if locs.len() == 0 {
        Seq::empty()
    } else {
        let rest = replica_locations(locs.drop_last(), nodes);
        if nodes.contains_key(locs.last()) {
            rest.push(ChunkLocationView { node: Some(locs.last()), grpc_addr: nodes[locs.last()].addr })
        } else {
            rest
        }
    }
}

/// The primary's location, if there is a primary and the registry knows it.
pub open spec fn primary_location(p: Option<Seq<char>>, nodes: Map<Seq<char>, NodeStateView>) -> Option<ChunkLocationView> {
    match p {
        Some(id) => if nodes.contains_key(id) {
            Some(ChunkLocationView { node: Some(id), grpc_addr: nodes[id].addr })
        } else {
            None
        },
        None => None,
    }
}

/// The view of an optional location.
pub open spec fn opt_location_view(l: Option<ChunkLocation>) -> Option<ChunkLocationView> {
    match l {
        Some(x) => Some(x@),
        None => None,
    }
}

/// Milliseconds left on a lease at `now` (0 when expired or absent), as a
/// signed count.
pub open spec fn remaining_lease(expiry: Option<u64>, now: u64) -> i64 {
    match expiry {
        Some(e) => if e > now { (e - now) as i64 } else { 0 },
        None => 0,
    }
}

/// The chunk table after the chunks in `handles` are marked for deletion.
pub open spec fn mark_pending(chunks: Map<u64, ChunkMetadataView>, handles: Seq<u64>) -> Map<u64, ChunkMetadataView> {
    Map::new(
        |h: u64| chunks.contains_key(h),
        |h: u64| if handles.contains(h) { ChunkMetadataView { pending_delete: true, ..chunks[h] } } else { chunks[h] },
    )
}

/// The locations that are in `live`, in order.
pub open spec fn keep_live(locs: Seq<Seq<char>>, live: Set<Seq<char>>) -> Seq<Seq<char>>
    decreases locs.len(),
{
    if locs.len() == 0 {
        Seq::empty()
    } else {
        let rest = keep_live(locs.drop_last(), live);
        if live.contains(locs.last()) { rest.push(locs.last()) } else { rest }
    }
}

/// Every kept location is live, and a live location is kept.
pub proof fn lemma_keep_live(locs: Seq<Seq<char>>, live: Set<Seq<char>>)
    ensures
        forall|i: int| 0 <= i < keep_live(locs, live).len() ==> live.contains(#[trigger] keep_live(locs, live)[i]),
        forall|x: Seq<char>| #[trigger] keep_live(locs, live).contains(x) <==> (locs.contains(x) && live.contains(x)),
        locs.no_duplicates() ==> keep_live(locs, live).no_duplicates(),
    decreases locs.len(),
{
    if locs.len() > 0 {
        let prefix = locs.drop_last();
        lemma_keep_live(prefix, live);
        let k = keep_live(locs, live);
        let r = keep_live(prefix, live);
        assert forall|x: Seq<char>| #[trigger] k.contains(x) <==> (locs.contains(x) && live.contains(x)) by {
            if locs.contains(x) && live.contains(x) {
                let j = choose|j: int| 0 <= j < locs.len() && locs[j] == x;
                if j < prefix.len() {
                    assert(prefix[j] == x);
                    assert(r.contains(x));
                    let a = choose|a: int| 0 <= a < r.len() && r[a] == x;
                    if live.contains(locs.last()) { assert(k[a] == x); }
                } else {
                    assert(k[k.len() - 1] == x);
                }
            }
            if k.contains(x) {
                let a = choose|a: int| 0 <= a < k.len() && k[a] == x;
                if a < r.len() {
                    if live.contains(locs.last()) {
                        assert(k[a] == r[a]);
                    }
                    assert(r[a] == x);
                    assert(r.contains(x));
                    assert(prefix.contains(x));
                    let j = choose|j: int| 0 <= j < prefix.len() && prefix[j] == x;
                    assert(locs[j] == x);
                } else {
                    assert(live.contains(locs.last()));
                    assert(locs[locs.len() - 1] == x);
                }
            }
        }
        if locs.no_duplicates() {
            assert(prefix.no_duplicates());
            if live.contains(locs.last()) {
                assert(!prefix.contains(locs.last()));
                assert(!r.contains(locs.last()));
                assert forall|a: int, b: int| 0 <= a < k.len() && 0 <= b < k.len() && a != b implies k[a] != k[b] by {
                    if a == k.len() - 1 { assert(r.contains(k[b])); }
                    if b == k.len() - 1 { assert(r.contains(k[a])); }
                }
            }
        }
    }
}

/// The chunk table after dead replicas are dropped from the chunks in `handles`.
pub open spec fn reaped(chunks: Map<u64, ChunkMetadataView>, handles: Seq<u64>, live: Set<Seq<char>>) -> Map<u64, ChunkMetadataView> {
    Map::new(
        |h: u64| chunks.contains_key(h),
        |h: u64| if handles.contains(h) {
            ChunkMetadataView { locations: keep_live(chunks[h].locations, live), ..chunks[h] }
        } else {
            chunks[h]
        },
    )
}

/// `locs` without `node`, the others in order.
fn without_node(locs: &Vec<String>, node: &String) -> (r: Vec<String>)
    ensures
        strings_view(r@) == without_location(strings_view(locs@), node@),
{
    let ghost keep = all_but(node@);
    let mut kept: Vec<String> = Vec::new();
    let n = locs.len();
    let mut j: usize = 0;
    while j < n
        invariant
            n == locs@.len(),
            j <= n,
            keep == all_but(node@),
            strings_view(kept@) == keep_live(strings_view(locs@).take(j as int), keep),
        decreases n - j,
    {
        let ghost prev = kept@;
        let loc = &locs[j];
        proof {
            assert(strings_view(locs@).take(j + 1).drop_last() =~= strings_view(locs@).take(j as int));
            assert(strings_view(locs@).take(j + 1).last() == loc@);
        }
        if !loc.eq(node) {
            kept.push(loc.clone());
            proof {
                assert(keep.contains(loc@));
                assert(strings_view(kept@) =~= strings_view(prev).push(loc@));
            }
        } else {
            assert(!keep.contains(loc@));
        }
        j = j + 1;
    }
    proof {
        assert(strings_view(locs@).take(n as int) =~= strings_view(locs@));
    }
    kept
}

/// The first of `locs` that one of the live entries names, if any.
fn first_live_location(locs: &Vec<String>, live: &Vec<NodeEntry>) -> (r: Option<String>)
    ensures
        opt_string_view(r) == first_live(strings_view(locs@), node_ids(live@).to_set()),
{
    let ghost all = strings_view(locs@);
    let ghost set = node_ids(live@).to_set();
    let n = locs.len();
    let mut j: usize = 0;
    proof {
        assert(all.skip(0) =~= all);
    }
    while j < n
        invariant
            n == locs@.len(),
            j <= n,
            all == strings_view(locs@),
            set == node_ids(live@).to_set(),
            first_live(all, set) == first_live(all.skip(j as int), set),
        decreases n - j,
    {
        let ghost rest = all.skip(j as int);
        assert(rest[0] == locs@[j as int]@);
        if names_entry(live, &locs[j]) {
            return Some(locs[j].clone());
        }
        proof {
            assert(rest.drop_first() =~= all.skip(j + 1));
        }
        j = j + 1;
    }
    proof {
        assert(all.skip(n as int).len() == 0);
    }
    None
}

/// Whether `id` names one of the entries.
fn names_entry(entries: &Vec<NodeEntry>, id: &String) -> (r: bool)
    ensures
        r == node_ids(entries@).contains(id@),
{
    let n = entries.len();
    let mut i: usize = 0;
    while i < n
        invariant
            n == entries@.len(),
            i <= n,
            forall|j: int| 0 <= j < i ==> entries@[j].0@ != id@,
        decreases n - i,
    {
        if entries[i].0.eq(id) {
            proof {
                assert(node_ids(entries@)[i as int] == id@);
            }
            return true;
        }
        i = i + 1;
    }
    proof {
        if node_ids(entries@).contains(id@) {
            let j = choose|j: int| 0 <= j < node_ids(entries@).len() && node_ids(entries@)[j] == id@;
            assert(entries@[j].0@ == id@);
        }
    }
    false
}

/// `ids` is a valid placement at `now` of `count` replicas: the least loaded
/// live nodes (all live nodes if fewer), each once, in placement order.
pub open spec fn placement_ok(ids: Seq<Seq<char>>, nodes: Map<Seq<char>, NodeStateView>, now: u64, count: int) -> bool {
    let live = live_ids(nodes, now, HEARTBEAT_TIMEOUT_MS);
    &&& ids.len() == (if count < live.len() { count } else { live.len() as int })
    &&& ids.no_duplicates()
    &&& forall|i: int| 0 <= i < ids.len() ==> live.contains(#[trigger] ids[i])
    &&& forall|i: int, j: int| 0 <= i < j < ids.len() ==> load_le(nodes[ids[i]], nodes[ids[j]])
    &&& forall|k: Seq<char>, i: int| #[trigger] live.contains(k) && !ids.contains(k) && 0 <= i < ids.len()
        ==> load_le(nodes[#[trigger] ids[i]], nodes[k])
}

/// The locations of the nodes `ids`, with their registered addresses.
pub open spec fn locations_of(ids: Seq<Seq<char>>, nodes: Map<Seq<char>, NodeStateView>) -> Seq<ChunkLocationView> {
    Seq::new(ids.len(), |i: int| ChunkLocationView { node: Some(ids[i]), grpc_addr: nodes[ids[i]].addr })
}

/// The lease length that a newly allocated chunk's primary gets (60 s).
pub const ALLOCATION_LEASE_MS: u64 = 60000;

/// What handling a heartbeat received at `now` does to the master and answers.
pub open spec fn heartbeat_done(old_m: Master, new_m: Master, req: HeartbeatRequest, now: u64, resp: HeartbeatResponse) -> bool {
    &&& new_m.namespace.view() == old_m.namespace.view()
    &&& new_m.node_registry.nodes() == old_m.node_registry.nodes().insert(
        node_id_of(req.node),
        NodeStateView {
            last_heartbeat: now,
            free_bytes: req.free_bytes,
            used_bytes: req.used_bytes,
            addr: req.grpc_addr@,
        },
    )
    &&& new_m.pending_commands.queued() == old_m.pending_commands.queued().remove(node_id_of(req.node))
    &&& ({
        let queued = if old_m.pending_commands.queued().contains_key(node_id_of(req.node)) {
            old_m.pending_commands.queued()[node_id_of(req.node)]
        } else {
            Seq::empty()
        };
        let outcome = apply_reports(old_m.chunk_table.chunks(), queued, node_id_of(req.node), req.chunks@);
        &&& new_m.chunk_table.chunks() == outcome.0
        &&& resp.commands@ == outcome.1
    })
    &&& new_m.chunk_table.next_handle_spec() == old_m.chunk_table.next_handle_spec()
    &&& new_m.replication_factor == old_m.replication_factor
    &&& new_m.lease_duration_ms == old_m.lease_duration_ms
}

/// What handling a file creation at `now` does to the master and answers.
pub open spec fn create_done(old_m: Master, new_m: Master, req: CreateFileRequest, now: u64, r: Result<CreateFileResponse, RpcStatus>) -> bool {
    &&& new_m.chunk_table.chunks() == old_m.chunk_table.chunks()
    &&& new_m.chunk_table.next_handle_spec() == old_m.chunk_table.next_handle_spec()
    &&& new_m.node_registry.nodes() == old_m.node_registry.nodes()
    &&& new_m.pending_commands.queued() == old_m.pending_commands.queued()
    &&& new_m.replication_factor == old_m.replication_factor
    &&& new_m.lease_duration_ms == old_m.lease_duration_ms
    &&& ({
        let k = std_path_components(req.path@);
        &&& old_m.namespace.view().contains_key(k) ==> {
            &&& r matches Err(st) && st.code == RpcCode::AlreadyExists
                && st.message@ == "File already exists: "@ + req.path@
            &&& new_m.namespace.view() == old_m.namespace.view()
        }
        &&& !old_m.namespace.view().contains_key(k) ==> {
            &&& r == Ok::<CreateFileResponse, RpcStatus>(CreateFileResponse { success: true })
            &&& new_m.namespace.view() == old_m.namespace.view().insert(
                k,
                (PathView { text: req.path@, components: k }, crate::namespace::fresh_metadata(now, false)),
            )
        }
    })
}

/// The answer to a chunk-location request at `now`.
pub open spec fn locations_answer(m: Master, req: ChunkHandle, now: u64, r: Result<ChunkLocationsResponse, RpcStatus>) -> bool {
    &&& !m.chunk_table.chunks().contains_key(req.id) ==> (r matches Err(st) && st.code == RpcCode::NotFound
        && st.message@ == "Chunk "@ + decimal_text(req.id as nat) + " not found"@)
    &&& m.chunk_table.chunks().contains_key(req.id) ==> (r matches Ok(resp) && {
        let meta = m.chunk_table.chunks()[req.id];
        &&& locations_view(resp.locations@) == replica_locations(meta.locations, m.node_registry.nodes())
        &&& opt_location_view(resp.primary) == primary_location(meta.primary, m.node_registry.nodes())
        &&& resp.version == Some(ChunkVersion { value: meta.version })
        &&& resp.lease_expiry_unix_millis == remaining_lease(meta.lease_expiry, now)
        &&& resp.handle == Some(ChunkHandle { id: req.id })
    })
}

/// What handling a chunk allocation at `now` does to the master and answers.
pub open spec fn allocate_done(old_m: Master, new_m: Master, req: AllocateChunkRequest, now: u64, wall: u64, r: Result<ChunkLocationsResponse, RpcStatus>) -> bool {
    &&& new_m.node_registry.nodes() == old_m.node_registry.nodes()
    &&& new_m.pending_commands.queued() == old_m.pending_commands.queued()
    &&& new_m.replication_factor == old_m.replication_factor
    &&& new_m.lease_duration_ms == old_m.lease_duration_ms
    &&& ({
        let nodes = old_m.node_registry.nodes();
        let live = live_ids(nodes, now, HEARTBEAT_TIMEOUT_MS);
        let k = std_path_components(req.path@);
        let h = old_m.chunk_table.next_handle_spec();
        &&& (old_m.replication_factor == 0 || live.len() == 0) ==> {
            &&& r matches Err(st) && st.code == RpcCode::ResourceExhausted && st.message@ == "No chunkservers available"@
            &&& new_m.chunk_table.chunks() == old_m.chunk_table.chunks()
            &&& new_m.chunk_table.next_handle_spec() == h
            &&& new_m.namespace.view() == old_m.namespace.view()
        }
        &&& (old_m.replication_factor > 0 && live.len() > 0) ==> {
            let ids = new_m.chunk_table.chunks()[h].locations;
            &&& placement_ok(ids, nodes, now, old_m.replication_factor as int)
            &&& new_m.chunk_table.next_handle_spec() == (if h == u64::MAX { 0 } else { (h + 1) as u64 })
            &&& new_m.chunk_table.chunks() == old_m.chunk_table.chunks().insert(h, ChunkMetadataView {
                version: 1,
                locations: ids,
                primary: Some(ids[0]),
                lease_expiry: Some((now + ALLOCATION_LEASE_MS) as u64),
                pending_delete: false,
            })
            &&& old_m.namespace.view().contains_key(k) ==> {
                &&& r matches Ok(resp) && {
                    &&& locations_view(resp.locations@) == locations_of(ids, nodes)
                    &&& opt_location_view(resp.primary) == Some(locations_of(ids, nodes)[0])
                    &&& resp.version == Some(ChunkVersion { value: 1 })
                    &&& resp.lease_expiry_unix_millis == ALLOCATION_LEASE_MS
                    &&& resp.handle == Some(ChunkHandle { id: h })
                }
                &&& new_m.namespace.view() == old_m.namespace.view().insert(k, (
                    old_m.namespace.view()[k].0,
                    FileMetadataView {
                        chunks: old_m.namespace.view()[k].1.chunks.push(h),
                        mtime: wall,
                        ..old_m.namespace.view()[k].1
                    },
                ))
            }
            &&& !old_m.namespace.view().contains_key(k) ==> {
                &&& r matches Err(st) && st.code == RpcCode::Internal && st.message@ == "File not found: "@ + req.path@
                &&& new_m.namespace.view() == old_m.namespace.view()
            }
        }
    })
}

/// What dropping the chunk servers that are dead at `now` does to the master.
pub open spec fn reap_done(old_m: Master, new_m: Master, now: u64) -> bool {
    &&& new_m.namespace.view() == old_m.namespace.view()
    &&& new_m.node_registry.nodes() == old_m.node_registry.nodes().restrict(
        live_ids(old_m.node_registry.nodes(), now, HEARTBEAT_TIMEOUT_MS),
    )
    &&& new_m.pending_commands.queued() == old_m.pending_commands.queued()
    &&& new_m.chunk_table.next_handle_spec() == old_m.chunk_table.next_handle_spec()
    &&& new_m.replication_factor == old_m.replication_factor
    &&& new_m.lease_duration_ms == old_m.lease_duration_ms
    &&& new_m.chunk_table.chunks() == Map::new(
        |h: u64| old_m.chunk_table.chunks().contains_key(h),
        |h: u64| ChunkMetadataView {
            locations: keep_live(
                old_m.chunk_table.chunks()[h].locations,
                live_ids(old_m.node_registry.nodes(), now, HEARTBEAT_TIMEOUT_MS),
            ),
            ..old_m.chunk_table.chunks()[h]
        },
    )
}

/// What handling a lease request at `now` does to the master and answers.
pub open spec fn lease_done(old_m: Master, new_m: Master, req: LeaseRequest, now: u64, wall: u64, resp: LeaseResponse) -> bool {
    &&& new_m.namespace.view() == old_m.namespace.view()
    &&& new_m.node_registry.nodes() == old_m.node_registry.nodes()
    &&& new_m.pending_commands.queued() == old_m.pending_commands.queued()
    &&& new_m.lease_duration_ms == old_m.lease_duration_ms
    &&& new_m.replication_factor == old_m.replication_factor
    &&& new_m.chunk_table.next_handle_spec() == old_m.chunk_table.next_handle_spec()
    &&& ({
        let id = match req.handle { Some(h) => h.id, None => 0 };
        let known = old_m.chunk_table.chunks().contains_key(id)
            && old_m.chunk_table.chunks()[id].locations.contains(node_id_of(req.node));
        &&& resp.granted == known
        &&& resp.handle == Some(ChunkHandle { id })
        &&& resp.version == Some(ChunkVersion { value: 1 })
        &&& resp.lease_expiry_unix_millis == (if known { wall + old_m.lease_duration_ms } else { 0 })
        &&& !known ==> new_m.chunk_table.chunks() == old_m.chunk_table.chunks()
        &&& known ==> new_m.chunk_table.chunks() == leased(
            old_m.chunk_table.chunks(),
            id,
            node_id_of(req.node),
            (now + old_m.lease_duration_ms) as u64,
        )
    })
}

/// All state of the master.
pub struct Master {
    pub namespace: Namespace,
    pub chunk_table: ChunkTable,
    pub node_registry: NodeRegistry,
    pub pending_commands: CommandQueue,
    pub replication_factor: usize,
    pub lease_duration_ms: u64,
    /// The monotonic clock on which heartbeat ages, lease expiries and the
    /// handlers' current time are measured (the table and the registry share it).
    pub clock: MonotonicClock,
}

impl Master {
    /// Well-formed: the namespace and chunk table keep their invariants.
    pub open spec fn wf(&self) -> bool {
        self.namespace.wf() && self.chunk_table.wf()
    }

    /// A master with only the root directory, created at time `now`.
    pub fn new_at(replication_factor: usize, lease_duration_ms: u64, now: u64) -> (m: Self)
        ensures
            m.wf(),
            m.replication_factor == replication_factor,
            m.lease_duration_ms == lease_duration_ms,
            m.chunk_table.chunks() == Map::<u64, ChunkMetadataView>::empty(),
            m.chunk_table.next_handle_spec() == 1,
            m.node_registry.nodes() == Map::<Seq<char>, NodeStateView>::empty(),
            m.pending_commands.queued() == Map::<Seq<char>, Seq<MasterCommand>>::empty(),
            m.namespace.view() == root_only(now),
    {
        let clock = MonotonicClock::start();
        Master {
            namespace: Namespace::new_at(now),
            chunk_table: ChunkTable::with_clock(clock),
            node_registry: NodeRegistry::with_clock(clock),
            pending_commands: CommandQueue::new(),
            replication_factor,
            lease_duration_ms,
            clock,
        }
    }

    /// Handles a heartbeat received at `now`: records the node's liveness and
    /// load, takes its waiting commands, and reconciles each reported chunk.
    pub fn heartbeat_at(&mut self, req: HeartbeatRequest, now: u64) -> (resp: HeartbeatResponse)
        requires
            old(self).wf(),
        ensures
            final(self).wf(),
            heartbeat_done(*old(self), *final(self), req, now, resp),
    {
        let node_id = node_id_or_default(req.node);
        self.node_registry.record_heartbeat_at(node_id.clone(), req.grpc_addr, req.free_bytes, req.used_bytes, now);
        let mut commands = self.pending_commands.take(&node_id);
        let ghost start_chunks = self.chunk_table.chunks();
        let ghost start_commands = commands@;
        let ghost nodes_after = self.node_registry.nodes();
        let ghost queue_after = self.pending_commands.queued();
        let reports = req.chunks;
        let n = reports.len();
        let mut i: usize = 0;
        while i < n
            invariant
                n == reports@.len(),
                i <= n,
                self.chunk_table.wf(),
                self.namespace.wf(),
                self.namespace.view() == old(self).namespace.view(),
                self.node_registry.nodes() == nodes_after,
                self.pending_commands.queued() == queue_after,
                self.replication_factor == old(self).replication_factor,
                self.lease_duration_ms == old(self).lease_duration_ms,
                self.chunk_table.next_handle_spec() == old(self).chunk_table.next_handle_spec(),
                (self.chunk_table.chunks(), commands@) == apply_reports(start_chunks, start_commands, node_id@, reports@.take(i as int)),
            decreases n - i,
        {
            let report = reports[i];
            proof {
                assert(reports@.take(i + 1).drop_last() =~= reports@.take(i as int));
                assert(reports@.take(i + 1).last() == report);
            }
            match report.handle {
                Some(handle) => {
                    let pending = match self.chunk_table.get(handle.id) {
                        Some(meta) => meta.pending_delete,
                        None => false,
                    };
                    if pending {
                        commands.push(MasterCommand {
                            command_type: CommandType::DeleteChunk,
                            payload: Some(MasterCommandPayload::DeleteChunk(DeleteChunkCommand { handle: Some(handle) })),
                        });
                    } else if report.corrupted {
                        match self.chunk_table.get(handle.id) {
                            Some(mut meta) => {
                                let ghost before = meta@;
                                meta.locations = without_node(&meta.locations, &node_id);
                                proof {
                                    lemma_keep_live(before.locations, all_but(node_id@));
                                }
                                self.chunk_table.insert(handle.id, meta);
                            },
                            None => {},
                        }
                    } else {
                        self.chunk_table.update_locations(handle.id, node_id.clone());
                    }
                },
                None => {},
            }
            i = i + 1;
        }
        proof {
            assert(reports@.take(n as int) =~= reports@);
        }
        HeartbeatResponse { commands }
    }

    /// Handles a file-creation request at `now`.
    pub fn create_file_at(&mut self, req: &CreateFileRequest, now: u64) -> (r: Result<CreateFileResponse, RpcStatus>)
        requires
            old(self).wf(),
        ensures
            final(self).wf(),
            create_done(*old(self), *final(self), *req, now, r),
    {
        let path = GfsPath::from_text(req.path.clone());
        match self.namespace.create_file_at(&path, now) {
            Ok(()) => Ok(CreateFileResponse { success: true }),
            Err(e) => Err(namespace_status(RpcCode::AlreadyExists, &e)),
        }
    }

    /// Handles a file-information request.
    pub fn get_file_info(&self, req: &PathRequest) -> (r: Result<FileInfo, RpcStatus>)
        requires
            self.wf(),
        ensures
            ({
                let k = std_path_components(req.path@);
                &&& self.namespace.view().contains_key(k) ==> (r matches Ok(info) && describes(info, req.path@, self.namespace.view()[k].1))
                &&& !self.namespace.view().contains_key(k) ==> (r matches Err(st) && st.code == RpcCode::NotFound
                    && st.message@ == "File not found: "@ + req.path@)
            }),
    {
        let path = GfsPath::from_text(req.path.clone());
        match self.namespace.get_file_info(&path) {
            Ok(meta) => Ok(file_info(req.path.clone(), &meta)),
            Err(e) => Err(namespace_status(RpcCode::NotFound, &e)),
        }
    }

    /// Handles a chunk-location request at `now`: the replicas whose nodes are
    /// registered, the primary if registered, the version, and the lease's
    /// remaining milliseconds.
    pub fn get_chunk_locations_at(&self, req: ChunkHandle, now: u64) -> (r: Result<ChunkLocationsResponse, RpcStatus>)
        requires
            self.wf(),
        ensures
            locations_answer(*self, req, now, r),
    {
        let meta = match self.chunk_table.get(req.id) {
            Some(m) => m,
            None => {
                let message = "Chunk ".to_owned().concat(u64_to_decimal(req.id).as_str()).concat(" not found");
                return Err(RpcStatus { code: RpcCode::NotFound, message });
            },
        };
        let ghost nodes = self.node_registry.nodes();
        let mut locations: Vec<ChunkLocation> = Vec::new();
        let n = meta.locations.len();
        let mut i: usize = 0;
        while i < n
            invariant
                n == meta.locations@.len(),
                i <= n,
                nodes == self.node_registry.nodes(),
                locations_view(locations@) == replica_locations(strings_view(meta.locations@).take(i as int), nodes),
            decreases n - i,
        {
            let node_id = &meta.locations[i];
            let ghost prev = locations@;
            proof {
                assert(strings_view(meta.locations@).take(i + 1).drop_last() =~= strings_view(meta.locations@).take(i as int));
                assert(strings_view(meta.locations@).take(i + 1).last() == node_id@);
            }
            match self.node_registry.get(node_id) {
                Some(entry) => {
                    locations.push(ChunkLocation { node: Some(NodeId { value: node_id.clone() }), grpc_addr: entry.addr });
                    proof {
                        assert(locations_view(locations@) =~= locations_view(prev).push(locations@.last()@));
                    }
                },
                None => {},
            }
            i = i + 1;
        }
        proof {
            assert(strings_view(meta.locations@).take(n as int) =~= strings_view(meta.locations@));
        }
        let primary = match &meta.primary {
            Some(p_id) => match self.node_registry.get(p_id) {
                Some(entry) => Some(ChunkLocation { node: Some(NodeId { value: p_id.clone() }), grpc_addr: entry.addr }),
                None => None,
            },
            None => None,
        };
        let lease_expiry: i64 = match meta.lease_expiry {
            Some(exp) => if exp > now { #[verifier::truncate] ((exp - now) as i64) } else { 0 },
            None => 0,
        };
        Ok(ChunkLocationsResponse {
            locations,
            primary,
            version: Some(ChunkVersion { value: meta.version }),
            lease_expiry_unix_millis: lease_expiry,
            handle: Some(ChunkHandle { id: req.id }),
        })
    }

    /// Handles a chunk-allocation request at `now`: places a new chunk on the
    /// least loaded live nodes, makes the first of them primary for 60 s, and
    /// appends the chunk to the file. The chunk stays in the table even when
    /// the file does not exist.
    pub fn allocate_chunk_at(&mut self, req: &AllocateChunkRequest, now: u64, wall: u64) -> (r: Result<ChunkLocationsResponse, RpcStatus>)
        requires
            old(self).wf(),
            now + ALLOCATION_LEASE_MS <= u64::MAX,
        ensures
            final(self).wf(),
            allocate_done(*old(self), *final(self), *req, now, wall, r),
    {
        let picked = self.node_registry.pick_least_loaded_at(self.replication_factor, now, HEARTBEAT_TIMEOUT_MS);
        let ghost nodes = self.node_registry.nodes();
        if picked.len() == 0 {
            let message = "No chunkservers available".to_owned();
            return Err(RpcStatus { code: RpcCode::ResourceExhausted, message });
        }
        let handle = self.chunk_table.allocate_handle();
        let mut ids: Vec<String> = Vec::new();
        let mut locs: Vec<ChunkLocation> = Vec::new();
        let n = picked.len();
        let mut i: usize = 0;
        while i < n
            invariant
                n == picked@.len(),
                i <= n,
                strings_view(ids@) == node_ids(picked@).take(i as int),
                locations_view(locs@) == locations_of(node_ids(picked@), nodes).take(i as int),
                forall|a: int| 0 <= a < picked@.len() ==> nodes.contains_key(#[trigger] picked@[a].0@) && picked@[a].1@ == nodes[picked@[a].0@],
            decreases n - i,
        {
            let ghost prev_ids = ids@;
            let ghost prev_locs = locs@;
            ids.push(picked[i].0.clone());
            locs.push(ChunkLocation { node: Some(NodeId { value: picked[i].0.clone() }), grpc_addr: picked[i].1.addr.clone() });
            proof {
                assert(strings_view(ids@) =~= strings_view(prev_ids).push(picked@[i as int].0@));
                assert(node_ids(picked@).take(i + 1) =~= node_ids(picked@).take(i as int).push(picked@[i as int].0@));
                assert(locations_view(locs@) =~= locations_view(prev_locs).push(locs@.last()@));
                assert(locations_of(node_ids(picked@), nodes).take(i + 1) =~= locations_of(node_ids(picked@), nodes).take(i as int).push(locations_of(node_ids(picked@), nodes)[i as int]));
            }
            i = i + 1;
        }
        proof {
            assert(node_ids(picked@).take(n as int) =~= node_ids(picked@));
            assert(locations_of(node_ids(picked@), nodes).take(n as int) =~= locations_of(node_ids(picked@), nodes));
        }
        let primary_id = picked[0].0.clone();
        let primary_loc = crate::proto::clone_location(&locs[0]);
        let meta = ChunkMetadata {
            version: 1,
            locations: ids,
            primary: Some(primary_id),
            lease_expiry: Some(now + ALLOCATION_LEASE_MS),
            pending_delete: false,
        };
        proof {
            let ids_v = node_ids(picked@);
            assert(meta@.locations == ids_v);
            assert forall|a: int, b: int| 0 <= a < b < ids_v.len() implies load_le(nodes[ids_v[a]], nodes[ids_v[b]]) by {
                assert(ids_v[a] == picked@[a].0@);
                assert(ids_v[b] == picked@[b].0@);
            }
            assert forall|kk: Seq<char>, a: int| #[trigger] live_ids(nodes, now, HEARTBEAT_TIMEOUT_MS).contains(kk) && !ids_v.contains(kk) && 0 <= a < ids_v.len()
                implies load_le(nodes[#[trigger] ids_v[a]], nodes[kk]) by {
                assert(ids_v[a] == picked@[a].0@);
            }
            assert forall|a: int| 0 <= a < ids_v.len() implies live_ids(nodes, now, HEARTBEAT_TIMEOUT_MS).contains(#[trigger] ids_v[a]) by {
                assert(ids_v[a] == picked@[a].0@);
            }
            assert(placement_ok(ids_v, nodes, now, self.replication_factor as int));
        }
        self.chunk_table.insert(handle, meta);
        let path = GfsPath::from_text(req.path.clone());
        match self.namespace.append_chunk_at(&path, handle, wall) {
            Ok(()) => {},
            Err(e) => {
                return Err(namespace_status(RpcCode::Internal, &e));
            },
        }
        Ok(ChunkLocationsResponse {
            locations: locs,
            primary: Some(primary_loc),
            version: Some(ChunkVersion { value: 1 }),
            lease_expiry_unix_millis: 60000,
            handle: Some(ChunkHandle { id: handle }),
        })
    }

    /// Handles a directory listing: one entry per direct child of the
    /// directory, with the child's stored path text. A missing path or a path
    /// that is not a directory fails with `NotFound`.
    pub fn list_directory(&self, req: &PathRequest) -> (r: Result<ListDirectoryResponse, RpcStatus>)
        requires
            self.wf(),
        ensures
            !self.namespace.view().contains_key(std_path_components(req.path@)) ==> (r matches Err(st)
                && st.code == RpcCode::NotFound && st.message@ == "File not found: "@ + req.path@),
            self.namespace.view().contains_key(std_path_components(req.path@))
                && !self.namespace.view()[std_path_components(req.path@)].1.is_directory ==> (r matches Err(st)
                && st.code == RpcCode::NotFound && st.message@ == "Not a directory: "@ + req.path@),
            ({
                let k = std_path_components(req.path@);
                let view = self.namespace.view();
                view.contains_key(k) && view[k].1.is_directory ==> (r matches Ok(resp) && lists_children(resp.entries@, k, view))
            }),
    {
        let path = GfsPath::from_text(req.path.clone());
        let listed = match self.namespace.list_directory(&path) {
            Ok(v) => v,
            Err(e) => {
                return Err(namespace_status(RpcCode::NotFound, &e));
            },
        };
        let ghost k = std_path_components(req.path@);
        let ghost view = self.namespace.view();
        let mut entries: Vec<FileInfo> = Vec::new();
        let n = listed.len();
        let mut i: usize = 0;
        while i < n
            invariant
                n == listed@.len(),
                i <= n,
                entries@.len() == i,
                forall|a: int| 0 <= a < i ==> describes(#[trigger] entries@[a], listed@[a].0@.text, listed@[a].1@),
            decreases n - i,
        {
            entries.push(file_info(listed[i].0.text.clone(), &listed[i].1));
            i = i + 1;
        }
        let resp = ListDirectoryResponse { entries };
        proof {
            let entries = resp.entries;
            assert forall|a: int| 0 <= a < entries@.len() implies is_child_entry(#[trigger] entries@[a], k, view) by {
                let c = key_at(listed@, a);
                assert(is_direct_child(k, c));
            }
            assert forall|c: Seq<ComponentView>| #[trigger] view.contains_key(c) && is_direct_child(k, c) implies
                exists|a: int| 0 <= a < entries@.len() && describes(#[trigger] entries@[a], view[c].0.text, view[c].1) by {
                assert(has_key(listed@, c));
                let a = choose|a: int| 0 <= a < listed@.len() && key_at(listed@, a) == c;
                assert(describes(entries@[a], view[c].0.text, view[c].1));
            }
            assert(lists_children(resp.entries@, k, view));
        }
        Ok(resp)
    }

    /// Handles a file deletion: removes the file and marks each of its chunks
    /// that the table knows for deletion.
    pub fn delete_file(&mut self, req: &PathRequest) -> (r: Result<Empty, RpcStatus>)
        requires
            old(self).wf(),
        ensures
            final(self).wf(),
            final(self).node_registry.nodes() == old(self).node_registry.nodes(),
            final(self).pending_commands.queued() == old(self).pending_commands.queued(),
            final(self).chunk_table.next_handle_spec() == old(self).chunk_table.next_handle_spec(),
            final(self).replication_factor == old(self).replication_factor,
            final(self).lease_duration_ms == old(self).lease_duration_ms,
            ({
                let k = std_path_components(req.path@);
                &&& !old(self).namespace.view().contains_key(k) ==> {
                    &&& r matches Err(st) && st.code == RpcCode::NotFound && st.message@ == "File not found: "@ + req.path@
                    &&& final(self).namespace.view() == old(self).namespace.view()
                    &&& final(self).chunk_table.chunks() == old(self).chunk_table.chunks()
                }
                &&& old(self).namespace.view().contains_key(k) ==> {
                    &&& r == Ok::<Empty, RpcStatus>(Empty {})
                    &&& final(self).namespace.view() == old(self).namespace.view().remove(k)
                    &&& final(self).chunk_table.chunks() == mark_pending(old(self).chunk_table.chunks(), old(self).namespace.view()[k].1.chunks)
                }
            }),
    {
        let path = GfsPath::from_text(req.path.clone());
        let meta = match self.namespace.delete_file(&path) {
            Ok(m) => m,
            Err(e) => {
                proof {
                    assert(self.chunk_table.chunks() =~= old(self).chunk_table.chunks());
                }
                return Err(namespace_status(RpcCode::NotFound, &e));
            },
        };
        let ghost start = self.chunk_table.chunks();
        let n = meta.chunks.len();
        let mut i: usize = 0;
        proof {
            assert(mark_pending(start, meta.chunks@.take(0)) =~= start);
        }
        while i < n
            invariant
                n == meta.chunks@.len(),
                i <= n,
                self.chunk_table.wf(),
                self.namespace.wf(),
                self.namespace.view() == old(self).namespace.view().remove(path@.components),
                self.node_registry.nodes() == old(self).node_registry.nodes(),
                self.pending_commands.queued() == old(self).pending_commands.queued(),
                self.replication_factor == old(self).replication_factor,
                self.lease_duration_ms == old(self).lease_duration_ms,
                self.chunk_table.next_handle_spec() == old(self).chunk_table.next_handle_spec(),
                self.chunk_table.chunks() == mark_pending(start, meta.chunks@.take(i as int)),
            decreases n - i,
        {
            let h = meta.chunks[i];
            proof {
                assert(meta.chunks@.take(i + 1) =~= meta.chunks@.take(i as int).push(h));
                assert forall|x: u64| #[trigger] meta.chunks@.take(i + 1).contains(x) == (meta.chunks@.take(i as int).contains(x) || x == h) by {
                    if x == h {
                        assert(meta.chunks@.take(i + 1)[i as int] == h);
                    }
                    let t0 = meta.chunks@.take(i as int);
                    if t0.contains(x) {
                        let j = choose|j: int| 0 <= j < t0.len() && t0[j] == x;
                        assert(meta.chunks@.take(i + 1)[j] == x);
                    }
                    let t1 = meta.chunks@.take(i + 1);
                    if t1.contains(x) && x != h {
                        let j = choose|j: int| 0 <= j < t1.len() && t1[j] == x;
                        assert(meta.chunks@.take(i as int)[j] == x);
                    }
                }
            }
            match self.chunk_table.get(h) {
                Some(mut m) => {
                    m.pending_delete = true;
                    self.chunk_table.insert(h, m);
                    proof {
                        assert(self.chunk_table.chunks() =~= mark_pending(start, meta.chunks@.take(i + 1)));
                    }
                },
                None => {
                    proof {
                        assert(self.chunk_table.chunks() =~= mark_pending(start, meta.chunks@.take(i + 1)));
                    }
                },
            }
            i = i + 1;
        }
        proof {
            assert(meta.chunks@.take(n as int) =~= meta.chunks@);
        }
        Ok(Empty {})
    }

    /// The chunks not marked for deletion that have fewer than
    /// `REPLICATION_FACTOR` replicas, with their replica counts, each once.
    pub fn under_replicated_chunks(&self) -> (r: Vec<(u64, usize)>)
        requires
            self.wf(),
        ensures
            r@.map_values(|e: (u64, usize)| e.0).no_duplicates(),
            forall|i: int| 0 <= i < r@.len() ==> {
                let h = (#[trigger] r@[i]).0;
                &&& self.chunk_table.chunks().contains_key(h)
                &&& r@[i].1 == self.chunk_table.chunks()[h].locations.len()
                &&& r@[i].1 < REPLICATION_FACTOR
                &&& !self.chunk_table.chunks()[h].pending_delete
            },
            forall|h: u64| #[trigger] self.chunk_table.chunks().contains_key(h)
                && self.chunk_table.chunks()[h].locations.len() < REPLICATION_FACTOR
                && !self.chunk_table.chunks()[h].pending_delete
                ==> r@.map_values(|e: (u64, usize)| e.0).contains(h),
    {
        let handles = self.chunk_table.handles();
        let chunks = Ghost(self.chunk_table.chunks());
        let mut r: Vec<(u64, usize)> = Vec::new();
        let n = handles.len();
        let mut i: usize = 0;
        while i < n
            invariant
                n == handles@.len(),
                i <= n,
                self.wf(),
                chunks@ == self.chunk_table.chunks(),
                handles@.no_duplicates(),
                handles@.to_set() == chunks@.dom(),
                forall|a: int| 0 <= a < r@.len() ==> exists|j: int| 0 <= j < i && handles@[j] == (#[trigger] r@[a]).0,
                r@.map_values(|e: (u64, usize)| e.0).no_duplicates(),
                forall|a: int| 0 <= a < r@.len() ==> {
                    let h = (#[trigger] r@[a]).0;
                    &&& chunks@.contains_key(h)
                    &&& r@[a].1 == chunks@[h].locations.len()
                    &&& r@[a].1 < REPLICATION_FACTOR
                    &&& !chunks@[h].pending_delete
                },
                forall|j: int| 0 <= j < i && chunks@[#[trigger] handles@[j]].locations.len() < REPLICATION_FACTOR
                    && !chunks@[handles@[j]].pending_delete ==> r@.map_values(|e: (u64, usize)| e.0).contains(handles@[j]),
            decreases n - i,
        {
            let h = handles[i];
            proof {
                assert(handles@.to_set().contains(h));
            }
            let meta = self.chunk_table.get(h);
            match meta {
                Some(m) => {
                    if m.locations.len() < REPLICATION_FACTOR && !m.pending_delete {
                        let ghost prev = r@;
                        proof {
                            assert forall|a: int| 0 <= a < prev.len() implies prev[a].0 != h by {
                                let j = choose|j: int| 0 <= j < i && handles@[j] == prev[a].0;
                                assert(handles@[j] != handles@[i as int]);
                            }
                        }
                        r.push((h, m.locations.len()));
                        proof {
                            let ks = r@.map_values(|e: (u64, usize)| e.0);
                            assert(ks =~= prev.map_values(|e: (u64, usize)| e.0).push(h));
                            assert(ks[ks.len() - 1] == h);
                            assert forall|a: int| 0 <= a < r@.len() implies exists|j: int| 0 <= j < i + 1 && handles@[j] == (#[trigger] r@[a]).0 by {
                                if a == r@.len() - 1 {
                                    assert(handles@[i as int] == r@[a].0);
                                } else {
                                    assert(r@[a] == prev[a]);
                                }
                            }
                            assert forall|j: int| 0 <= j < i + 1 && chunks@[#[trigger] handles@[j]].locations.len() < REPLICATION_FACTOR
                                && !chunks@[handles@[j]].pending_delete implies ks.contains(handles@[j]) by {
                                if j < i {
                                    let pk = prev.map_values(|e: (u64, usize)| e.0);
                                    assert(pk.contains(handles@[j]));
                                    let a = choose|a: int| 0 <= a < pk.len() && pk[a] == handles@[j];
                                    assert(ks[a] == handles@[j]);
                                }
                            }
                        }
                    }
                },
                None => {},
            }
            i = i + 1;
        }
        proof {
            assert forall|h: u64| #[trigger] chunks@.contains_key(h) && chunks@[h].locations.len() < REPLICATION_FACTOR
                && !chunks@[h].pending_delete implies r@.map_values(|e: (u64, usize)| e.0).contains(h) by {
                assert(handles@.to_set().contains(h));
                let j = choose|j: int| 0 <= j < handles@.len() && handles@[j] == h;
            }
        }
        r
    }

    /// Scans for under-replicated chunks at `now` and queues a copy of each:
    /// for a chunk with fewer than `REPLICATION_FACTOR` replicas that is not
    /// marked for deletion, a `CLONE_TO` command naming a least-loaded live
    /// node that does not hold it waits for the chunk's first live holder,
    /// to be delivered with that holder's next heartbeat. A chunk already
    /// waiting to be copied there gets no second command, and a chunk without
    /// a live holder, or with every live node holding it, gets none. Returns
    /// the under-replicated chunks with their replica counts, each once.
    pub fn detect_under_replication_at(&mut self, now: u64) -> (r: Vec<(u64, usize)>)
        requires
            old(self).wf(),
        ensures
            final(self).wf(),
            final(self).namespace.view() == old(self).namespace.view(),
            final(self).chunk_table.chunks() == old(self).chunk_table.chunks(),
            final(self).chunk_table.next_handle_spec() == old(self).chunk_table.next_handle_spec(),
            final(self).node_registry.nodes() == old(self).node_registry.nodes(),
            final(self).replication_factor == old(self).replication_factor,
            final(self).lease_duration_ms == old(self).lease_duration_ms,
            r@.map_values(|e: (u64, usize)| e.0).no_duplicates(),
            forall|i: int| 0 <= i < r@.len() ==> {
                let h = (#[trigger] r@[i]).0;
                &&& old(self).chunk_table.chunks().contains_key(h)
                &&& r@[i].1 == old(self).chunk_table.chunks()[h].locations.len()
                &&& under_replicated(old(self).chunk_table.chunks()[h])
            },
            forall|h: u64| #[trigger] old(self).chunk_table.chunks().contains_key(h)
                && under_replicated(old(self).chunk_table.chunks()[h])
                ==> r@.map_values(|e: (u64, usize)| e.0).contains(h),
            clones_appended(
                old(self).pending_commands.queued(),
                final(self).pending_commands.queued(),
                old(self).chunk_table.chunks(),
                old(self).node_registry.nodes(),
                live_ids(old(self).node_registry.nodes(), now, HEARTBEAT_TIMEOUT_MS),
            ),
            forall|h: u64| #[trigger] clone_covered(
                final(self).pending_commands.queued(),
                old(self).chunk_table.chunks(),
                live_ids(old(self).node_registry.nodes(), now, HEARTBEAT_TIMEOUT_MS),
                h,
            ),
    {
        let r = self.under_replicated_chunks();
        let live = self.node_registry.get_live_nodes_at(now, HEARTBEAT_TIMEOUT_MS);
        let ghost chunks = self.chunk_table.chunks();
        let ghost nodes = self.node_registry.nodes();
        let ghost liveset = live_ids(nodes, now, HEARTBEAT_TIMEOUT_MS);
        let ghost q0 = self.pending_commands.queued();
        let n = r.len();
        let mut j: usize = 0;
        proof {
            assert forall|k: Seq<char>| #[trigger] q0.contains_key(k) implies waiting_for(q0, k).take(waiting_for(q0, k).len() as int) == waiting_for(q0, k) by {
                assert(waiting_for(q0, k).take(waiting_for(q0, k).len() as int) =~= waiting_for(q0, k));
            }
        }
        while j < n
            invariant
                n == r@.len(),
                j <= n,
                self.wf(),
                self.namespace.view() == old(self).namespace.view(),
                self.chunk_table.chunks() == chunks,
                chunks == old(self).chunk_table.chunks(),
                self.chunk_table.next_handle_spec() == old(self).chunk_table.next_handle_spec(),
                self.node_registry.nodes() == nodes,
                nodes == old(self).node_registry.nodes(),
                self.replication_factor == old(self).replication_factor,
                self.lease_duration_ms == old(self).lease_duration_ms,
                liveset == live_ids(nodes, now, HEARTBEAT_TIMEOUT_MS),
                q0 == old(self).pending_commands.queued(),
                node_ids(live@).to_set() == liveset,
                forall|i: int| 0 <= i < live@.len() ==> nodes.contains_key(#[trigger] live@[i].0@) && live@[i].1@ == nodes[live@[i].0@],
                forall|i: int| 0 <= i < r@.len() ==> {
                    let h = (#[trigger] r@[i]).0;
                    &&& chunks.contains_key(h)
                    &&& under_replicated(chunks[h])
                },
                clones_appended(q0, self.pending_commands.queued(), chunks, nodes, liveset),
                forall|a: int| 0 <= a < j ==> clone_covered(self.pending_commands.queued(), chunks, liveset, (#[trigger] r@[a]).0),
            decreases n - j,
        {
            let h = r[j].0;
            let ghost q = self.pending_commands.queued();
            match self.chunk_table.get(h) {
                Some(meta) => {
                    let ghost locs = chunks[h].locations;
                    match first_live_location(&meta.locations, &live) {
                        Some(src) => {
                            match least_loaded_outside(&live, &meta.locations) {
                                Some(b) => {
                                    let target = ChunkLocation {
                                        node: Some(NodeId { value: live[b].0.clone() }),
                                        grpc_addr: live[b].1.addr.clone(),
                                    };
                                    let ghost t = live@[b as int].0@;
                                    proof {
                                        assert(node_ids(live@)[b as int] == t);
                                        assert(liveset.contains(t));
                                        assert forall|k: Seq<char>| #[trigger] liveset.contains(k) && !locs.contains(k)
                                            implies load_le(nodes[t], nodes[k]) by {
                                            let i = choose|i: int| 0 <= i < node_ids(live@).len() && node_ids(live@)[i] == k;
                                            assert(live@[i].0@ == k);
                                        }
                                        assert(is_clone_target(t, locs, nodes, liveset));
                                        assert(planned_clone(chunks, nodes, liveset, src@, clone_command(h, target)));
                                    }
                                    let queued = self.pending_commands.queue_clone(&src, h, target);
                                    proof {
                                        let w = waiting_for(q, src@);
                                        let c = clone_command(h, target);
                                        if queued {
                                            lemma_clone_appended(q0, q, chunks, nodes, liveset, src@, c);
                                            assert(w.push(c)[w.len() as int] == c);
                                        }
                                        let q1 = self.pending_commands.queued();
                                        assert(has_clone_for(waiting_for(q1, src@), h));
                                        assert forall|a: int| 0 <= a < j + 1 implies clone_covered(q1, chunks, liveset, (#[trigger] r@[a]).0) by {
                                            if a < j {
                                                let ha = r@[a].0;
                                                if clone_covered(q, chunks, liveset, ha) && queued {
                                                    let sa = first_live(chunks[ha].locations, liveset);
                                                    if chunks.contains_key(ha) && under_replicated(chunks[ha]) && sa is Some
                                                        && exists|t: Seq<char>| #[trigger] liveset.contains(t) && !chunks[ha].locations.contains(t) {
                                                        if sa->Some_0 == src@ {
                                                            lemma_clone_kept(w, c, ha);
                                                        }
                                                    }
                                                }
                                            }
                                        }
                                    }
                                },
                                None => {
                                    proof {
                                        assert forall|a: int| 0 <= a < j + 1 implies clone_covered(q, chunks, liveset, (#[trigger] r@[a]).0) by {
                                            if a == j {
                                                if exists|t: Seq<char>| #[trigger] liveset.contains(t) && !locs.contains(t) {
                                                    let t = choose|t: Seq<char>| #[trigger] liveset.contains(t) && !locs.contains(t);
                                                    let i = choose|i: int| 0 <= i < node_ids(live@).len() && node_ids(live@)[i] == t;
                                                    assert(live@[i].0@ == t);
                                                }
                                            }
                                        }
                                    }
                                },
                            }
                        },
                        None => {},
                    }
                },
                None => {},
            }
            j = j + 1;
        }
        proof {
            assert forall|h: u64| #[trigger] clone_covered(self.pending_commands.queued(), chunks, liveset, h) by {
                if chunks.contains_key(h) && under_replicated(chunks[h]) {
                    let ks = r@.map_values(|e: (u64, usize)| e.0);
                    assert(ks.contains(h));
                    let a = choose|a: int| 0 <= a < ks.len() && ks[a] == h;
                    assert(r@[a].0 == h);
                }
            }
        }
        r
    }

    /// Scans for under-replicated chunks at the current time on the master's monotonic
    /// clock and queues a
    /// copy of each, as `detect_under_replication_at` does.
    pub fn detect_under_replication(&mut self) -> (r: Vec<(u64, usize)>)
        requires
            old(self).wf(),
        ensures
            final(self).wf(),
            final(self).namespace.view() == old(self).namespace.view(),
            final(self).chunk_table.chunks() == old(self).chunk_table.chunks(),
            final(self).node_registry.nodes() == old(self).node_registry.nodes(),
            forall|h: u64| #[trigger] old(self).chunk_table.chunks().contains_key(h)
                && under_replicated(old(self).chunk_table.chunks()[h])
                ==> r@.map_values(|e: (u64, usize)| e.0).contains(h),
            exists|now: u64| #[trigger] clones_appended(
                old(self).pending_commands.queued(),
                final(self).pending_commands.queued(),
                old(self).chunk_table.chunks(),
                old(self).node_registry.nodes(),
                live_ids(old(self).node_registry.nodes(), now, HEARTBEAT_TIMEOUT_MS),
            ) && forall|h: u64| #[trigger] clone_covered(
                final(self).pending_commands.queued(),
                old(self).chunk_table.chunks(),
                live_ids(old(self).node_registry.nodes(), now, HEARTBEAT_TIMEOUT_MS),
                h,
            ),
    {
        let now = self.clock.now_millis();
        let ghost before = *self;
        let r = self.detect_under_replication_at(now);
        proof {
            assert(clones_appended(
                before.pending_commands.queued(),
                self.pending_commands.queued(),
                before.chunk_table.chunks(),
                before.node_registry.nodes(),
                live_ids(before.node_registry.nodes(), now, HEARTBEAT_TIMEOUT_MS),
            ));
        }
        r
    }

    /// Drops from every chunk's locations the nodes that are not live at `now`
    /// (no heartbeat for `HEARTBEAT_TIMEOUT_MS`).
    pub fn reap_dead_nodes_at(&mut self, now: u64)
        requires
            old(self).wf(),
        ensures
            final(self).wf(),
            reap_done(*old(self), *final(self), now),
    {
        let live = self.node_registry.get_live_nodes_at(now, HEARTBEAT_TIMEOUT_MS);
        let ghost liveset = live_ids(self.node_registry.nodes(), now, HEARTBEAT_TIMEOUT_MS);
        let handles = self.chunk_table.handles();
        let ghost start = self.chunk_table.chunks();
        let n = handles.len();
        let mut i: usize = 0;
        proof {
            assert(reaped(start, handles@.take(0), liveset) =~= start);
        }
        while i < n
            invariant
                n == handles@.len(),
                i <= n,
                handles@.no_duplicates(),
                handles@.to_set() == start.dom(),
                node_ids(live@).to_set() == liveset,
                self.chunk_table.wf(),
                self.namespace.wf(),
                self.namespace.view() == old(self).namespace.view(),
                self.node_registry.nodes() == old(self).node_registry.nodes(),
                self.pending_commands.queued() == old(self).pending_commands.queued(),
                self.replication_factor == old(self).replication_factor,
                self.lease_duration_ms == old(self).lease_duration_ms,
                self.chunk_table.next_handle_spec() == old(self).chunk_table.next_handle_spec(),
                self.chunk_table.chunks() == reaped(start, handles@.take(i as int), liveset),
            decreases n - i,
        {
            let h = handles[i];
            let ghost t0 = handles@.take(i as int);
            let ghost t1 = handles@.take(i + 1);
            proof {
                assert(t1 =~= t0.push(h));
                assert(handles@.to_set().contains(h));
                assert(!t0.contains(h)) by {
                    if t0.contains(h) {
                        let j = choose|j: int| 0 <= j < t0.len() && t0[j] == h;
                        assert(handles@[j] == handles@[i as int]);
                    }
                }
                assert forall|x: u64| #[trigger] t1.contains(x) == (t0.contains(x) || x == h) by {
                    if x == h {
                        assert(t1[i as int] == h);
                    }
                    if t0.contains(x) {
                        let j = choose|j: int| 0 <= j < t0.len() && t0[j] == x;
                        assert(t1[j] == x);
                    }
                    if t1.contains(x) && x != h {
                        let j = choose|j: int| 0 <= j < t1.len() && t1[j] == x;
                        assert(t0[j] == x);
                    }
                }
            }
            match self.chunk_table.get(h) {
                Some(mut meta) => {
                    let mut kept: Vec<String> = Vec::new();
                    let m = meta.locations.len();
                    let mut j: usize = 0;
                    while j < m
                        invariant
                            m == meta.locations@.len(),
                            j <= m,
                            node_ids(live@).to_set() == liveset,
                            strings_view(kept@) == keep_live(strings_view(meta.locations@).take(j as int), liveset),
                        decreases m - j,
                    {
                        let ghost prev = kept@;
                        let loc = &meta.locations[j];
                        proof {
                            assert(strings_view(meta.locations@).take(j + 1).drop_last() =~= strings_view(meta.locations@).take(j as int));
                            assert(strings_view(meta.locations@).take(j + 1).last() == loc@);
                        }
                        if names_entry(&live, loc) {
                            kept.push(loc.clone());
                            proof {
                                assert(strings_view(kept@) =~= strings_view(prev).push(loc@));
                            }
                        }
                        j = j + 1;
                    }
                    proof {
                        assert(strings_view(meta.locations@).take(m as int) =~= strings_view(meta.locations@));
                        lemma_keep_live(strings_view(meta.locations@), liveset);
                    }
                    meta.locations = kept;
                    self.chunk_table.insert(h, meta);
                    proof {
                        assert(self.chunk_table.chunks() =~= reaped(start, t1, liveset));
                    }
                },
                None => {},
            }
            i = i + 1;
        }
        proof {
            assert(handles@.take(n as int) =~= handles@);
            assert forall|h: u64| start.contains_key(h) implies handles@.contains(h) by {
                assert(handles@.to_set().contains(h));
            }
            assert(self.chunk_table.chunks() =~= Map::new(
                |h: u64| start.contains_key(h),
                |h: u64| ChunkMetadataView { locations: keep_live(start[h].locations, liveset), ..start[h] },
            ));
        }
        self.node_registry.retain_live_at(now, HEARTBEAT_TIMEOUT_MS);
    }

    /// Handles a lease request at `now` on the monotonic clock, `wall` being
    /// the wall-clock time in milliseconds since the Unix epoch: the requesting
    /// node becomes primary of the chunk until `now` plus the lease duration if
    /// it holds a replica, and the answer gives that expiry as `wall` plus the
    /// lease duration. A request without a handle names chunk 0.
    pub fn request_lease_at(&mut self, req: LeaseRequest, now: u64, wall: u64) -> (resp: LeaseResponse)
        requires
            old(self).wf(),
            now + old(self).lease_duration_ms <= u64::MAX,
            wall + old(self).lease_duration_ms <= i64::MAX,
        ensures
            final(self).wf(),
            lease_done(*old(self), *final(self), req, now, wall, resp),
    {
        let node_id = node_id_or_default(req.node);
        let id = match req.handle {
            Some(h) => h.id,
            None => 0,
        };
        let holds = match self.chunk_table.get(id) {
            Some(meta) => contains_string(&meta.locations, &node_id),
            None => false,
        };
        let granted = if holds {
            self.chunk_table.grant_lease_at(id, node_id, self.lease_duration_ms, now)
        } else {
            false
        };
        let expiry: i64 = if granted { wall as i64 + self.lease_duration_ms as i64 } else { 0 };
        LeaseResponse {
            granted,
            handle: Some(ChunkHandle { id }),
            version: Some(ChunkVersion { value: 1 }),
            lease_expiry_unix_millis: expiry,
        }
    }
}

/// Chunk reports never change a chunk that is pending deletion; each report
/// of such a chunk adds a delete command for it; commands already queued stay
/// first.
pub proof fn lemma_reports_reclaim_pending(
    chunks: Map<u64, ChunkMetadataView>,
    commands: Seq<MasterCommand>,
    node: Seq<char>,
    reports: Seq<ChunkReport>,
)
    ensures
        forall|id: u64| #[trigger] chunks.contains_key(id) && chunks[id].pending_delete ==> {
            &&& apply_reports(chunks, commands, node, reports).0.contains_key(id)
            &&& apply_reports(chunks, commands, node, reports).0[id] == chunks[id]
        },
        forall|i: int| 0 <= i < reports.len() && (#[trigger] reports[i]).handle is Some
            && chunks.contains_key(reports[i].handle->0.id) && chunks[reports[i].handle->0.id].pending_delete
            ==> apply_reports(chunks, commands, node, reports).1.contains(delete_command(reports[i].handle->0)),
        apply_reports(chunks, commands, node, reports).1.len() >= commands.len(),
        apply_reports(chunks, commands, node, reports).1.take(commands.len() as int) == commands,
    decreases reports.len(),
{
    if reports.len() > 0 {
        let prev = reports.drop_last();
        lemma_reports_reclaim_pending(chunks, commands, node, prev);
        let st = apply_reports(chunks, commands, node, prev);
        let fin = apply_reports(chunks, commands, node, reports);
        assert(fin == apply_report(st, node, reports.last()));
        assert(st.1.take(commands.len() as int) == commands);
        assert(fin.1.take(commands.len() as int) =~= commands);
        assert forall|i: int| 0 <= i < reports.len() && (#[trigger] reports[i]).handle is Some
            && chunks.contains_key(reports[i].handle->0.id) && chunks[reports[i].handle->0.id].pending_delete
            implies fin.1.contains(delete_command(reports[i].handle->0)) by {
            let h = reports[i].handle->0;
            assert(st.0.contains_key(h.id) && st.0[h.id] == chunks[h.id]);
            if i < reports.len() - 1 {
                assert(prev[i] == reports[i]);
                assert(st.1.contains(delete_command(h)));
                let j = choose|j: int| 0 <= j < st.1.len() && st.1[j] == delete_command(h);
                assert(fin.1[j] == delete_command(h));
            } else {
                assert(fin.1 == st.1.push(delete_command(h)));
                assert(fin.1[st.1.len() as int] == delete_command(h));
            }
        }
    }
}

/// A replica reported corrupted stops being a location of its chunk, and the
/// chunk's other locations stay; commands are unchanged.
pub proof fn lemma_corrupted_replica_dropped(
    chunks: Map<u64, ChunkMetadataView>,
    commands: Seq<MasterCommand>,
    node: Seq<char>,
    report: ChunkReport,
)
    requires
        report.handle is Some,
        report.corrupted,
        chunks.contains_key(report.handle->0.id),
        !chunks[report.handle->0.id].pending_delete,
    ensures
        ({
            let id = report.handle->0.id;
            let after = apply_report((chunks, commands), node, report);
            &&& after.1 == commands
            &&& after.0.contains_key(id)
            &&& !after.0[id].locations.contains(node)
            &&& forall|x: Seq<char>| x != node ==> (#[trigger] after.0[id].locations.contains(x) <==> chunks[id].locations.contains(x))
            &&& forall|k: u64| k != id ==> (after.0.contains_key(k) == chunks.contains_key(k))
            &&& forall|k: u64| k != id && #[trigger] chunks.contains_key(k) ==> after.0[k] == chunks[k]
        }),
{
    let id = report.handle->0.id;
    let keep = all_but(node);
    lemma_keep_live(chunks[id].locations, keep);
    let after = apply_report((chunks, commands), node, report);
    assert(report.handle == Some(ChunkHandle { id }));
    assert(after == (chunks.insert(id, unlocated(chunks, id, node)), commands));
    assert(after.0[id].locations == without_location(chunks[id].locations, node));
    assert(without_location(chunks[id].locations, node) == keep_live(chunks[id].locations, keep));
    assert(!keep.contains(node));
}

/// Once a file is deleted, every later heartbeat that reports one of its
/// chunks orders that chunk deleted, and does not list the reporting node as
/// a replica again.
pub proof fn lemma_deleted_chunks_are_reclaimed(
    chunks: Map<u64, ChunkMetadataView>,
    file_chunks: Seq<u64>,
    commands: Seq<MasterCommand>,
    node: Seq<char>,
    reports: Seq<ChunkReport>,
    i: int,
)
    requires
        0 <= i < reports.len(),
        reports[i].handle is Some,
        file_chunks.contains(reports[i].handle->0.id),
        chunks.contains_key(reports[i].handle->0.id),
    ensures
        ({
            let h = reports[i].handle->0;
            let after = apply_reports(mark_pending(chunks, file_chunks), commands, node, reports);
            &&& after.1.contains(delete_command(h))
            &&& after.0[h.id] == mark_pending(chunks, file_chunks)[h.id]
        }),
{
    let marked = mark_pending(chunks, file_chunks);
    let h = reports[i].handle->0;
    assert(marked.contains_key(h.id) && marked[h.id].pending_delete);
    lemma_reports_reclaim_pending(marked, commands, node, reports);
    assert(reports[i].handle is Some);
}

/// After dead nodes are reaped, every replica location of every chunk is a
/// live node.
pub proof fn lemma_reaped_locations_live(chunks: Map<u64, ChunkMetadataView>, live: Set<Seq<char>>)
    ensures
        ({
            let after = Map::new(
                |h: u64| chunks.contains_key(h),
                |h: u64| ChunkMetadataView { locations: keep_live(chunks[h].locations, live), ..chunks[h] },
            );
            forall|h: u64, j: int| #[trigger] after.contains_key(h) && 0 <= j < after[h].locations.len()
                ==> live.contains(#[trigger] after[h].locations[j])
        }),
{
    let after = Map::new(
        |h: u64| chunks.contains_key(h),
        |h: u64| ChunkMetadataView { locations: keep_live(chunks[h].locations, live), ..chunks[h] },
    );
    assert forall|h: u64, j: int| #[trigger] after.contains_key(h) && 0 <= j < after[h].locations.len()
        implies live.contains(#[trigger] after[h].locations[j]) by {
        lemma_keep_live(chunks[h].locations, live);
    }
}

/// Once a registered chunk server is granted a chunk's lease, location
/// requests name it as the primary and report the lease's remaining time.
pub proof fn lemma_lease_then_locations(
    chunks: Map<u64, ChunkMetadataView>,
    nodes: Map<Seq<char>, NodeStateView>,
    handle: u64,
    node: Seq<char>,
    expiry: u64,
    now: u64,
)
    requires
        chunks.contains_key(handle),
        nodes.contains_key(node),
        now <= expiry,
        expiry - now <= i64::MAX,
    ensures
        ({
            let meta = leased(chunks, handle, node, expiry)[handle];
            &&& primary_location(meta.primary, nodes) == Some(ChunkLocationView { node: Some(node), grpc_addr: nodes[node].addr })
            &&& remaining_lease(meta.lease_expiry, now) == expiry - now
            &&& meta.locations == chunks[handle].locations
            &&& meta.version == chunks[handle].version
        }),
{
}

impl Master {
    /// A master with only the root directory, created now.
    pub fn new(replication_factor: usize, lease_duration_ms: u64) -> (m: Self)
        ensures
            m.wf(),
            m.replication_factor == replication_factor,
            m.lease_duration_ms == lease_duration_ms,
            m.chunk_table.chunks() == Map::<u64, ChunkMetadataView>::empty(),
            m.chunk_table.next_handle_spec() == 1,
            m.node_registry.nodes() == Map::<Seq<char>, NodeStateView>::empty(),
            m.pending_commands.queued() == Map::<Seq<char>, Seq<MasterCommand>>::empty(),
            exists|now: u64| m.namespace.view() == #[trigger] root_only(now),
    {
        let now = unix_millis_now();
        let m = Master::new_at(replication_factor, lease_duration_ms, now);
        proof {
            assert(m.namespace.view() == root_only(now));
        }
        m
    }

    /// Handles a heartbeat received now, on the master's monotonic clock.
    pub fn heartbeat(&mut self, req: HeartbeatRequest) -> (resp: HeartbeatResponse)
        requires
            old(self).wf(),
        ensures
            final(self).wf(),
            exists|now: u64| #[trigger] heartbeat_done(*old(self), *final(self), req, now, resp),
    {
        let now = self.clock.now_millis();
        let ghost request = req;
        let resp = self.heartbeat_at(req, now);
        proof {
            assert(heartbeat_done(*old(self), *final(self), request, now, resp));
        }
        resp
    }

    /// Handles a file-creation request now, stamped with the wall-clock time.
    pub fn create_file(&mut self, req: &CreateFileRequest) -> (r: Result<CreateFileResponse, RpcStatus>)
        requires
            old(self).wf(),
        ensures
            final(self).wf(),
            exists|now: u64| #[trigger] create_done(*old(self), *final(self), *req, now, r),
    {
        let now = unix_millis_now();
        let r = self.create_file_at(req, now);
        proof {
            assert(create_done(*old(self), *final(self), *req, now, r));
        }
        r
    }

    /// Handles a chunk-location request now, on the master's monotonic clock.
    pub fn get_chunk_locations(&self, req: ChunkHandle) -> (r: Result<ChunkLocationsResponse, RpcStatus>)
        requires
            self.wf(),
        ensures
            exists|now: u64| #[trigger] locations_answer(*self, req, now, r),
    {
        let now = self.clock.now_millis();
        let r = self.get_chunk_locations_at(req, now);
        proof {
            assert(locations_answer(*self, req, now, r));
        }
        r
    }

    /// Handles a chunk-allocation request now: the lease is measured on the
    /// monotonic clock and the file's modification time on the wall clock (a clock reading so late that
    /// the new lease would pass the largest representable time is taken as
    /// the latest time that leaves room for it).
    pub fn allocate_chunk(&mut self, req: &AllocateChunkRequest) -> (r: Result<ChunkLocationsResponse, RpcStatus>)
        requires
            old(self).wf(),
        ensures
            final(self).wf(),
            exists|now: u64, wall: u64| #[trigger] allocate_done(*old(self), *final(self), *req, now, wall, r),
    {
        let clock = self.clock.now_millis();
        let now = if clock <= u64::MAX - ALLOCATION_LEASE_MS { clock } else { u64::MAX - ALLOCATION_LEASE_MS };
        let wall = unix_millis_now();
        let r = self.allocate_chunk_at(req, now, wall);
        proof {
            assert(allocate_done(*old(self), *final(self), *req, now, wall, r));
        }
        r
    }

    /// Drops the chunk servers that are dead now, on the master's monotonic
    /// clock, from every chunk's locations and from the registry.
    pub fn reap_dead_nodes(&mut self)
        requires
            old(self).wf(),
        ensures
            final(self).wf(),
            exists|now: u64| #[trigger] reap_done(*old(self), *final(self), now),
    {
        let now = self.clock.now_millis();
        self.reap_dead_nodes_at(now);
        proof {
            assert(reap_done(*old(self), *final(self), now));
        }
    }

    /// Handles a lease request now: the lease is kept on the monotonic clock
    /// and its expiry answered on the wall clock (a clock reading so late that the lease
    /// would pass the largest signed millisecond count is taken as the latest
    /// time that leaves room for it).
    pub fn request_lease(&mut self, req: LeaseRequest) -> (resp: LeaseResponse)
        requires
            old(self).wf(),
            old(self).lease_duration_ms <= i64::MAX,
        ensures
            final(self).wf(),
            exists|now: u64, wall: u64| #[trigger] lease_done(*old(self), *final(self), req, now, wall, resp),
    {
        let latest: u64 = 9223372036854775807u64 - self.lease_duration_ms;
        let clock = self.clock.now_millis();
        let now = if clock <= latest { clock } else { latest };
        let wall_clock = unix_millis_now();
        let wall = if wall_clock <= latest { wall_clock } else { latest };
        let ghost request = req;
        let resp = self.request_lease_at(req, now, wall);
        proof {
            assert(lease_done(*old(self), *final(self), request, now, wall, resp));
        }
        resp
    }
}

} // verus!
