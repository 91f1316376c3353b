//! A chunk server's own decisions: whether its storage directory is isolated
//! from the root file system, and the heartbeat it sends to the master.
use vstd::prelude::*;
use crate::proto::{ChunkHandle, ChunkReport, ChunkVersion, HeartbeatRequest, NodeId};
use crate::store::ChunkMeta;
use crate::checksum::ChecksumError;

verus! {

/// Free bytes a chunk server reports (100 GiB).
pub const REPORTED_FREE_BYTES: u64 = 107374182400;

/// Used bytes a chunk server reports (10 MiB).
pub const REPORTED_USED_BYTES: u64 = 10485760;

/// The storage directory of production deployments, where a failed isolation
/// check stops the server.
pub fn production_storage_dir() -> (s: String)
    ensures
        s@ == "/mnt/gfs-storage"@,
{
    "/mnt/gfs-storage".to_owned()
}

/// The isolation check fails when the storage directory lives on the same
/// device as `/`.
pub fn isolation_fails(root_device: u64, storage_device: u64) -> (r: bool)
    ensures
        r == (root_device == storage_device),
{
    root_device == storage_device
}

/// Whether a failed isolation check stops the server: only for the
/// production storage directory.
pub fn isolation_failure_is_fatal(storage_dir: &str) -> (r: bool)
    ensures
        r == (storage_dir@ == "/mnt/gfs-storage"@),
{
    let production = production_storage_dir();
    let given = storage_dir.to_owned();
    production.eq(&given)
}

/// The report of one stored chunk: its handle, its version, the CRC of its
/// first block (0 for an empty chunk), and whether the scrubber found it
/// corrupted.
pub open spec fn report_of(handle: u64, version: u64, crcs: Seq<u32>, corrupted: bool) -> ChunkReport {
    ChunkReport {
        handle: Some(ChunkHandle { id: handle }),
        version: Some(ChunkVersion { value: version }),
        crc32: if crcs.len() > 0 { crcs[0] } else { 0 },
        corrupted,
    }
}

/// The report of one stored chunk.
pub fn chunk_report(handle: u64, meta: &ChunkMeta, corrupted: bool) -> (r: ChunkReport)
    ensures
        r == report_of(handle, meta.version, meta.block_crc32@, corrupted),
{
    let crc32 = if meta.block_crc32.len() > 0 { meta.block_crc32[0] } else { 0 };
    ChunkReport {
        handle: Some(ChunkHandle { id: handle }),
        version: Some(ChunkVersion { value: meta.version }),
        crc32,
        corrupted,
    }
}

/// Whether `handle` is among `handles`.
fn listed(handles: &Vec<u64>, handle: u64) -> (r: bool)
    ensures
        r == handles@.contains(handle),
{
    let n = handles.len();
    let mut i: usize = 0;
    while i < n
        invariant
            n == handles@.len(),
            i <= n,
            forall|j: int| 0 <= j < i ==> handles@[j] != handle,
        decreases n - i,
    {
        if handles[i] == handle {
            proof {
                assert(handles@[i as int] == handle);
            }
            return true;
        }
        i = i + 1;
    }
    false
}

/// The handles among `scanned` whose scrub found at least one mismatching
/// block, in scan order.
pub open spec fn corrupted_handles(scanned: Seq<(u64, Seq<ChecksumError>)>) -> Seq<u64>
    decreases scanned.len(),
{
    if scanned.len() == 0 {
        Seq::empty()
    } else {
        let rest = corrupted_handles(scanned.drop_last());
        if scanned.last().1.len() > 0 { rest.push(scanned.last().0) } else { rest }
    }
}

/// The handles whose scrub (handle and its mismatches) found corruption.
pub fn corrupted_chunks(scanned: &Vec<(u64, Vec<ChecksumError>)>) -> (r: Vec<u64>)
    ensures
        r@ == corrupted_handles(scanned@.map_values(|e: (u64, Vec<ChecksumError>)| (e.0, e.1@))),
{
    let ghost view = scanned@.map_values(|e: (u64, Vec<ChecksumError>)| (e.0, e.1@));
    let mut r: Vec<u64> = Vec::new();
    let n = scanned.len();
    let mut i: usize = 0;
    while i < n
        invariant
            n == scanned@.len(),
            i <= n,
            view == scanned@.map_values(|e: (u64, Vec<ChecksumError>)| (e.0, e.1@)),
            r@ == corrupted_handles(view.take(i as int)),
        decreases n - i,
    {
        proof {
            assert(view.take(i + 1).drop_last() =~= view.take(i as int));
            assert(view.take(i + 1).last() == (scanned@[i as int].0, scanned@[i as int].1@));
        }
        if scanned[i].1.len() > 0 {
            r.push(scanned[i].0);
        }
        i = i + 1;
    }
    proof {
        assert(view.take(n as int) =~= view);
    }
    r
}

/// The heartbeat a chunk server sends: its identity and address, the fixed
/// capacity figures, and one report per stored chunk, in order, flagging the
/// chunks the scrubber found corrupted.
pub fn heartbeat_request(node_id: String, grpc_addr: String, chunks: &Vec<(u64, ChunkMeta)>, corrupted: &Vec<u64>) -> (req: HeartbeatRequest)
    ensures
        req.node matches Some(n) && n.value@ == node_id@,
        req.grpc_addr@ == grpc_addr@,
        req.free_bytes == REPORTED_FREE_BYTES,
        req.used_bytes == REPORTED_USED_BYTES,
        req.chunks@.len() == chunks@.len(),
        forall|i: int| 0 <= i < chunks@.len() ==> #[trigger] req.chunks@[i] == report_of(
            chunks@[i].0,
            chunks@[i].1.version,
            chunks@[i].1.block_crc32@,
            corrupted@.contains(chunks@[i].0),
        ),
{
    let mut reports: Vec<ChunkReport> = Vec::new();
    let n = chunks.len();
    let mut i: usize = 0;
    while i < n
        invariant
            n == chunks@.len(),
            i <= n,
            reports@.len() == i,
            forall|j: int| 0 <= j < i ==> #[trigger] reports@[j] == report_of(
                chunks@[j].0,
                chunks@[j].1.version,
                chunks@[j].1.block_crc32@,
                corrupted@.contains(chunks@[j].0),
            ),
        decreases n - i,
    {
        let bad = listed(corrupted, chunks[i].0);
        reports.push(chunk_report(chunks[i].0, &chunks[i].1, bad));
        i = i + 1;
    }
    HeartbeatRequest {
        node: Some(NodeId { value: node_id }),
        grpc_addr,
        free_bytes: REPORTED_FREE_BYTES,
        used_bytes: REPORTED_USED_BYTES,
        chunks: reports,
    }
}

} // verus!
