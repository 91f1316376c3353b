//! The client side of the data path: pushing data to replicas, choosing the
//! primary, and verifying the frames of a read.
use vstd::prelude::*;
use crate::checksum::{crc32_of, compute_block_crc32};
use crate::framing::{FRAME_SIZE, split_frames, split_into_frames, concat, lemma_split_frames, lemma_concat_push};
use crate::chunk_rpc::{read_frames_of, lemma_frames_fit};
use crate::proto::{
    ChunkHandle, ChunkLocation, ChunkLocationView, ChunkLocationsResponse, DataPacket, ReadChunkResponse, NodeId,
    locations_view, clone_location,
};

verus! {

/// Errors of the client's data path. RPC and transport errors carry their messages.
#[derive(Debug, Clone, PartialEq, Eq)]
pub enum PipelineError {
    Rpc(String),
    Transport(String),
    NoReplicas,
    NoPrimary,
    ChecksumMismatch { expected: u32, computed: u32 },
}

/// The client's data path. Its steps that decide or compute are the functions
/// of this module; the calls to chunk servers are made around them.
pub struct ChunkPipeline;

/// `packets` push `data` for chunk `handle` under `data_id`: consecutive
/// frames of the frame size, each with its CRC and offset in the data.
pub open spec fn packets_of(packets: Seq<DataPacket>, handle: u64, data_id: Seq<u8>, data: Seq<u8>) -> bool {
    let parts = split_frames(data, FRAME_SIZE as nat);
    &&& packets.len() == parts.len()
    &&& forall|i: int| 0 <= i < packets.len() ==> {
        &&& (#[trigger] packets[i]).data_id@ == data_id
        &&& packets[i].chunk == Some(ChunkHandle { id: handle })
        &&& packets[i].payload@ == parts[i]
        &&& packets[i].crc32 == crc32_of(parts[i])
        &&& packets[i].offset == i * FRAME_SIZE
    }
}

/// The packets in which `data` is pushed to every replica.
pub fn build_data_packets(handle: u64, data_id: &[u8], data: &[u8]) -> (packets: Vec<DataPacket>)
    ensures
        packets_of(packets@, handle, data_id@, data@),
{
    let parts = split_into_frames(data, FRAME_SIZE);
    proof {
        lemma_frames_fit(data@, FRAME_SIZE as nat);
    }
    let mut packets: Vec<DataPacket> = Vec::new();
    let n = parts.len();
    let len = data.len();
    let mut i: usize = 0;
    let mut offset: u64 = 0;
    while i < n
        invariant
            n == parts@.len(),
            len == data@.len(),
            i <= n,
            parts@.map_values(|v: Vec<u8>| v@) == split_frames(data@, FRAME_SIZE as nat),
            n > 0 ==> (n - 1) * FRAME_SIZE < data@.len(),
            i < n ==> offset == i * FRAME_SIZE,
            packets@.len() == i,
            forall|j: int| 0 <= j < i ==> {
                &&& (#[trigger] packets@[j]).data_id@ == data_id@
                &&& packets@[j].chunk == Some(ChunkHandle { id: handle })
                &&& packets@[j].payload@ == parts@[j]@
                &&& packets@[j].crc32 == crc32_of(parts@[j]@)
                &&& packets@[j].offset == j * FRAME_SIZE
            },
        decreases n - i,
    {
        let payload = parts[i].clone();
        proof {
            assert(payload@ =~= parts@[i as int]@);
        }
        let crc32 = compute_block_crc32(payload.as_slice());
        let id = vstd::slice::slice_to_vec(data_id);
        packets.push(DataPacket { data_id: id, chunk: Some(ChunkHandle { id: handle }), payload, crc32, offset });
        proof {
            assert((i + 1) * FRAME_SIZE == i * FRAME_SIZE + FRAME_SIZE) by (nonlinear_arith);
            if i + 1 < n {
                assert((i + 1) * FRAME_SIZE <= (n - 1) * FRAME_SIZE) by (nonlinear_arith) requires i + 1 <= n - 1;
            }
        }
        if i + 1 < n {
            offset = offset + FRAME_SIZE as u64;
        }
        i = i + 1;
    }
    proof {
        assert forall|j: int| 0 <= j < packets@.len() implies (#[trigger] packets@[j]).payload@ == split_frames(data@, FRAME_SIZE as nat)[j] by {
            assert(parts@.map_values(|v: Vec<u8>| v@)[j] == parts@[j]@);
        }
    }
    packets
}

/// The payloads of the pushed packets, in order, are the data.
pub proof fn lemma_packets_carry_data(packets: Seq<DataPacket>, handle: u64, data_id: Seq<u8>, data: Seq<u8>)
    requires
        packets_of(packets, handle, data_id, data),
    ensures
        concat(packets.map_values(|p: DataPacket| p.payload@)) == data,
{
    lemma_split_frames(data, FRAME_SIZE as nat);
    assert(packets.map_values(|p: DataPacket| p.payload@) =~= split_frames(data, FRAME_SIZE as nat));
}

/// Every replica of a mutation: the primary first, then the secondaries.
pub fn all_replicas(primary: &ChunkLocation, secondaries: &Vec<ChunkLocation>) -> (r: Vec<ChunkLocation>)
    ensures
        locations_view(r@) == seq![primary@] + locations_view(secondaries@),
{
    let mut r: Vec<ChunkLocation> = Vec::new();
    r.push(clone_location(primary));
    let n = secondaries.len();
    let mut i: usize = 0;
    while i < n
        invariant
            n == secondaries@.len(),
            i <= n,
            locations_view(r@) == seq![primary@] + locations_view(secondaries@).take(i as int),
        decreases n - i,
    {
        let ghost prev = r@;
        r.push(clone_location(&secondaries[i]));
        proof {
            assert(locations_view(r@) =~= locations_view(prev).push(secondaries@[i as int]@));
            assert(locations_view(secondaries@).take(i + 1) =~= locations_view(secondaries@).take(i as int).push(secondaries@[i as int]@));
        }
        i = i + 1;
    }
    proof {
        assert(locations_view(secondaries@).take(n as int) =~= locations_view(secondaries@));
    }
    r
}

/// Whether two optional node identifiers are equal.
fn same_node(a: &Option<NodeId>, b: &Option<NodeId>) -> (r: bool)
    ensures
        r == (match (a, b) {
            (Some(x), Some(y)) => x.value@ == y.value@,
            (None, None) => true,
            _ => false,
        }),
{
    match (a, b) {
        (Some(x), Some(y)) => x.value.eq(&y.value),
        (None, None) => true,
        _ => false,
    }
}

/// The replicas other than the primary: the locations whose node differs
/// from the primary's, in order.
pub open spec fn other_replicas(locs: Seq<ChunkLocationView>, primary: ChunkLocationView) -> Seq<ChunkLocationView>
    decreases locs.len(),
{
    if locs.len() == 0 {
        Seq::empty()
    } else {
        let rest = other_replicas(locs.drop_last(), primary);
        if locs.last().node != primary.node { rest.push(locs.last()) } else { rest }
    }
}

/// `x` occurs in `locs` before `y` does.
pub open spec fn appear_in_order(locs: Seq<ChunkLocationView>, x: ChunkLocationView, y: ChunkLocationView) -> bool {
    exists|a: int, b: int| 0 <= a < b < locs.len() && locs[a] == x && locs[b] == y
}

/// The locations kept as secondaries are those on other nodes than the
/// primary, and their count is at most that of the locations.
proof fn lemma_other_replicas_members(locs: Seq<ChunkLocationView>, primary: ChunkLocationView)
    ensures
        forall|x: ChunkLocationView| #[trigger] other_replicas(locs, primary).contains(x)
            <==> (locs.contains(x) && x.node != primary.node),
        other_replicas(locs, primary).len() <= locs.len(),
    decreases locs.len(),
{
    if locs.len() > 0 {
        let prefix = locs.drop_last();
        lemma_other_replicas_members(prefix, primary);
        let r0 = other_replicas(prefix, primary);
        let r = other_replicas(locs, primary);
        let last = locs.last();
        assert(r == if last.node != primary.node { r0.push(last) } else { r0 });
        assert forall|x: ChunkLocationView| #[trigger] r.contains(x) <==> (locs.contains(x) && x.node != primary.node) by {
            if r.contains(x) {
                let a = choose|a: int| 0 <= a < r.len() && r[a] == x;
                if a < r0.len() {
                    assert(r0[a] == x);
                    assert(r0.contains(x));
                    let j = choose|j: int| 0 <= j < prefix.len() && prefix[j] == x;
                    assert(locs[j] == x);
                } else {
                    assert(locs[locs.len() - 1] == x);
                }
            }
            if locs.contains(x) && x.node != primary.node {
                let j = choose|j: int| 0 <= j < locs.len() && locs[j] == x;
                if j < prefix.len() {
                    assert(prefix[j] == x);
                    assert(r0.contains(x));
                    let a = choose|a: int| 0 <= a < r0.len() && r0[a] == x;
                    if last.node != primary.node {
                        assert(r[a] == x);
                    }
                } else {
                    assert(r[r.len() - 1] == x);
                }
            }
        }
    }
}

/// The secondaries keep the order of the locations: any two of them appear
/// in the locations in the same order.
proof fn lemma_other_replicas_ordered(locs: Seq<ChunkLocationView>, primary: ChunkLocationView)
    ensures
        forall|i: int, j: int| 0 <= i < j < other_replicas(locs, primary).len()
            ==> #[trigger] appear_in_order(locs, other_replicas(locs, primary)[i], other_replicas(locs, primary)[j]),
    decreases locs.len(),
{
    if locs.len() > 0 {
        let prefix = locs.drop_last();
        lemma_other_replicas_ordered(prefix, primary);
        lemma_other_replicas_members(prefix, primary);
        let r0 = other_replicas(prefix, primary);
        let r = other_replicas(locs, primary);
        let last = locs.last();
        assert(r == if last.node != primary.node { r0.push(last) } else { r0 });
        assert forall|i: int, j: int| 0 <= i < j < r.len() implies #[trigger] appear_in_order(locs, r[i], r[j]) by {
            if j < r0.len() {
                assert(r0[i] == r[i] && r0[j] == r[j]);
                assert(appear_in_order(prefix, r0[i], r0[j]));
                let (a, b) = choose|a: int, b: int| 0 <= a < b < prefix.len() && prefix[a] == r0[i] && prefix[b] == r0[j];
                assert(locs[a] == r[i] && locs[b] == r[j]);
            } else {
                assert(r0[i] == r[i]);
                assert(r0.contains(r0[i]));
                let a = choose|a: int| 0 <= a < prefix.len() && prefix[a] == r0[i];
                assert(locs[a] == r[i]);
                assert(locs[locs.len() - 1] == r[j]);
            }
        }
    }
}

/// With no location on the primary's node, every location is a secondary.
proof fn lemma_other_replicas_all(locs: Seq<ChunkLocationView>, primary: ChunkLocationView)
    requires
        forall|j: int| 0 <= j < locs.len() ==> (#[trigger] locs[j]).node != primary.node,
    ensures
        other_replicas(locs, primary) == locs,
    decreases locs.len(),
{
    if locs.len() > 0 {
        let prefix = locs.drop_last();
        assert forall|j: int| 0 <= j < prefix.len() implies (#[trigger] prefix[j]).node != primary.node by {
            assert(prefix[j] == locs[j]);
        }
        lemma_other_replicas_all(prefix, primary);
        assert(locs[locs.len() - 1].node != primary.node);
        assert(prefix.push(locs.last()) =~= locs);
    }
}

/// The secondaries of a mutation are exactly the replicas on other nodes than
/// the primary: none of them is on the primary's node, every location on
/// another node is among them and nothing else is, they keep the order of
/// the locations, and with no location on the primary's node they are all
/// the locations.
pub proof fn lemma_secondaries_are_the_other_nodes(locs: Seq<ChunkLocationView>, primary: ChunkLocationView)
    ensures
        ({
            let r = other_replicas(locs, primary);
            &&& forall|i: int| 0 <= i < r.len() ==> (#[trigger] r[i]).node != primary.node
            &&& forall|x: ChunkLocationView| #[trigger] r.contains(x) <==> (locs.contains(x) && x.node != primary.node)
            &&& r.len() <= locs.len()
            &&& (forall|j: int| 0 <= j < locs.len() ==> (#[trigger] locs[j]).node != primary.node) ==> r == locs
            &&& forall|i: int, j: int| 0 <= i < j < r.len() ==> #[trigger] appear_in_order(locs, r[i], r[j])
        }),
{
    let r = other_replicas(locs, primary);
    lemma_other_replicas_members(locs, primary);
    lemma_other_replicas_ordered(locs, primary);
    assert forall|i: int| 0 <= i < r.len() implies (#[trigger] r[i]).node != primary.node by {
        assert(r.contains(r[i]));
    }
    if forall|j: int| 0 <= j < locs.len() ==> (#[trigger] locs[j]).node != primary.node {
        lemma_other_replicas_all(locs, primary);
    }
}

/// The primary of a chunk and its other replicas; `NoPrimary` when the
/// master named no primary.
pub fn split_primary(locs: &ChunkLocationsResponse) -> (r: Result<(ChunkLocation, Vec<ChunkLocation>), PipelineError>)
    ensures
        locs.primary is None ==> r == Err::<(ChunkLocation, Vec<ChunkLocation>), PipelineError>(PipelineError::NoPrimary),
        locs.primary matches Some(p) ==> (r matches Ok(x) && x.0@ == p@
            && locations_view(x.1@) == other_replicas(locations_view(locs.locations@), p@)),
{
    let primary = match &locs.primary {
        Some(p) => p,
        None => {
            return Err(PipelineError::NoPrimary);
        },
    };
    let mut others: Vec<ChunkLocation> = Vec::new();
    let n = locs.locations.len();
    let mut i: usize = 0;
    while i < n
        invariant
            n == locs.locations@.len(),
            i <= n,
            locations_view(others@) == other_replicas(locations_view(locs.locations@).take(i as int), primary@),
        decreases n - i,
    {
        let ghost prev = others@;
        proof {
            assert(locations_view(locs.locations@).take(i + 1).drop_last() =~= locations_view(locs.locations@).take(i as int));
            assert(locations_view(locs.locations@).take(i + 1).last() == locs.locations@[i as int]@);
        }
        if !same_node(&locs.locations[i].node, &primary.node) {
            others.push(clone_location(&locs.locations[i]));
            proof {
                assert(locations_view(others@) =~= locations_view(prev).push(locs.locations@[i as int]@));
            }
        }
        i = i + 1;
    }
    proof {
        assert(locations_view(locs.locations@).take(n as int) =~= locations_view(locs.locations@));
    }
    Ok((clone_location(primary), others))
}

/// Reassembles the bytes of a read, checking each frame's CRC.
pub struct ReadAssembler {
    pub data: Vec<u8>,
}

impl ReadAssembler {
    /// Nothing received yet.
    pub fn new() -> (a: Self)
        ensures
            a.data@ == Seq::<u8>::empty(),
    {
        ReadAssembler { data: Vec::new() }
    }

    /// Takes in one frame: its payload is appended if its CRC matches;
    /// otherwise the read fails with both CRCs.
    pub fn accept(&mut self, frame: &ReadChunkResponse) -> (r: Result<(), PipelineError>)
        ensures
            crc32_of(frame.payload@) == frame.crc32 ==> r is Ok && final(self).data@ == old(self).data@ + frame.payload@,
            crc32_of(frame.payload@) != frame.crc32 ==> r == Err::<(), PipelineError>(
                PipelineError::ChecksumMismatch { expected: frame.crc32, computed: crc32_of(frame.payload@) },
            ) && final(self).data@ == old(self).data@,
    {
        let computed = compute_block_crc32(frame.payload.as_slice());
        if computed != frame.crc32 {
            return Err(PipelineError::ChecksumMismatch { expected: frame.crc32, computed });
        }
        self.data.extend_from_slice(frame.payload.as_slice());
        proof {
            assert(self.data@ =~= old(self).data@ + frame.payload@);
        }
        Ok(())
    }
}

/// The frames a chunk server sends for a read all pass the client's
/// CRC check, and their payloads in order are the bytes read.
pub proof fn lemma_read_frames_verify(frames: Seq<ReadChunkResponse>, data: Seq<u8>, offset: u64)
    requires
        read_frames_of(frames, data, offset),
    ensures
        forall|i: int| 0 <= i < frames.len() ==> crc32_of((#[trigger] frames[i]).payload@) == frames[i].crc32,
        concat(frames.map_values(|f: ReadChunkResponse| f.payload@)) == data,
{
    lemma_split_frames(data, FRAME_SIZE as nat);
    assert(frames.map_values(|f: ReadChunkResponse| f.payload@) =~= split_frames(data, FRAME_SIZE as nat));
}

/// The next step of a read over a chunk's replicas.
#[derive(Debug, Clone, PartialEq, Eq)]
pub enum ReadStep {
    /// Read from the replica at this position of the location list.
    TryReplica(usize),
    /// Give up with this error.
    Fail(PipelineError),
}

/// What came of reading from one replica.
#[derive(Debug, Clone, PartialEq, Eq)]
pub enum ReplicaOutcome {
    /// No connection could be made.
    ConnectFailed,
    /// The read request failed, with this message.
    ReadFailed(String),
}

/// Reads a chunk from its replicas in the order the master listed them,
/// moving to the next one after a failure, and reporting the last read error
/// once all have failed.
pub struct ReplicaReader {
    pub count: usize,
    pub current: usize,
    pub last_error: Option<String>,
}

/// The view of an optional message.
pub open spec fn opt_text(o: Option<String>) -> Option<Seq<char>> {
    match o {
        Some(m) => Some(m@),
        None => None,
    }
}

impl ReplicaReader {
    /// A read over `count` replicas, and its first step: the first replica,
    /// or `NoReplicas` when there is none.
    pub fn start(count: usize) -> (r: (Self, ReadStep))
        ensures
            r.0.count == count,
            r.0.current == 0,
            r.0.last_error is None,
            count == 0 ==> r.1 == ReadStep::Fail(PipelineError::NoReplicas),
            count > 0 ==> r.1 == ReadStep::TryReplica(0),
    {
        let reader = ReplicaReader { count, current: 0, last_error: None };
        if count == 0 {
            (reader, ReadStep::Fail(PipelineError::NoReplicas))
        } else {
            (reader, ReadStep::TryReplica(0))
        }
    }

    /// Takes in a failure of the current replica: a failed read is
    /// remembered; the next replica is tried, or, after the last, the read
    /// fails with the last read error (`NoReplicas` if no read was made).
    pub fn on_failure(&mut self, outcome: ReplicaOutcome) -> (step: ReadStep)
        requires
            old(self).current < old(self).count,
        ensures
            final(self).count == old(self).count,
            final(self).current == old(self).current + 1,
            opt_text(final(self).last_error) == (match outcome {
                ReplicaOutcome::ReadFailed(m) => Some(m@),
                ReplicaOutcome::ConnectFailed => opt_text(old(self).last_error),
            }),
            final(self).current < final(self).count ==> step == ReadStep::TryReplica(final(self).current),
            final(self).current >= final(self).count ==> (match (step, final(self).last_error) {
                (ReadStep::Fail(PipelineError::Rpc(m)), Some(e)) => m@ == e@,
                (ReadStep::Fail(PipelineError::NoReplicas), None) => true,
                _ => false,
            }),
    {
        match outcome {
            ReplicaOutcome::ReadFailed(m) => {
                self.last_error = Some(m);
            },
            ReplicaOutcome::ConnectFailed => {},
        }
        self.current = self.current + 1;
        if self.current < self.count {
            ReadStep::TryReplica(self.current)
        } else {
            match &self.last_error {
                Some(m) => ReadStep::Fail(PipelineError::Rpc(m.clone())),
                None => ReadStep::Fail(PipelineError::NoReplicas),
            }
        }
    }
}

} // verus!
