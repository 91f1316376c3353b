//! The chunk server's handling of data pushes, writes, record appends,
//! forwarded mutations and reads, as decisions on plain values.
use vstd::prelude::*;
use vstd::string::*;
use crate::checksum::{ChecksumError, crc32_of, compute_block_crc32};
use crate::text::{decimal_text, u64_to_decimal};
use crate::framing::{FRAME_SIZE, split_frames, split_into_frames, concat, lemma_split_frames};
use crate::proto::{
    ApplyMutationRequest, ChunkHandle, ChunkLocation, DataPacket, PushDataAck, ReadChunkResponse,
    RecordAppendRequest, RecordAppendResponse, RpcCode, RpcStatus, WriteChunkRequest,
};
use crate::store::size_after_write;

verus! {

/// The largest size of a chunk (64 MiB).
pub const MAX_CHUNK_SIZE: u64 = 67108864;

/// The data identifier after a packet arrives: the first non-empty one seen.
pub open spec fn next_data_id(current: Seq<u8>, packet_id: Seq<u8>) -> Seq<u8> {
    if current.len() == 0 { packet_id } else { current }
}

/// Collects a stream of pushed packets: the data identifier of the stream and
/// the payloads in arrival order.
pub struct PushAccumulator {
    pub data_id: Vec<u8>,
    pub data: Vec<u8>,
}

impl PushAccumulator {
    /// Nothing received yet.
    pub fn new() -> (a: Self)
        ensures
            a.data_id@ == Seq::<u8>::empty(),
            a.data@ == Seq::<u8>::empty(),
    {
        PushAccumulator { data_id: Vec::new(), data: Vec::new() }
    }

    /// Takes in one packet.
    pub fn accept(&mut self, packet: DataPacket)
        ensures
            final(self).data_id@ == next_data_id(old(self).data_id@, packet.data_id@),
            final(self).data@ == old(self).data@ + packet.payload@,
    {
        if self.data_id.len() == 0 {
            self.data_id = packet.data_id;
        }
        self.data.extend_from_slice(packet.payload.as_slice());
        proof {
            assert(self.data@ =~= old(self).data@ + packet.payload@);
        }
    }

    /// The acknowledgement for the stream: its data identifier and the number
    /// of bytes received, truncated to 32 bits.
    pub fn ack(&self) -> (r: PushDataAck)
        ensures
            r.data_id@ == self.data_id@,
            r.success,
            r.bytes_received == self.data@.len() as u32,
    {
        let data_id = self.data_id.clone();
        proof {
            assert(data_id@ =~= self.data_id@);
        }
        PushDataAck { data_id, success: true, bytes_received: #[verifier::truncate] (self.data.len() as u32) }
    }
}

/// The status for a request without a chunk handle.
pub open spec fn missing_handle_status(st: RpcStatus) -> bool {
    st.code == RpcCode::InvalidArgument && st.message@ == "Missing chunk handle"@
}

/// The status for a mutation whose pushed data is not buffered.
pub open spec fn missing_data_status(st: RpcStatus) -> bool {
    st.code == RpcCode::NotFound && st.message@ == "Buffered data not found for data_id"@
}

/// The handle a request names, or an `InvalidArgument` status.
pub fn required_handle(chunk: Option<ChunkHandle>) -> (r: Result<u64, RpcStatus>)
    ensures
        chunk is None ==> (r matches Err(st) && missing_handle_status(st)),
        chunk matches Some(h) ==> r == Ok::<u64, RpcStatus>(h.id),
{
    match chunk {
        Some(h) => Ok(h.id),
        None => Err(RpcStatus { code: RpcCode::InvalidArgument, message: "Missing chunk handle".to_owned() }),
    }
}

/// The `NotFound` status for missing pushed data.
fn missing_data() -> (st: RpcStatus)
    ensures
        missing_data_status(st),
{
    RpcStatus { code: RpcCode::NotFound, message: "Buffered data not found for data_id".to_owned() }
}

/// The address a secondary is reached at: `http://` and its gRPC address.
pub fn secondary_url(loc: &ChunkLocation) -> (url: String)
    ensures
        url@ == "http://"@ + loc.grpc_addr@,
{
    "http://".to_owned().concat(loc.grpc_addr.as_str())
}

/// The mutation forwarded to every secondary: the same data at the same
/// offset, as mutation number 1, not a pad.
pub open spec fn forwarded(m: ApplyMutationRequest, data_id: Seq<u8>, handle: u64, offset: u64) -> bool {
    forwarded_as(m, data_id, handle, offset, false)
}

/// A mutation forwarded to a secondary, as a pad or not.
pub open spec fn forwarded_as(m: ApplyMutationRequest, data_id: Seq<u8>, handle: u64, offset: u64, is_pad: bool) -> bool {
    &&& m.data_id@ == data_id
    &&& m.chunk == Some(ChunkHandle { id: handle })
    &&& m.offset == offset
    &&& m.mutation_sequence == 1
    &&& m.is_pad == is_pad
}

/// The number of bytes that fill a chunk of `size` bytes up to `MAX_CHUNK_SIZE`.
pub open spec fn pad_len(size: u64) -> u64 {
    if size < MAX_CHUNK_SIZE { (MAX_CHUNK_SIZE - size) as u64 } else { 0 }
}

/// Padding a chunk up to its boundary, locally and on each secondary in
/// order, and the answer to the append that did not fit.
#[derive(Debug)]
pub struct PadPlan {
    pub handle: u64,
    pub offset: u64,
    pub len: u64,
    pub forwards: Vec<(String, ApplyMutationRequest)>,
    pub response: RecordAppendResponse,
}

/// A mutation to apply locally and to forward to each secondary, in order.
#[derive(Debug)]
pub struct MutationPlan {
    pub handle: u64,
    pub offset: u64,
    pub forwards: Vec<(String, ApplyMutationRequest)>,
}

/// The plan forwards the mutation to each of `secondaries`, in order.
pub open spec fn forwards_to(plan: MutationPlan, secondaries: Seq<ChunkLocation>, data_id: Seq<u8>) -> bool {
    &&& plan.forwards@.len() == secondaries.len()
    &&& forall|i: int| 0 <= i < secondaries.len() ==> {
        &&& (#[trigger] plan.forwards@[i]).0@ == "http://"@ + secondaries[i].grpc_addr@
        &&& forwarded(plan.forwards@[i].1, data_id, plan.handle, plan.offset)
    }
}

/// Builds the forwarding list of a mutation.
fn forwards_for(secondaries: &Vec<ChunkLocation>, data_id: &Vec<u8>, handle: u64, offset: u64, is_pad: bool) -> (r: Vec<(String, ApplyMutationRequest)>)
    ensures
        r@.len() == secondaries@.len(),
        forall|i: int| 0 <= i < secondaries@.len() ==> {
            &&& (#[trigger] r@[i]).0@ == "http://"@ + secondaries@[i].grpc_addr@
            &&& forwarded_as(r@[i].1, data_id@, handle, offset, is_pad)
        },
{
    let mut r: Vec<(String, ApplyMutationRequest)> = Vec::new();
    let n = secondaries.len();
    let mut i: usize = 0;
    while i < n
        invariant
            n == secondaries@.len(),
            i <= n,
            r@.len() == i,
            forall|j: int| 0 <= j < i ==> {
                &&& (#[trigger] r@[j]).0@ == "http://"@ + secondaries@[j].grpc_addr@
                &&& forwarded_as(r@[j].1, data_id@, handle, offset, is_pad)
            },
        decreases n - i,
    {
        let id = data_id.clone();
        proof {
            assert(id@ =~= data_id@);
        }
        let m = ApplyMutationRequest {
            data_id: id,
            chunk: Some(ChunkHandle { id: handle }),
            offset,
            mutation_sequence: 1,
            is_pad,
        };
        r.push((secondary_url(&secondaries[i]), m));
        i = i + 1;
    }
    r
}

/// Decides a write at the primary: the handle must be given and the pushed
/// data buffered; the data is then written at the requested offset and
/// forwarded to each secondary.
pub fn plan_write(req: &WriteChunkRequest, has_data: bool) -> (r: Result<MutationPlan, RpcStatus>)
    ensures
        req.chunk is None ==> (r matches Err(st) && missing_handle_status(st)),
        req.chunk is Some && !has_data ==> (r matches Err(st) && missing_data_status(st)),
        req.chunk is Some && has_data ==> (r matches Ok(plan) && {
            &&& plan.handle == req.chunk.unwrap().id
            &&& plan.offset == req.offset
            &&& forwards_to(plan, req.secondaries@, req.data_id@)
        }),
{
    let handle = required_handle(req.chunk)?;
    if !has_data {
        return Err(missing_data());
    }
    let forwards = forwards_for(&req.secondaries, &req.data_id, handle, req.offset, false);
    Ok(MutationPlan { handle, offset: req.offset, forwards })
}

/// What the primary does with a record append.
#[derive(Debug)]
pub enum AppendPlan {
    /// The record does not fit: pad the chunk to its boundary everywhere and
    /// answer that it was padded.
    Padded(PadPlan),
    /// Write the record at the plan's offset and forward it.
    Write(MutationPlan),
}

/// Decides a record append at the primary, given the length of the buffered
/// data (if any) and the chunk's current size: a record that would take the
/// chunk past `MAX_CHUNK_SIZE` is not written; the chunk is padded from its
/// current end to the boundary, on the primary and each secondary, and the
/// client is told it was padded. Otherwise the record goes at the chunk's
/// current end.
pub fn plan_record_append(req: &RecordAppendRequest, buffered_len: Option<usize>, current_size: u64) -> (r: Result<AppendPlan, RpcStatus>)
    ensures
        req.chunk is None ==> (r matches Err(st) && missing_handle_status(st)),
        req.chunk is Some && buffered_len is None ==> (r matches Err(st) && missing_data_status(st)),
        req.chunk is Some && buffered_len is Some && current_size + buffered_len.unwrap() > MAX_CHUNK_SIZE ==> (r matches Ok(AppendPlan::Padded(pad)) && {
            &&& pad.handle == req.chunk.unwrap().id
            &&& pad.offset == current_size
            &&& pad.len == pad_len(current_size)
            &&& pad.response == (RecordAppendResponse { success: false, offset: current_size, padded: true })
            &&& pad.forwards@.len() == req.secondaries@.len()
            &&& forall|i: int| 0 <= i < req.secondaries@.len() ==> {
                &&& (#[trigger] pad.forwards@[i]).0@ == "http://"@ + req.secondaries@[i].grpc_addr@
                &&& forwarded_as(pad.forwards@[i].1, req.data_id@, pad.handle, current_size, true)
            }
        }),
        req.chunk is Some && buffered_len is Some && current_size + buffered_len.unwrap() <= MAX_CHUNK_SIZE ==> (r matches Ok(AppendPlan::Write(plan)) && {
            &&& plan.handle == req.chunk.unwrap().id
            &&& plan.offset == current_size
            &&& forwards_to(plan, req.secondaries@, req.data_id@)
        }),
{
    let handle = required_handle(req.chunk)?;
    let len = match buffered_len {
        Some(l) => l,
        None => {
            return Err(missing_data());
        },
    };
    if len as u128 + current_size as u128 > MAX_CHUNK_SIZE as u128 {
        let forwards = forwards_for(&req.secondaries, &req.data_id, handle, current_size, true);
        let pad = if current_size < MAX_CHUNK_SIZE { MAX_CHUNK_SIZE - current_size } else { 0 };
        return Ok(AppendPlan::Padded(PadPlan {
            handle,
            offset: current_size,
            len: pad,
            forwards,
            response: RecordAppendResponse { success: false, offset: current_size, padded: true },
        }));
    }
    let forwards = forwards_for(&req.secondaries, &req.data_id, handle, current_size, false);
    Ok(AppendPlan::Write(MutationPlan { handle, offset: current_size, forwards }))
}

/// The answer to an append that was written and forwarded.
pub fn appended(offset: u64) -> (r: RecordAppendResponse)
    ensures
        r == (RecordAppendResponse { success: true, offset, padded: false }),
{
    RecordAppendResponse { success: true, offset, padded: false }
}

/// An append placed at the chunk's end leaves the chunk exactly one
/// record longer, so the next append goes right after it and records never
/// overlap.
pub proof fn lemma_appends_do_not_overlap(current_size: u64, len: nat)
    requires
        current_size + len <= MAX_CHUNK_SIZE,
    ensures
        size_after_write(current_size, current_size, len) == current_size + len,
{
}

/// What a secondary does with a forwarded mutation.
#[derive(Debug, Clone, Copy, PartialEq, Eq)]
pub enum ApplyPlan {
    /// Write the buffered data at this offset of this chunk.
    Write { handle: u64, offset: u64 },
    /// Fill this chunk with `len` zero bytes from `offset`.
    Pad { handle: u64, offset: u64, len: u64 },
}

/// Decides a mutation forwarded to a secondary: the handle must be given; a
/// pad fills the chunk from the given offset to its boundary; any other
/// mutation needs the pushed data buffered and writes it at the given offset.
pub fn plan_apply(req: &ApplyMutationRequest, has_data: bool) -> (r: Result<ApplyPlan, RpcStatus>)
    ensures
        req.chunk is None ==> (r matches Err(st) && missing_handle_status(st)),
        req.chunk is Some && req.is_pad ==> r == Ok::<ApplyPlan, RpcStatus>(
            ApplyPlan::Pad { handle: req.chunk.unwrap().id, offset: req.offset, len: pad_len(req.offset) },
        ),
        req.chunk is Some && !req.is_pad && !has_data ==> (r matches Err(st) && missing_data_status(st)),
        req.chunk is Some && !req.is_pad && has_data ==> r == Ok::<ApplyPlan, RpcStatus>(
            ApplyPlan::Write { handle: req.chunk.unwrap().id, offset: req.offset },
        ),
{
    let handle = required_handle(req.chunk)?;
    if req.is_pad {
        let len = if req.offset < MAX_CHUNK_SIZE { MAX_CHUNK_SIZE - req.offset } else { 0 };
        return Ok(ApplyPlan::Pad { handle, offset: req.offset, len });
    }
    if !has_data {
        return Err(missing_data());
    }
    Ok(ApplyPlan::Write { handle, offset: req.offset })
}

/// Padding a chunk of `size` bytes fills it exactly to the boundary.
pub proof fn lemma_pad_reaches_boundary(size: u64)
    requires
        size <= MAX_CHUNK_SIZE,
    ensures
        size_after_write(size, size, pad_len(size) as nat) == MAX_CHUNK_SIZE,
{
}

/// The status a read answers when a block it touched failed its checksum:
/// `DATA_LOSS`, naming the chunk and the block.
pub fn data_loss_status(e: &ChecksumError) -> (st: RpcStatus)
    ensures
        st.code == RpcCode::DataLoss,
        e matches ChecksumError::ChecksumMismatch { chunk, block_index, .. } ==> st.message@
            == "Checksum mismatch for chunk "@ + decimal_text(chunk as nat) + " at block index "@ + decimal_text(block_index as nat),
{
    match e {
        ChecksumError::ChecksumMismatch { chunk, block_index, .. } => {
            let message = "Checksum mismatch for chunk ".to_owned()
                .concat(u64_to_decimal(*chunk).as_str())
                .concat(" at block index ")
                .concat(u64_to_decimal(*block_index as u64).as_str());
            RpcStatus { code: RpcCode::DataLoss, message }
        },
    }
}

/// `frames` carry `data` read from `offset`: consecutive frames of the frame
/// size, each with its CRC and its offset in the chunk.
pub open spec fn read_frames_of(frames: Seq<ReadChunkResponse>, data: Seq<u8>, offset: u64) -> bool {
    let parts = split_frames(data, FRAME_SIZE as nat);
    &&& frames.len() == parts.len()
    &&& forall|i: int| 0 <= i < frames.len() ==> {
        &&& (#[trigger] frames[i]).payload@ == parts[i]
        &&& frames[i].crc32 == crc32_of(parts[i])
        &&& frames[i].offset == offset + i * FRAME_SIZE
    }
}

/// Splits the bytes of a read into the frames of its answer.
pub fn read_frames(data: &[u8], offset: u64) -> (frames: Vec<ReadChunkResponse>)
    requires
        offset + data@.len() <= u64::MAX,
    ensures
        read_frames_of(frames@, data@, offset),
{
    let parts = split_into_frames(data, FRAME_SIZE);
    proof {
        lemma_split_frames(data@, FRAME_SIZE as nat);
        lemma_frames_fit(data@, FRAME_SIZE as nat);
    }
    let mut frames: Vec<ReadChunkResponse> = Vec::new();
    let n = parts.len();
    let mut i: usize = 0;
    let mut pos: u64 = offset;
    while i < n
        invariant
            n == parts@.len(),
            i <= n,
            parts@.map_values(|v: Vec<u8>| v@) == split_frames(data@, FRAME_SIZE as nat),
            offset + data@.len() <= u64::MAX,
            n * FRAME_SIZE <= data@.len() + FRAME_SIZE,
            n > 0 ==> (n - 1) * FRAME_SIZE < data@.len(),
            i < n ==> pos == offset + i * FRAME_SIZE,
            frames@.len() == i,
            forall|j: int| 0 <= j < i ==> {
                &&& (#[trigger] frames@[j]).payload@ == parts@[j]@
                &&& frames@[j].crc32 == crc32_of(parts@[j]@)
                &&& frames@[j].offset == offset + j * FRAME_SIZE
            },
        decreases n - i,
    {
        let payload = parts[i].clone();
        proof {
            assert(payload@ =~= parts@[i as int]@);
        }
        let crc = compute_block_crc32(payload.as_slice());
        frames.push(ReadChunkResponse { payload, crc32: crc, offset: pos });
        proof {
            assert((i + 1) * FRAME_SIZE == i * FRAME_SIZE + FRAME_SIZE) by (nonlinear_arith);
            if i + 1 < n {
                assert((i + 1) * FRAME_SIZE <= (n - 1) * FRAME_SIZE) by (nonlinear_arith) requires i + 1 <= n - 1;
            }
        }
        if i + 1 < n {
            pos = pos + FRAME_SIZE as u64;
        }
        i = i + 1;
    }
    proof {
        assert forall|j: int| 0 <= j < frames@.len() implies {
            &&& (#[trigger] frames@[j]).payload@ == split_frames(data@, FRAME_SIZE as nat)[j]
            &&& frames@[j].crc32 == crc32_of(split_frames(data@, FRAME_SIZE as nat)[j])
            &&& frames@[j].offset == offset + j * FRAME_SIZE
        } by {
            assert(parts@.map_values(|v: Vec<u8>| v@)[j] == parts@[j]@);
        }
    }
    frames
}

/// The frames of some data are about as many as the data has frame-sized pieces.
pub proof fn lemma_frames_fit(data: Seq<u8>, frame: nat)
    requires
        frame > 0,
    ensures
        split_frames(data, frame).len() * frame <= data.len() + frame,
        split_frames(data, frame).len() > 0 ==> (split_frames(data, frame).len() - 1) * frame < data.len(),
    decreases data.len(),
{
    if data.len() == 0 {
        assert(0 * frame == 0) by (nonlinear_arith);
    } else {
        let n = crate::checksum::next_block_len(data.len(), frame);
        let rest = data.skip(n as int);
        lemma_frames_fit(rest, frame);
        let k = split_frames(rest, frame).len();
        assert(split_frames(data, frame).len() == k + 1);
        assert((k + 1) * frame == k * frame + frame) by (nonlinear_arith);
        assert(k * frame >= 0) by (nonlinear_arith) requires frame > 0;
        if k > 0 {
            assert(n == frame);
            assert(k * frame == (k - 1) * frame + frame) by (nonlinear_arith);
            assert(rest.len() == data.len() - frame);
        } else {
            assert(0 * frame == 0) by (nonlinear_arith);
        }
    }
}

} // verus!
