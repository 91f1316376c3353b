//! Chunk-server-to-chunk-server copying of whole chunks: the sender's frames
//! and the receiver's reassembly.
use vstd::prelude::*;
use vstd::string::*;
use crate::checksum::{crc32_of, compute_block_crc32};
use crate::framing::{FRAME_SIZE, split_frames, split_into_frames, concat, lemma_split_frames, lemma_concat_push};
use crate::proto::{ChunkHandle, ChunkVersion, CloneChunkRequest, CloneChunkResponse, RpcCode, RpcStatus};

verus! {

/// `frames` stream chunk `handle` at `version` with contents `data`: one frame
/// per frame-sized piece (a single empty frame for empty data), each carrying
/// the handle, version, its offset and CRC, and the CRC of the whole chunk;
/// only the last is marked last.
pub open spec fn clone_frames_of(frames: Seq<CloneChunkRequest>, handle: u64, version: u64, data: Seq<u8>) -> bool {
    let parts = if data.len() == 0 { seq![Seq::<u8>::empty()] } else { split_frames(data, FRAME_SIZE as nat) };
    &&& frames.len() == parts.len()
    &&& forall|i: int| 0 <= i < frames.len() ==> {
        &&& (#[trigger] frames[i]).chunk == Some(ChunkHandle { id: handle })
        &&& frames[i].version == Some(ChunkVersion { value: version })
        &&& frames[i].payload@ == parts[i]
        &&& frames[i].meta@ == Seq::<u8>::empty()
        &&& frames[i].offset == i * FRAME_SIZE
        &&& frames[i].frame_crc32 == crc32_of(parts[i])
        &&& frames[i].full_chunk_crc32 == crc32_of(data)
        &&& frames[i].is_last_frame == (i == frames.len() - 1)
    }
}

/// The frames in which a chunk is sent to another chunk server.
pub fn build_clone_frames(handle: u64, version: u64, data: &[u8]) -> (frames: Vec<CloneChunkRequest>)
    ensures
        clone_frames_of(frames@, handle, version, data@),
{
    let full_chunk_crc32 = compute_block_crc32(data);
    let mut frames: Vec<CloneChunkRequest> = Vec::new();
    if data.len() == 0 {
        frames.push(CloneChunkRequest {
            chunk: Some(ChunkHandle { id: handle }),
            version: Some(ChunkVersion { value: version }),
            payload: Vec::new(),
            meta: Vec::new(),
            offset: 0,
            frame_crc32: full_chunk_crc32,
            full_chunk_crc32,
            is_last_frame: true,
        });
        proof {
            assert(data@ =~= Seq::<u8>::empty());
        }
        return frames;
    }
    let parts = split_into_frames(data, FRAME_SIZE);
    proof {
        crate::chunk_rpc::lemma_frames_fit(data@, FRAME_SIZE as nat);
    }
    let n = parts.len();
    let len = data.len();
    let mut i: usize = 0;
    let mut offset: u64 = 0;
    while i < n
        invariant
            n == parts@.len(),
            len == data@.len(),
            i <= n,
            parts@.map_values(|v: Vec<u8>| v@) == split_frames(data@, FRAME_SIZE as nat),
            data@.len() > 0,
            n > 0 ==> (n - 1) * FRAME_SIZE < data@.len(),
            i < n ==> offset == i * FRAME_SIZE,
            full_chunk_crc32 == crc32_of(data@),
            frames@.len() == i,
            forall|j: int| 0 <= j < i ==> {
                &&& (#[trigger] frames@[j]).chunk == Some(ChunkHandle { id: handle })
                &&& frames@[j].version == Some(ChunkVersion { value: version })
                &&& frames@[j].payload@ == parts@[j]@
                &&& frames@[j].meta@ == Seq::<u8>::empty()
                &&& frames@[j].offset == j * FRAME_SIZE
                &&& frames@[j].frame_crc32 == crc32_of(parts@[j]@)
                &&& frames@[j].full_chunk_crc32 == full_chunk_crc32
                &&& frames@[j].is_last_frame == (j == n - 1)
            },
        decreases n - i,
    {
        let payload = parts[i].clone();
        proof {
            assert(payload@ =~= parts@[i as int]@);
        }
        let frame_crc32 = compute_block_crc32(payload.as_slice());
        frames.push(CloneChunkRequest {
            chunk: Some(ChunkHandle { id: handle }),
            version: Some(ChunkVersion { value: version }),
            payload,
            meta: Vec::new(),
            offset,
            frame_crc32,
            full_chunk_crc32,
            is_last_frame: i + 1 == n,
        });
        proof {
            assert((i + 1) * FRAME_SIZE == i * FRAME_SIZE + FRAME_SIZE) by (nonlinear_arith);
            if i + 1 < n {
                assert((i + 1) * FRAME_SIZE <= (n - 1) * FRAME_SIZE) by (nonlinear_arith) requires i + 1 <= n - 1;
                assert(offset + FRAME_SIZE < data@.len());
            }
        }
        if i + 1 < n {
            offset = offset + FRAME_SIZE as u64;
        }
        i = i + 1;
    }
    proof {
        assert forall|j: int| 0 <= j < frames@.len() implies (#[trigger] frames@[j]).payload@ == split_frames(data@, FRAME_SIZE as nat)[j] by {
            assert(parts@.map_values(|v: Vec<u8>| v@)[j] == parts@[j]@);
        }
    }
    frames
}

/// Reassembles a chunk from the frames of a clone stream.
pub struct CloneReceiver {
    pub handle: u64,
    pub version: u64,
    pub payload: Vec<u8>,
    /// Every frame so far carried the CRC of its own payload.
    pub frames_intact: bool,
    /// The whole-chunk CRC named by the latest frame.
    pub full_crc32: u32,
}

/// Every frame carries the CRC of its own payload.
pub open spec fn frames_intact(frames: Seq<CloneChunkRequest>) -> bool {
    forall|i: int| 0 <= i < frames.len() ==> crc32_of((#[trigger] frames[i]).payload@) == frames[i].frame_crc32
}

/// The whole-chunk CRC named by the latest of `frames` (0 before any frame).
pub open spec fn named_full_crc(frames: Seq<CloneChunkRequest>) -> u32 {
    if frames.len() == 0 { 0 } else { frames.last().full_chunk_crc32 }
}

/// The status of a clone stream whose frames or whole chunk fail their CRC.
pub open spec fn corrupt_clone_status(st: RpcStatus, message: Seq<char>) -> bool {
    st.code == RpcCode::DataLoss && st.message@ == message
}

/// The receiver's handle, version and bytes after taking in `frames`:
/// the last handle and version given, and the payloads in order.
pub open spec fn received(frames: Seq<CloneChunkRequest>) -> (u64, u64, Seq<u8>)
    decreases frames.len(),
{
    if frames.len() == 0 {
        (0, 1, Seq::empty())
    } else {
        let (h, v, p) = received(frames.drop_last());
        let f = frames.last();
        (
            match f.chunk { Some(c) => c.id, None => h },
            match f.version { Some(x) => x.value, None => v },
            p + f.payload@,
        )
    }
}

impl CloneReceiver {
    /// Nothing received yet: no handle, version 1.
    pub fn new() -> (r: Self)
        ensures
            (r.handle, r.version, r.payload@) == received(Seq::empty()),
            r.frames_intact == frames_intact(Seq::empty()),
            r.full_crc32 == named_full_crc(Seq::empty()),
    {
        CloneReceiver { handle: 0, version: 1, payload: Vec::new(), frames_intact: true, full_crc32: 0 }
    }

    /// Takes in one frame, checking its CRC; true when it is marked as the last.
    pub fn accept(&mut self, frame: CloneChunkRequest) -> (last: bool)
        ensures
            last == frame.is_last_frame,
            final(self).handle == (match frame.chunk { Some(c) => c.id, None => old(self).handle }),
            final(self).version == (match frame.version { Some(x) => x.value, None => old(self).version }),
            final(self).payload@ == old(self).payload@ + frame.payload@,
            final(self).frames_intact == (old(self).frames_intact && crc32_of(frame.payload@) == frame.frame_crc32),
            final(self).full_crc32 == frame.full_chunk_crc32,
    {
        let computed = compute_block_crc32(frame.payload.as_slice());
        if computed != frame.frame_crc32 {
            self.frames_intact = false;
        }
        self.full_crc32 = frame.full_chunk_crc32;
        if let Some(h) = frame.chunk {
            self.handle = h.id;
        }
        if let Some(v) = frame.version {
            self.version = v.value;
        }
        self.payload.extend_from_slice(frame.payload.as_slice());
        proof {
            assert(self.payload@ =~= old(self).payload@ + frame.payload@);
        }
        frame.is_last_frame
    }

    /// The chunk received, verified: its handle, version and bytes. A stream
    /// that never named a handle other than 0 is refused; so is one with a
    /// frame whose payload does not match its CRC, and one whose bytes do not
    /// match the whole-chunk CRC of its last frame (both as data loss).
    pub fn finish(self) -> (r: Result<(u64, u64, Vec<u8>), RpcStatus>)
        ensures
            self.handle == 0 ==> (r matches Err(st) && st.code == RpcCode::InvalidArgument
                && st.message@ == "Missing chunk handle in clone stream"@),
            self.handle != 0 && !self.frames_intact ==> (r matches Err(st)
                && corrupt_clone_status(st, "Clone frame CRC mismatch"@)),
            self.handle != 0 && self.frames_intact && crc32_of(self.payload@) != self.full_crc32 ==> (r matches Err(st)
                && corrupt_clone_status(st, "Clone full-chunk CRC mismatch"@)),
            self.handle != 0 && self.frames_intact && crc32_of(self.payload@) == self.full_crc32 ==> (r matches Ok(c)
                && c.0 == self.handle && c.1 == self.version && c.2@ == self.payload@),
    {
        if self.handle == 0 {
            return Err(RpcStatus {
                code: RpcCode::InvalidArgument,
                message: "Missing chunk handle in clone stream".to_owned(),
            });
        }
        if !self.frames_intact {
            return Err(RpcStatus { code: RpcCode::DataLoss, message: "Clone frame CRC mismatch".to_owned() });
        }
        let computed = compute_block_crc32(self.payload.as_slice());
        if computed != self.full_crc32 {
            return Err(RpcStatus { code: RpcCode::DataLoss, message: "Clone full-chunk CRC mismatch".to_owned() });
        }
        Ok((self.handle, self.version, self.payload))
    }
}

/// The answer to a clone that was stored.
pub fn cloned_response() -> (r: CloneChunkResponse)
    ensures
        r.success,
        r.message@ == "Cloned successfully"@,
{
    CloneChunkResponse { success: true, message: "Cloned successfully".to_owned() }
}

/// A receiver fed the frames a sender builds for a chunk (with a
/// non-zero handle) stops at the last frame and holds that chunk's handle,
/// version and bytes.
pub proof fn lemma_clone_round_trip(frames: Seq<CloneChunkRequest>, handle: u64, version: u64, data: Seq<u8>)
    requires
        clone_frames_of(frames, handle, version, data),
    ensures
        frames.len() > 0,
        frames.last().is_last_frame,
        forall|i: int| 0 <= i < frames.len() - 1 ==> !(#[trigger] frames[i]).is_last_frame,
        received(frames) == (handle, version, data),
        frames_intact(frames),
        named_full_crc(frames) == crc32_of(data),
{
    let parts = if data.len() == 0 { seq![Seq::<u8>::empty()] } else { split_frames(data, FRAME_SIZE as nat) };
    if data.len() > 0 {
        lemma_split_frames(data, FRAME_SIZE as nat);
        assert(parts.len() > 0) by {
            if parts.len() == 0 {
                assert(concat(parts) == Seq::<u8>::empty());
            }
        }
    }
    assert forall|k: int| 1 <= k <= frames.len() implies #[trigger] received(frames.take(k)) == (handle, version, concat(parts.take(k))) by {
        lemma_received_prefix(frames, parts, handle, version, k);
    }
    assert(frames.take(frames.len() as int) =~= frames);
    assert(parts.take(parts.len() as int) =~= parts);
    if data.len() == 0 {
        assert(parts.drop_last() =~= Seq::<Seq<u8>>::empty());
        assert(concat(Seq::<Seq<u8>>::empty()) == Seq::<u8>::empty());
        assert(concat(parts) =~= Seq::<u8>::empty());
    }
}

proof fn lemma_received_prefix(frames: Seq<CloneChunkRequest>, parts: Seq<Seq<u8>>, handle: u64, version: u64, k: int)
    requires
        1 <= k <= frames.len(),
        frames.len() == parts.len(),
        forall|i: int| 0 <= i < frames.len() ==> {
            &&& (#[trigger] frames[i]).chunk == Some(ChunkHandle { id: handle })
            &&& frames[i].version == Some(ChunkVersion { value: version })
            &&& frames[i].payload@ == parts[i]
        },
    ensures
        received(frames.take(k)) == (handle, version, concat(parts.take(k))),
    decreases k,
{
    assert(frames.take(k).drop_last() =~= frames.take(k - 1));
    assert(parts.take(k).drop_last() =~= parts.take(k - 1));
    assert(frames.take(k).last() == frames[k - 1]);
    if k > 1 {
        lemma_received_prefix(frames, parts, handle, version, k - 1);
    } else {
        assert(frames.take(0) =~= Seq::<CloneChunkRequest>::empty());
        assert(received(frames.take(0)) == (0u64, 1u64, Seq::<u8>::empty()));
        assert(parts.take(0) =~= Seq::<Seq<u8>>::empty());
        assert(concat(Seq::<Seq<u8>>::empty()) == Seq::<u8>::empty());
    }
    lemma_concat_push(parts.take(k - 1), parts[k - 1]);
    assert(parts.take(k - 1).push(parts[k - 1]) =~= parts.take(k));
    if k == 1 {
        assert(received(frames.take(k)).2 =~= Seq::<u8>::empty() + parts[0]);
        assert(concat(parts.take(k)) =~= Seq::<u8>::empty() + parts[0]);
    }
    assert(received(frames.take(k)).2 =~= concat(parts.take(k)));
}

/// The address a clone is sent to: the target as given if it already starts
/// with `http://`, else `http://` followed by it.
pub fn clone_target_url(target_addr: &String) -> (url: String)
    ensures
        target_addr@.len() >= 7 && target_addr@.take(7) == "http://"@ ==> url@ == target_addr@,
        !(target_addr@.len() >= 7 && target_addr@.take(7) == "http://"@) ==> url@ == "http://"@ + target_addr@,
{
    let prefix = "http://";
    proof {
        reveal_strlit("http://");
    }
    let s = target_addr.as_str();
    let n = s.unicode_len();
    let mut matches = n >= 7;
    let mut i: usize = 0;
    while matches && i < 7
        invariant
            s@ == target_addr@,
            prefix@ == "http://"@,
            prefix@.len() == 7,
            n == s@.len(),
            i <= 7,
            matches ==> n >= 7,
            matches ==> forall|j: int| 0 <= j < i ==> s@[j] == prefix@[j],
            !matches ==> !(n >= 7 && s@.take(7) == prefix@),
        decreases 7 - i,
    {
        if s.get_char(i) != prefix.get_char(i) {
            proof {
                assert(s@.take(7)[i as int] != prefix@[i as int]);
            }
            matches = false;
        }
        i = i + 1;
    }
    if matches {
        proof {
            assert(s@.take(7) =~= prefix@);
        }
        target_addr.clone()
    } else {
        prefix.to_owned().concat(s)
    }
}

} // verus!
