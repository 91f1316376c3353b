//! The metadata a chunk server keeps next to each chunk, and the arithmetic
//! of positioned reads and writes on a chunk.
use vstd::prelude::*;
use vstd::string::*;
use crate::checksum::{DEFAULT_BLOCK_SIZE, block_crcs, compute_all_blocks_crc32};
use crate::text::{decimal_text, u64_to_decimal};
use crate::clock::unix_millis_now;

verus! {

/// Errors of the chunk store. I/O and encoding errors carry their messages.
#[derive(Debug, Clone, PartialEq, Eq)]
pub enum StoreError {
    Io(String),
    Bincode(String),
    ChunkNotFound(u64),
    InvalidOffset { offset: u64, size: u32 },
}

/// Per-chunk metadata: version, size, block size and block CRCs. Times are
/// milliseconds since the Unix epoch.
#[derive(Debug)]
pub struct ChunkMeta {
    pub version: u64,
    pub size: u32,
    pub block_size: u32,
    pub block_crc32: Vec<u32>,
    pub created_at: u64,
    pub last_scrubbed: u64,
}

/// What chunk metadata stands for.
pub struct ChunkMetaView {
    pub version: u64,
    pub size: u32,
    pub block_size: u32,
    pub block_crc32: Seq<u32>,
    pub created_at: u64,
    pub last_scrubbed: u64,
}

impl View for ChunkMeta {
    type V = ChunkMetaView;

    open spec fn view(&self) -> ChunkMetaView {
        ChunkMetaView {
            version: self.version,
            size: self.size,
            block_size: self.block_size,
            block_crc32: self.block_crc32@,
            created_at: self.created_at,
            last_scrubbed: self.last_scrubbed,
        }
    }
}

impl Clone for ChunkMeta {
    fn clone(&self) -> (r: Self)
        ensures
            r@ == self@,
    {
        let block_crc32 = self.block_crc32.clone();
        proof {
            assert(block_crc32@ =~= self.block_crc32@);
        }
        ChunkMeta {
            version: self.version,
            size: self.size,
            block_size: self.block_size,
            block_crc32,
            created_at: self.created_at,
            last_scrubbed: self.last_scrubbed,
        }
    }
}

/// The chunk size recorded after writing `data_len` bytes at `offset` into a
/// file of `file_len` bytes: the larger of the two ends, each truncated to 32
/// bits as the stored size is.
pub open spec fn size_after_write(file_len: u64, offset: u64, data_len: nat) -> u32 {
    let a = file_len as u32;
    let b = (offset + data_len) as u32;
    if a >= b { a } else { b }
}

/// Computes the recorded size after a write.
pub fn written_size(file_len: u64, offset: u64, data_len: usize) -> (size: u32)
    requires
        offset + data_len <= u64::MAX,
    ensures
        size == size_after_write(file_len, offset, data_len as nat),
{
    let a = #[verifier::truncate] (file_len as u32);
    let end: u64 = offset + data_len as u64;
    let b = #[verifier::truncate] (end as u32);
    if a >= b { a } else { b }
}

/// The metadata recorded for a chunk whose whole contents are `data`, written
/// at time `now` with version `version`.
pub fn meta_for_contents(version: u64, data: &[u8], now: u64) -> (meta: ChunkMeta)
    requires
        data@.len() <= u32::MAX,
    ensures
        meta.version == version,
        meta.size == data@.len(),
        meta.block_size == DEFAULT_BLOCK_SIZE,
        meta.block_crc32@ == block_crcs(data@, DEFAULT_BLOCK_SIZE as nat),
        meta.created_at == now,
        meta.last_scrubbed == now,
{
    let block_crc32 = compute_all_blocks_crc32(data, DEFAULT_BLOCK_SIZE);
    ChunkMeta {
        version,
        size: data.len() as u32,
        block_size: DEFAULT_BLOCK_SIZE as u32,
        block_crc32,
        created_at: now,
        last_scrubbed: now,
    }
}

/// The metadata recorded for a chunk whose whole contents are `data`,
/// written now with version `version`.
pub fn meta_for_contents_now(version: u64, data: &[u8]) -> (meta: ChunkMeta)
    requires
        data@.len() <= u32::MAX,
    ensures
        meta.version == version,
        meta.size == data@.len(),
        meta.block_size == DEFAULT_BLOCK_SIZE,
        meta.block_crc32@ == block_crcs(data@, DEFAULT_BLOCK_SIZE as nat),
        meta.created_at == meta.last_scrubbed,
{
    meta_for_contents(version, data, unix_millis_now())
}

/// The number of bytes a read of `length` bytes at `offset` (not past the
/// end) returns from a chunk of `size` bytes: up to the end of the chunk.
pub open spec fn read_len(size: u32, offset: u64, length: u32) -> int {
    if length as int <= size - offset { length as int } else { size - offset }
}

/// How many bytes a read of `length` bytes at `offset` returns from a chunk
/// of `size` bytes: up to the end of the chunk. An offset past the end is an
/// error.
pub fn read_span(size: u32, offset: u64, length: u32) -> (r: Result<usize, StoreError>)
    ensures
        offset > size ==> r == Err::<usize, StoreError>(StoreError::InvalidOffset { offset, size }),
        offset <= size ==> r == Ok::<usize, StoreError>(read_len(size, offset, length) as usize),
{
    if offset > size as u64 {
        return Err(StoreError::InvalidOffset { offset, size });
    }
    let rest: u64 = size as u64 - offset;
    let n: u64 = if (length as u64) <= rest { length as u64 } else { rest };
    Ok(n as usize)
}

/// The number of bucket directories chunks are spread over.
pub const CHUNK_BUCKETS: u64 = 256;

/// The two directory names below `chunks/` under which chunk `handle` is
/// stored: its bucket (the handle modulo the bucket count) and the handle.
pub fn chunk_dir_parts(handle: u64) -> (r: (String, String))
    ensures
        r.0@ == decimal_text((handle % CHUNK_BUCKETS) as nat),
        r.1@ == decimal_text(handle as nat),
{
    (u64_to_decimal(handle % CHUNK_BUCKETS), u64_to_decimal(handle))
}

/// The name of the file holding chunk `handle`'s data.
pub fn data_file_name(handle: u64) -> (s: String)
    ensures
        s@ == "chunk_"@ + decimal_text(handle as nat) + ".bin"@,
{
    "chunk_".to_owned().concat(u64_to_decimal(handle).as_str()).concat(".bin")
}

/// The name of the file holding chunk `handle`'s metadata.
pub fn meta_file_name(handle: u64) -> (s: String)
    ensures
        s@ == "chunk_"@ + decimal_text(handle as nat) + ".meta"@,
{
    "chunk_".to_owned().concat(u64_to_decimal(handle).as_str()).concat(".meta")
}

/// After `n` bytes are written at `offset` (with the chunk's end within 32
/// bits), a read of `n` bytes at `offset` is in range and returns all `n`.
pub proof fn lemma_read_after_write(file_len: u64, offset: u64, n: u32)
    requires
        file_len <= u32::MAX,
        offset + n <= u32::MAX,
    ensures
        offset <= size_after_write(file_len, offset, n as nat),
        read_len(size_after_write(file_len, offset, n as nat), offset, n) == n,
{
}

} // verus!
