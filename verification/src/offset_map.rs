use vstd::prelude::*;

verus! {

/// Default size of a chunk (64 MiB).
pub const DEFAULT_CHUNK_SIZE: u32 = 67108864;

/// Index of the chunk that holds byte `file_offset` of a file, and the byte's
/// offset inside that chunk. Both are truncated to 32 bits, as `as u32`
/// casts do.
pub fn chunk_index_and_offset(file_offset: u64, chunk_size: u32) -> (r: (u32, u32))
    requires
        chunk_size > 0,
    ensures
        r.0 == (file_offset / (chunk_size as u64)) as u32,
        r.1 == file_offset % (chunk_size as u64),
        r.1 < chunk_size,
{
    let chunk_size_u64 = chunk_size as u64;
    let chunk_index = (file_offset / chunk_size_u64) as u32;
    let chunk_offset = (file_offset % chunk_size_u64) as u32;
    (chunk_index, chunk_offset)
}

/// Where the chunk index fits in 32 bits, the index and the in-chunk offset
/// give back the file offset: `index * chunk_size + offset == file_offset`.
pub proof fn lemma_chunk_position_round_trip(file_offset: u64, chunk_size: u32)
    requires
        chunk_size > 0,
        file_offset / (chunk_size as u64) <= u32::MAX,
    ensures
        ((file_offset / (chunk_size as u64)) as u32) * chunk_size + file_offset % (chunk_size as u64) == file_offset,
{
    let q = file_offset / (chunk_size as u64);
    vstd::arithmetic::div_mod::lemma_fundamental_div_mod(file_offset as int, chunk_size as int);
    assert(q as u32 == q);
    vstd::arithmetic::mul::lemma_mul_is_commutative(q as int, chunk_size as int);
}

} // verus!
