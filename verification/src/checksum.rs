use vstd::prelude::*;

verus! {

/// Size of the checksummed blocks a chunk is divided into (64 KiB).
pub const DEFAULT_BLOCK_SIZE: usize = 65536;

/// CRC-32 (IEEE) of a byte sequence, as computed by `crc32fast`.
pub uninterp spec fn crc32_of(data: Seq<u8>) -> u32;

/// A block whose stored CRC does not match the CRC of its bytes.
#[derive(Debug, Clone, PartialEq, Eq)]
pub enum ChecksumError {
    ChecksumMismatch { chunk: u64, block_index: usize, expected: u32, computed: u32 },
}

/// Length of the next block of a byte sequence of length `len`.
pub open spec fn next_block_len(len: nat, block_size: nat) -> nat {
    if len < block_size { len } else { block_size }
}

/// CRCs of consecutive blocks of `block_size` bytes; the last block may be shorter.
pub open spec fn block_crcs(data: Seq<u8>, block_size: nat) -> Seq<u32>
    decreases data.len(),
{
    if data.len() == 0 || block_size == 0 {
        Seq::empty()
    } else {
        let n = next_block_len(data.len(), block_size);
        seq![crc32_of(data.take(n as int))] + block_crcs(data.skip(n as int), block_size)
    }
}

/// `crc32fast::Hasher::new`, `update` and `finalize` in sequence: the CRC-32
/// of `data`. Its contract names the result `crc32_of(data)`.
#[verifier::external_body]
pub fn compute_block_crc32(data: &[u8]) -> (crc: u32)
    ensures
        crc == crc32_of(data@),
{
    let mut hasher = crc32fast::Hasher::new();
    hasher.update(data);
    hasher.finalize()
}

/// CRCs of all `block_size`-byte blocks of `data`, in order.
pub fn compute_all_blocks_crc32(data: &[u8], block_size: usize) -> (crcs: Vec<u32>)
    requires
        block_size > 0,
    ensures
        crcs@ == block_crcs(data@, block_size as nat),
{
    let mut crcs: Vec<u32> = Vec::new();
    let len = data.len();
    let mut start: usize = 0;
    proof {
        assert(data@.skip(0) =~= data@);
        assert(crcs@ + block_crcs(data@, block_size as nat) =~= block_crcs(data@, block_size as nat));
    }
    while start < len
        invariant
            len == data@.len(),
            block_size > 0,
            start <= len,
            crcs@ + block_crcs(data@.skip(start as int), block_size as nat) == block_crcs(
                data@,
                block_size as nat,
            ),
        decreases len - start,
    {
        let n: usize = if len - start < block_size { len - start } else { block_size };
        let block = vstd::slice::slice_subrange(data, start, start + n);
        let crc = compute_block_crc32(block);
        proof {
            let rest = data@.skip(start as int);
            assert(rest.take(n as int) =~= block@);
            assert(rest.skip(n as int) =~= data@.skip(start + n));
            assert(block_crcs(rest, block_size as nat) == seq![crc] + block_crcs(
                rest.skip(n as int),
                block_size as nat,
            ));
            assert(crcs@.push(crc) + block_crcs(data@.skip(start + n), block_size as nat)
                =~= crcs@ + block_crcs(rest, block_size as nat));
        }
        crcs.push(crc);
        start = start + n;
    }
    proof {
        assert(data@.skip(len as int) =~= Seq::<u8>::empty());
        assert(crcs@ + Seq::<u32>::empty() =~= crcs@);
    }
    crcs
}

/// Checks one block against its stored CRC.
pub fn verify_block_crc32(chunk: u64, block_index: usize, data: &[u8], expected: u32) -> (r: Result<
    (),
    ChecksumError,
>)
    ensures
        crc32_of(data@) == expected ==> r == Ok::<(), ChecksumError>(()),
        crc32_of(data@) != expected ==> r == Err::<(), ChecksumError>(
            ChecksumError::ChecksumMismatch {
                chunk,
                block_index,
                expected,
                computed: crc32_of(data@),
            },
        ),
{
    let computed = compute_block_crc32(data);
    if computed != expected {
        Err(ChecksumError::ChecksumMismatch { chunk, block_index, expected, computed })
    } else {
        Ok(())
    }
}

} // verus!
