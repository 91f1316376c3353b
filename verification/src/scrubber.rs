//! Background verification of stored chunks against their block CRCs.
use vstd::prelude::*;
use crate::checksum::{ChecksumError, block_crcs, crc32_of, next_block_len, verify_block_crc32};
use crate::store::ChunkMeta;

verus! {

/// Block `i` of `data` in blocks of `block_size` bytes (the last may be shorter).
pub open spec fn block_at(data: Seq<u8>, block_size: nat, i: int) -> Seq<u8> {
    let start = i * block_size;
    let end = (i + 1) * block_size;
    data.subrange(start, if end < data.len() { end } else { data.len() as int })
}

/// Block `i` is present in `data` and its CRC differs from `crcs[i]`.
pub open spec fn block_mismatch(data: Seq<u8>, block_size: nat, crcs: Seq<u32>, i: int) -> bool {
    i * block_size < data.len() && crc32_of(block_at(data, block_size, i)) != crcs[i]
}

/// The error reported for block `i`.
pub open spec fn mismatch_error(handle: u64, data: Seq<u8>, block_size: nat, crcs: Seq<u32>, i: int) -> ChecksumError {
    ChecksumError::ChecksumMismatch {
        chunk: handle,
        block_index: i as usize,
        expected: crcs[i],
        computed: crc32_of(block_at(data, block_size, i)),
    }
}

/// The errors found among the first `k` stored CRCs, in block order.
pub open spec fn scrub_errors(handle: u64, data: Seq<u8>, block_size: nat, crcs: Seq<u32>, k: int) -> Seq<ChecksumError>
    decreases k,
{
    if k <= 0 {
        Seq::empty()
    } else {
        let prev = scrub_errors(handle, data, block_size, crcs, k - 1);
        if block_mismatch(data, block_size, crcs, k - 1) {
            prev.push(mismatch_error(handle, data, block_size, crcs, k - 1))
        } else {
            prev
        }
    }
}

/// Once block `k` starts past the data, no later block is present either.
proof fn lemma_blocks_past_end(data: Seq<u8>, block_size: nat, crcs: Seq<u32>, handle: u64, k: int, m: int)
    requires
        0 <= k <= m,
        k * block_size >= data.len(),
    ensures
        scrub_errors(handle, data, block_size, crcs, m) == scrub_errors(handle, data, block_size, crcs, k),
    decreases m - k,
{
    if m > k {
        lemma_blocks_past_end(data, block_size, crcs, handle, k, m - 1);
        assert((m - 1) * block_size >= k * block_size) by (nonlinear_arith)
            requires m - 1 >= k, block_size >= 0;
    }
}

/// Checks every stored block CRC of a chunk against the chunk's bytes and
/// returns the mismatches, in block order. Blocks that lie past the end of
/// the data are not checked.
pub fn scrub_chunk(handle: u64, meta: &ChunkMeta, data: &[u8]) -> (errors: Vec<ChecksumError>)
    ensures
        errors@ == scrub_errors(handle, data@, meta.block_size as nat, meta.block_crc32@, meta.block_crc32@.len() as int),
{
    let bs = meta.block_size as usize;
    let len = data.len();
    let n = meta.block_crc32.len();
    let mut errors: Vec<ChecksumError> = Vec::new();
    let mut i: usize = 0;
    let mut start: u128 = 0;
    while i < n
        invariant
            n == meta.block_crc32@.len(),
            len == data@.len(),
            bs == meta.block_size,
            i <= n,
            start == i * bs,
            errors@ == scrub_errors(handle, data@, bs as nat, meta.block_crc32@, i as int),
        decreases n - i,
    {
        if start >= len as u128 {
            proof {
                lemma_blocks_past_end(data@, bs as nat, meta.block_crc32@, handle, i as int, n as int);
            }
            return errors;
        }
        let s = start as usize;
        let end: usize = if bs <= len - s { s + bs } else { len };
        let expected = meta.block_crc32[i];
        let block = vstd::slice::slice_subrange(data, s, end);
        proof {
            assert((i + 1) * bs == i * bs + bs) by (nonlinear_arith);
            assert(block@ == block_at(data@, bs as nat, i as int));
        }
        match verify_block_crc32(handle, i, block, expected) {
            Ok(()) => {},
            Err(e) => {
                errors.push(e);
            },
        }
        proof {
            assert((i + 1) * bs == i * bs + bs) by (nonlinear_arith);
        }
        start = start + bs as u128;
        i = i + 1;
    }
    errors
}

/// The end of a read of `length` bytes at `offset` from `len` bytes.
pub open spec fn read_end(len: nat, offset: u64, length: u32) -> int {
    if offset + length < len { offset + length } else { len as int }
}

/// Block `i` is one a read of bytes `offset .. end` checks and finds damaged:
/// it has a stored CRC, overlaps the range, and its bytes do not match.
pub open spec fn read_block_damaged(data: Seq<u8>, block_size: nat, crcs: Seq<u32>, offset: int, end: int, i: int) -> bool {
    &&& 0 <= i < crcs.len()
    &&& offset < (i + 1) * block_size
    &&& i * block_size < end
    &&& block_mismatch(data, block_size, crcs, i)
}

/// Block `i` is the first block a read of bytes `offset .. end` finds damaged.
pub open spec fn first_damaged(data: Seq<u8>, block_size: nat, crcs: Seq<u32>, offset: int, end: int, i: int) -> bool {
    &&& read_block_damaged(data, block_size, crcs, offset, end, i)
    &&& forall|j: int| j < i ==> !#[trigger] read_block_damaged(data, block_size, crcs, offset, end, j)
}

/// Reads bytes `offset .. offset + length` (cut at the end of the data) of a
/// chunk whose bytes are `data`, checking only the blocks the range touches:
/// the bytes when every such block matches its stored CRC, else the error of
/// the first block that does not.
pub fn verified_read(handle: u64, meta: &ChunkMeta, data: &[u8], offset: u64, length: u32) -> (r: Result<Vec<u8>, ChecksumError>)
    requires
        offset <= data@.len(),
    ensures
        ({
            let bs = meta.block_size as nat;
            let crcs = meta.block_crc32@;
            let end = read_end(data@.len(), offset, length);
            &&& r is Ok <==> forall|i: int| !#[trigger] read_block_damaged(data@, bs, crcs, offset as int, end, i)
            &&& r matches Ok(v) ==> v@ == data@.subrange(offset as int, end)
            &&& r matches Err(e) ==> exists|i: int| #[trigger] first_damaged(data@, bs, crcs, offset as int, end, i)
                && e == mismatch_error(handle, data@, bs, crcs, i)
        }),
{
    let bs = meta.block_size as usize;
    let len = data.len();
    let off = offset as usize;
    let end: usize = if (offset as u128 + length as u128) < len as u128 { off + length as usize } else { len };
    let ghost crcs = meta.block_crc32@;
    let ghost gbs: nat = meta.block_size as nat;
    let ghost goff: int = offset as int;
    let ghost gend = read_end(data@.len(), offset, length);
    let n = meta.block_crc32.len();
    let mut i: usize = 0;
    let mut start: u128 = 0;
    while i < n
        invariant
            n == crcs.len(),
            crcs == meta.block_crc32@,
            len == data@.len(),
            bs == meta.block_size,
            off == offset,
            end == gend,
            bs == gbs,
            off == goff,
            gbs == meta.block_size as nat,
            goff == offset as int,
            gend == read_end(data@.len(), offset, length),
            off <= end <= len,
            i <= n,
            start == i * bs,
            forall|j: int| j < i ==> !#[trigger] read_block_damaged(data@, gbs, crcs, goff, gend, j),
        decreases n - i,
    {
        if start >= end as u128 {
            proof {
                assert forall|j: int| !#[trigger] read_block_damaged(data@, gbs, crcs, goff, gend, j) by {
                    if j >= i {
                        assert(j * bs >= i * bs) by (nonlinear_arith)
                            requires j >= i, bs >= 0;
                    }
                }
            }
            return Ok(vstd::slice::slice_to_vec(vstd::slice::slice_subrange(data, off, end)));
        }
        proof {
            assert((i + 1) * bs == i * bs + bs) by (nonlinear_arith);
        }
        if (off as u128) < start + bs as u128 {
            let s = start as usize;
            let e: usize = if bs <= len - s { s + bs } else { len };
            let block = vstd::slice::slice_subrange(data, s, e);
            proof {
                assert(block@ == block_at(data@, gbs, i as int));
            }
            match verify_block_crc32(handle, i, block, meta.block_crc32[i]) {
                Ok(()) => {},
                Err(err) => {
                    proof {
                        assert(read_block_damaged(data@, gbs, crcs, goff, gend, i as int));
                        assert(err == mismatch_error(handle, data@, gbs, crcs, i as int));
                        assert(first_damaged(data@, gbs, crcs, goff, gend, i as int));
                        let bsn = meta.block_size as nat;
                        let endv = read_end(data@.len(), offset, length);
                        assert(first_damaged(data@, bsn, meta.block_crc32@, offset as int, endv, i as int)
                            && err == mismatch_error(handle, data@, bsn, meta.block_crc32@, i as int));
                        assert(!forall|k: int| !#[trigger] read_block_damaged(data@, bsn, meta.block_crc32@, offset as int, endv, k));
                    }
                    return Err(err);
                },
            }
        }
        start = start + bs as u128;
        i = i + 1;
    }
    Ok(vstd::slice::slice_to_vec(vstd::slice::slice_subrange(data, off, end)))
}

/// The stored CRC list of `data` has one entry per block, and entry `i` is
/// the CRC of block `i`.
pub proof fn lemma_block_crcs_indexed(data: Seq<u8>, block_size: nat)
    requires
        block_size > 0,
    ensures
        forall|i: int| 0 <= i ==> (i < block_crcs(data, block_size).len() <==> #[trigger] (i * block_size) < data.len()),
        forall|i: int| 0 <= i < block_crcs(data, block_size).len() ==> #[trigger] block_crcs(data, block_size)[i] == crc32_of(block_at(data, block_size, i)),
    decreases data.len(),
{
    if data.len() == 0 {
        assert forall|i: int| 0 <= i implies (i < block_crcs(data, block_size).len() <==> #[trigger] (i * block_size) < data.len()) by {
            assert(i * block_size >= 0) by (nonlinear_arith) requires i >= 0, block_size > 0;
        }
    } else {
        let n = next_block_len(data.len(), block_size);
        let rest = data.skip(n as int);
        lemma_block_crcs_indexed(rest, block_size);
        let c = block_crcs(data, block_size);
        let cr = block_crcs(rest, block_size);
        assert(c == seq![crc32_of(data.take(n as int))] + cr);
        assert forall|i: int| 0 <= i implies (i < c.len() <==> #[trigger] (i * block_size) < data.len()) by {
            if i == 0 {
                assert(0 * block_size == 0) by (nonlinear_arith);
            } else {
                assert(i * block_size == (i - 1) * block_size + block_size) by (nonlinear_arith);
                assert((i - 1) * block_size >= 0) by (nonlinear_arith) requires i >= 1, block_size > 0;
                assert(i < c.len() <==> i - 1 < cr.len());
                assert(i - 1 < cr.len() <==> ((i - 1) * block_size) < rest.len());
                if n < block_size {
                    assert(rest.len() == 0);
                }
            }
        }
        assert forall|i: int| 0 <= i < c.len() implies #[trigger] c[i] == crc32_of(block_at(data, block_size, i)) by {
            if i == 0 {
                assert(0 * block_size == 0) by (nonlinear_arith);
                assert(1 * block_size == block_size) by (nonlinear_arith);
                assert(block_at(data, block_size, 0) =~= data.take(n as int));
            } else {
                assert(c[i] == cr[i - 1]);
                assert(i * block_size == (i - 1) * block_size + block_size) by (nonlinear_arith);
                assert((i + 1) * block_size == i * block_size + block_size) by (nonlinear_arith);
                assert((i - 1) * block_size >= 0) by (nonlinear_arith) requires i >= 1, block_size > 0;
                assert(i - 1 < cr.len());
                assert(((i - 1) * block_size) < rest.len());
                assert(n == block_size);
                assert(block_at(rest, block_size, i - 1) =~= block_at(data, block_size, i));
            }
        }
    }
}

/// Scrubbing a chunk against CRCs computed from its own bytes finds no
/// corruption.
pub proof fn lemma_scrub_clean(handle: u64, data: Seq<u8>, block_size: nat)
    requires
        block_size > 0,
    ensures
        scrub_errors(handle, data, block_size, block_crcs(data, block_size), block_crcs(data, block_size).len() as int)
            == Seq::<ChecksumError>::empty(),
{
    lemma_block_crcs_indexed(data, block_size);
    let crcs = block_crcs(data, block_size);
    assert forall|k: int| 0 <= k <= crcs.len() implies #[trigger] scrub_errors(handle, data, block_size, crcs, k) == Seq::<ChecksumError>::empty() by {
        lemma_scrub_prefix_clean(handle, data, block_size, crcs, k);
    }
}

proof fn lemma_scrub_prefix_clean(handle: u64, data: Seq<u8>, block_size: nat, crcs: Seq<u32>, k: int)
    requires
        block_size > 0,
        0 <= k <= crcs.len(),
        crcs == block_crcs(data, block_size),
        forall|i: int| 0 <= i < block_crcs(data, block_size).len() ==> #[trigger] block_crcs(data, block_size)[i] == crc32_of(block_at(data, block_size, i)),
    ensures
        scrub_errors(handle, data, block_size, crcs, k) == Seq::<ChecksumError>::empty(),
    decreases k,
{
    if k > 0 {
        lemma_scrub_prefix_clean(handle, data, block_size, crcs, k - 1);
        assert(crcs[k - 1] == crc32_of(block_at(data, block_size, k - 1)));
    }
}

/// A block that is present and whose CRC differs from the stored one is
/// reported.
pub proof fn lemma_scrub_reports_mismatch(handle: u64, data: Seq<u8>, block_size: nat, crcs: Seq<u32>, i: int)
    requires
        0 <= i < crcs.len(),
        block_mismatch(data, block_size, crcs, i),
    ensures
        scrub_errors(handle, data, block_size, crcs, crcs.len() as int).contains(mismatch_error(handle, data, block_size, crcs, i)),
    decreases crcs.len() - i,
{
    lemma_mismatch_in_prefix(handle, data, block_size, crcs, i, crcs.len() as int);
}

proof fn lemma_mismatch_in_prefix(handle: u64, data: Seq<u8>, block_size: nat, crcs: Seq<u32>, i: int, k: int)
    requires
        0 <= i < k,
        block_mismatch(data, block_size, crcs, i),
    ensures
        scrub_errors(handle, data, block_size, crcs, k).contains(mismatch_error(handle, data, block_size, crcs, i)),
    decreases k,
{
    let e = mismatch_error(handle, data, block_size, crcs, i);
    let s = scrub_errors(handle, data, block_size, crcs, k);
    if i == k - 1 {
        assert(s[s.len() - 1] == e);
    } else {
        lemma_mismatch_in_prefix(handle, data, block_size, crcs, i, k - 1);
        let p = scrub_errors(handle, data, block_size, crcs, k - 1);
        let j = choose|j: int| 0 <= j < p.len() && p[j] == e;
        assert(s[j] == e);
    }
}

} // verus!
