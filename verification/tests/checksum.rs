use gfs::checksum::{
    compute_all_blocks_crc32, compute_block_crc32, verify_block_crc32, ChecksumError, DEFAULT_BLOCK_SIZE,
};
use gfs::scrubber::scrub_chunk;
use gfs::store::ChunkMeta;

#[test]
fn crc_of_check_string() {
    assert_eq!(compute_block_crc32(b"123456789"), 0xCBF4_3926);
}

#[test]
fn crc_of_empty_and_single_byte() {
    assert_eq!(compute_block_crc32(b""), 0);
    assert_eq!(compute_block_crc32(b"a"), 0xE8B7_BE43);
}

#[test]
fn default_block_size_is_64_kib() {
    assert_eq!(DEFAULT_BLOCK_SIZE, 64 * 1024);
}

#[test]
fn blocks_are_split_with_a_short_last_block() {
    let data = b"0123456789";
    let crcs = compute_all_blocks_crc32(data, 4);
    assert_eq!(
        crcs,
        vec![
            compute_block_crc32(b"0123"),
            compute_block_crc32(b"4567"),
            compute_block_crc32(b"89")
        ]
    );
}

#[test]
fn no_blocks_for_empty_data() {
    assert!(compute_all_blocks_crc32(b"", 4).is_empty());
}

#[test]
fn verify_accepts_matching_crc() {
    assert_eq!(verify_block_crc32(7, 0, b"123456789", 0xCBF4_3926), Ok(()));
}

#[test]
fn verify_reports_mismatch() {
    assert_eq!(
        verify_block_crc32(7, 3, b"123456789", 1),
        Err(ChecksumError::ChecksumMismatch { chunk: 7, block_index: 3, expected: 1, computed: 0xCBF4_3926 })
    );
}

fn meta_of(block_size: u32, block_crc32: Vec<u32>, size: u32) -> ChunkMeta {
    ChunkMeta { version: 1, size, block_size, block_crc32, created_at: 0, last_scrubbed: 0 }
}

#[test]
fn scrub_of_intact_chunk_is_clean() {
    let data = b"0123456789";
    let meta = meta_of(4, compute_all_blocks_crc32(data, 4), 10);
    assert!(scrub_chunk(9, &meta, data).is_empty());
}

#[test]
fn scrub_reports_the_corrupted_block() {
    let data = b"0123456789".to_vec();
    let meta = meta_of(4, compute_all_blocks_crc32(&data, 4), 10);
    let mut corrupted = data.clone();
    corrupted[5] = b'X';
    let errors = scrub_chunk(9, &meta, &corrupted);
    assert_eq!(
        errors,
        vec![ChecksumError::ChecksumMismatch {
            chunk: 9,
            block_index: 1,
            expected: compute_block_crc32(b"4567"),
            computed: compute_block_crc32(b"4X67"),
        }]
    );
}

#[test]
fn scrub_skips_blocks_past_the_data() {
    let data = b"0123";
    let meta = meta_of(4, vec![compute_block_crc32(b"0123"), 5, 6], 4);
    assert!(scrub_chunk(1, &meta, data).is_empty());
}
