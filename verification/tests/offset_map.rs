use gfs::offset_map::{chunk_index_and_offset, DEFAULT_CHUNK_SIZE};

#[test]
fn test_offset_map_zero() {
    assert_eq!(chunk_index_and_offset(0, DEFAULT_CHUNK_SIZE), (0, 0));
}

#[test]
fn test_offset_map_within_first_chunk() {
    assert_eq!(chunk_index_and_offset(1024, DEFAULT_CHUNK_SIZE), (0, 1024));
    assert_eq!(
        chunk_index_and_offset(DEFAULT_CHUNK_SIZE as u64 - 1, DEFAULT_CHUNK_SIZE),
        (0, DEFAULT_CHUNK_SIZE - 1)
    );
}

#[test]
fn test_offset_map_boundary() {
    assert_eq!(
        chunk_index_and_offset(DEFAULT_CHUNK_SIZE as u64, DEFAULT_CHUNK_SIZE),
        (1, 0)
    );
    assert_eq!(
        chunk_index_and_offset(DEFAULT_CHUNK_SIZE as u64 * 2, DEFAULT_CHUNK_SIZE),
        (2, 0)
    );
}

#[test]
fn test_offset_map_multi_chunk() {
    let offset = DEFAULT_CHUNK_SIZE as u64 * 5 + 42;
    assert_eq!(chunk_index_and_offset(offset, DEFAULT_CHUNK_SIZE), (5, 42));
}

#[test]
fn offset_map_default_chunk_size_is_64_mib() {
    assert_eq!(DEFAULT_CHUNK_SIZE, 64 * 1024 * 1024);
}

#[test]
fn offset_map_round_trip_small_chunks() {
    for offset in [0u64, 1, 9, 10, 11, 99, 12345] {
        let (index, in_chunk) = chunk_index_and_offset(offset, 10);
        assert!(in_chunk < 10);
        assert_eq!(index as u64 * 10 + in_chunk as u64, offset);
    }
}

#[test]
fn offset_map_index_truncated_to_32_bits() {
    let offset = (1u64 << 32) * 3 + 7;
    assert_eq!(chunk_index_and_offset(offset, 1), (7, 0));
}
