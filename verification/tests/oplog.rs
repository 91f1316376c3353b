use gfs::checksum::compute_block_crc32;
use gfs::oplog::{decode_log, encode_entry, next_sequence, OplogError};

#[test]
fn entry_layout_is_header_payload_crc() {
    let (bytes, crc) = encode_entry(1, b"abc");
    let mut expected = Vec::new();
    expected.extend_from_slice(&1u64.to_le_bytes());
    expected.extend_from_slice(&3u32.to_le_bytes());
    expected.extend_from_slice(b"abc");
    assert_eq!(crc, compute_block_crc32(&expected));
    expected.extend_from_slice(&crc.to_le_bytes());
    assert_eq!(bytes, expected);
}

#[test]
fn written_entries_are_read_back() {
    let mut log = Vec::new();
    log.extend_from_slice(&encode_entry(1, b"create /a").0);
    log.extend_from_slice(&encode_entry(2, b"").0);
    log.extend_from_slice(&encode_entry(3, b"delete /a").0);
    let entries = decode_log(&log).unwrap();
    assert_eq!(entries.len(), 3);
    assert_eq!(entries[0].sequence, 1);
    assert_eq!(entries[0].payload, b"create /a".to_vec());
    assert_eq!(entries[1].payload, Vec::<u8>::new());
    assert_eq!(entries[2].sequence, 3);
    assert_eq!(entries[2].payload, b"delete /a".to_vec());
    assert_eq!(next_sequence(&entries), 4);
}

#[test]
fn empty_log_starts_at_one() {
    let entries = decode_log(&[]).unwrap();
    assert!(entries.is_empty());
    assert_eq!(next_sequence(&entries), 1);
}

#[test]
fn torn_tail_is_dropped() {
    let mut log = encode_entry(5, b"kept").0;
    let second = encode_entry(6, b"torn").0;
    log.extend_from_slice(&second[..second.len() - 2]);
    let entries = decode_log(&log).unwrap();
    assert_eq!(entries.len(), 1);
    assert_eq!(entries[0].sequence, 5);
    assert_eq!(next_sequence(&entries), 6);
}

#[test]
fn corrupted_entry_is_a_checksum_error() {
    let mut log = encode_entry(1, b"ok").0;
    let mut bad = encode_entry(2, b"bad").0;
    bad[12] ^= 0xFF;
    log.extend_from_slice(&bad);
    assert_eq!(decode_log(&log).err(), Some(OplogError::ChecksumMismatch(2)));
}
