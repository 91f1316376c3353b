use gfs::proto::{ChunkHandle, ChunkVersion, NodeId, Timestamp};
use std::time::{Duration, SystemTime, UNIX_EPOCH};

#[test]
fn test_chunk_handle_conversion() {
    let raw = 42u64;
    let proto: ChunkHandle = raw.into();
    assert_eq!(proto.id, 42);
    let back: u64 = proto.into();
    assert_eq!(back, 42);
}

#[test]
fn test_chunk_version_conversion() {
    let raw = 100u64;
    let proto: ChunkVersion = raw.into();
    assert_eq!(proto.value, 100);
    let back: u64 = proto.into();
    assert_eq!(back, 100);
}

#[test]
fn test_node_id_conversion() {
    let raw = "node-1".to_string();
    let proto: NodeId = raw.clone().into();
    assert_eq!(proto.value, "node-1");
    let back: String = proto.into();
    assert_eq!(back, raw);
}

#[test]
fn test_timestamp_conversion() {
    let now = SystemTime::now();
    let proto: Timestamp = now.into();
    let back: SystemTime = proto.into();
    let diff = if now >= back {
        now.duration_since(back).unwrap()
    } else {
        back.duration_since(now).unwrap()
    };
    assert!(diff.as_millis() <= 2);
}

#[test]
fn timestamp_of_a_known_instant() {
    let t = UNIX_EPOCH + Duration::from_millis(1_700_000_000_123);
    let proto: Timestamp = t.into();
    assert_eq!(proto.unix_millis, 1_700_000_000_123);
    let back: SystemTime = proto.into();
    assert_eq!(back, t);
}

#[test]
fn timestamp_before_the_epoch_is_zero() {
    let t = UNIX_EPOCH - Duration::from_secs(5);
    let proto: Timestamp = t.into();
    assert_eq!(proto.unix_millis, 0);
}

#[test]
fn node_id_from_str() {
    let proto: NodeId = "n7".into();
    assert_eq!(proto.value, "n7");
}

#[test]
fn decimal_text_of_numbers() {
    assert_eq!(gfs::text::u64_to_decimal(0), "0");
    assert_eq!(gfs::text::u64_to_decimal(7), "7");
    assert_eq!(gfs::text::u64_to_decimal(1_234_567_890), "1234567890");
    assert_eq!(gfs::text::u64_to_decimal(u64::MAX), u64::MAX.to_string());
}

#[test]
fn timestamps_round_trip_through_system_time() {
    let t: std::time::SystemTime = gfs::proto::Timestamp { unix_millis: 1_700_000_000_123 }.into();
    let back: gfs::proto::Timestamp = t.into();
    assert_eq!(back.unix_millis, 1_700_000_000_123);
    let epoch: std::time::SystemTime = gfs::proto::Timestamp { unix_millis: -5 }.into();
    assert_eq!(epoch, std::time::UNIX_EPOCH);
}
