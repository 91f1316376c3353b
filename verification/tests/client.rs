use gfs::cache::ChunkLocationCache;
use gfs::client::{
    append_target, connect_failure_status, entry_paths, ConnectRetry, GfsClient, MasterClient, RetryStep,
    LOCATION_CACHE_TTL_MS,
};
use gfs::offset_map::DEFAULT_CHUNK_SIZE;
use gfs::pipeline::{all_replicas, build_data_packets, split_primary, PipelineError, ReadAssembler, ReadStep, ReplicaOutcome, ReplicaReader};
use gfs::chunk_rpc::read_frames;
use gfs::checksum::compute_block_crc32;
use gfs::framing::FRAME_SIZE;
use gfs::proto::{
    ChunkHandle, ChunkLocation, ChunkLocationsResponse, FileInfo, ListDirectoryResponse, NodeId, ReadChunkResponse,
    RpcCode,
};

fn loc(node: &str) -> ChunkLocation {
    ChunkLocation { node: Some(NodeId { value: node.to_string() }), grpc_addr: format!("{}:1", node) }
}

fn response(lease: i64) -> ChunkLocationsResponse {
    ChunkLocationsResponse {
        locations: vec![loc("a"), loc("b")],
        primary: Some(loc("a")),
        version: None,
        lease_expiry_unix_millis: lease,
        handle: Some(ChunkHandle { id: 5 }),
    }
}

fn info_with_chunks(ids: &[u64]) -> FileInfo {
    FileInfo {
        path: "/f".to_string(),
        size: 0,
        chunks: ids.iter().map(|&id| ChunkHandle { id }).collect(),
        mtime: None,
        ctime: None,
        is_directory: false,
    }
}

#[test]
fn cache_entry_lives_for_the_default_ttl() {
    let mut cache = ChunkLocationCache::new(1000);
    cache.insert_at(5, response(0), 10_000);
    assert_eq!(cache.get_at(5, 10_999).unwrap().locations, vec![loc("a"), loc("b")]);
    assert!(cache.get_at(5, 11_000).is_none());
    assert!(cache.get_at(6, 10_000).is_none());
}

#[test]
fn cache_entry_lives_for_the_lease_when_given() {
    let mut cache = ChunkLocationCache::new(1000);
    cache.insert_at(5, response(50), 10_000);
    assert!(cache.get_at(5, 10_049).is_some());
    assert!(cache.get_at(5, 10_050).is_none());
}

#[test]
fn cache_invalidate_drops_entry() {
    let mut cache = ChunkLocationCache::new(60_000);
    cache.insert(5, response(0));
    assert_eq!(cache.get(5).unwrap().primary, Some(loc("a")));
    cache.invalidate(5);
    assert!(cache.get(5).is_none());
}

#[test]
fn cache_insert_replaces() {
    let mut cache = ChunkLocationCache::new(1000);
    cache.insert_at(5, response(0), 0);
    let mut newer = response(0);
    newer.locations = vec![loc("c")];
    cache.insert_at(5, newer, 0);
    assert_eq!(cache.get_at(5, 1).unwrap().locations, vec![loc("c")]);
}

#[test]
fn retry_policy_waits_100_then_200_then_gives_up() {
    let mut p = ConnectRetry::new();
    assert_eq!(p.on_failure(), RetryStep::RetryAfter(100));
    assert_eq!(p.on_failure(), RetryStep::RetryAfter(200));
    assert_eq!(p.on_failure(), RetryStep::GiveUp);
}

#[test]
fn connect_failure_message() {
    let st = connect_failure_status("http://m:1", "refused");
    assert_eq!(st.code, RpcCode::Unavailable);
    assert_eq!(st.message, "Failed to connect to master at http://m:1: refused");
}

#[test]
fn master_client_keeps_address() {
    let c = MasterClient::new("http://m:1".to_string());
    assert_eq!(c.master_addr(), "http://m:1");
    assert_eq!(c.clone().master_addr(), "http://m:1");
}

#[test]
fn read_target_maps_offset_to_chunk() {
    let client = GfsClient::new("http://m:1".to_string());
    assert_eq!(client.master().master_addr(), "http://m:1");
    let info = info_with_chunks(&[11, 22]);
    assert_eq!(client.read_target(&info, 5), Some((11, 5)));
    assert_eq!(client.read_target(&info, DEFAULT_CHUNK_SIZE as u64 + 7), Some((22, 7)));
    assert_eq!(client.read_target(&info, DEFAULT_CHUNK_SIZE as u64 * 2), None);
}

#[test]
fn client_caches_locations() {
    let mut client = GfsClient::new("http://m:1".to_string());
    assert!(client.cached_locations_at(5, 0).is_none());
    client.remember_locations_at(5, response(0), 0);
    assert!(client.cached_locations_at(5, LOCATION_CACHE_TTL_MS - 1).is_some());
    assert!(client.cached_locations_at(5, LOCATION_CACHE_TTL_MS).is_none());
    client.remember_locations(6, response(0));
    assert!(client.cached_locations(6).is_some());
    client.forget_locations(6);
    assert!(client.cached_locations(6).is_none());
}

#[test]
fn append_goes_to_last_chunk() {
    assert_eq!(append_target(&info_with_chunks(&[3, 4, 9])), Some(9));
    assert_eq!(append_target(&info_with_chunks(&[])), None);
}

#[test]
fn listing_paths_in_order() {
    let resp = ListDirectoryResponse { entries: vec![info_with_chunks(&[]), FileInfo { path: "/g".to_string(), ..info_with_chunks(&[]) }] };
    assert_eq!(entry_paths(&resp), vec!["/f".to_string(), "/g".to_string()]);
}

#[test]
fn primary_and_secondaries() {
    let (primary, others) = split_primary(&response(0)).unwrap();
    assert_eq!(primary, loc("a"));
    assert_eq!(others, vec![loc("b")]);
    let mut no_primary = response(0);
    no_primary.primary = None;
    assert_eq!(split_primary(&no_primary).unwrap_err(), PipelineError::NoPrimary);
    assert_eq!(all_replicas(&loc("a"), &vec![loc("b"), loc("c")]), vec![loc("a"), loc("b"), loc("c")]);
}

#[test]
fn data_packets_cover_the_data() {
    let data = vec![9u8; FRAME_SIZE + 1];
    let packets = build_data_packets(4, b"xid", &data);
    assert_eq!(packets.len(), 2);
    assert_eq!(packets[1].offset, FRAME_SIZE as u64);
    assert_eq!(packets[1].payload, vec![9u8]);
    assert_eq!(packets[1].crc32, compute_block_crc32(&[9u8]));
    assert_eq!(packets[0].chunk, Some(ChunkHandle { id: 4 }));
    assert_eq!(packets[0].data_id, b"xid".to_vec());
    let joined: Vec<u8> = packets.iter().flat_map(|p| p.payload.clone()).collect();
    assert_eq!(joined, data);
}

#[test]
fn read_assembler_checks_frames() {
    let data = b"hello world".to_vec();
    let mut assembler = ReadAssembler::new();
    for f in read_frames(&data, 0) {
        assembler.accept(&f).unwrap();
    }
    assert_eq!(assembler.data, data);
    let bad = ReadChunkResponse { payload: b"x".to_vec(), crc32: 1, offset: 0 };
    assert_eq!(
        assembler.accept(&bad),
        Err(PipelineError::ChecksumMismatch { expected: 1, computed: compute_block_crc32(b"x") })
    );
    assert_eq!(assembler.data, data);
}

#[test]
fn replica_reader_moves_on_and_reports_last_error() {
    use_reader();
}

fn use_reader() {
    let (mut r, step) = ReplicaReader::start(0);
    assert_eq!(step, ReadStep::Fail(PipelineError::NoReplicas));
    assert_eq!(r.count, 0);
    let (mut r2, step) = ReplicaReader::start(3);
    assert_eq!(step, ReadStep::TryReplica(0));
    assert_eq!(r2.on_failure(ReplicaOutcome::ConnectFailed), ReadStep::TryReplica(1));
    assert_eq!(r2.on_failure(ReplicaOutcome::ReadFailed("boom".to_string())), ReadStep::TryReplica(2));
    assert_eq!(r2.on_failure(ReplicaOutcome::ConnectFailed), ReadStep::Fail(PipelineError::Rpc("boom".to_string())));
    r = ReplicaReader::start(1).0;
    assert_eq!(r.on_failure(ReplicaOutcome::ConnectFailed), ReadStep::Fail(PipelineError::NoReplicas));
}
