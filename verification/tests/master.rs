use gfs::master::Master;
use gfs::proto::{
    AllocateChunkRequest, ChunkHandle, ChunkLocation, CloneToCommand, ChunkReport, ChunkVersion, CommandType, CreateFileRequest,
    DeleteChunkCommand, HeartbeatRequest, LeaseRequest, MasterCommand, MasterCommandPayload, NodeId, PathRequest,
    RpcCode,
};

fn heartbeat(node: &str, used: u64, chunks: Vec<u64>) -> HeartbeatRequest {
    HeartbeatRequest {
        node: Some(NodeId { value: node.to_string() }),
        grpc_addr: format!("{}:7000", node),
        free_bytes: 1000 - used,
        used_bytes: used,
        chunks: chunks
            .into_iter()
            .map(|id| ChunkReport { handle: Some(ChunkHandle { id }), version: None, crc32: 0, corrupted: false })
            .collect(),
    }
}

fn loc(node: &str) -> ChunkLocation {
    ChunkLocation { node: Some(NodeId { value: node.to_string() }), grpc_addr: format!("{}:7000", node) }
}

fn create(m: &mut Master, path: &str, now: u64) {
    let r = m.create_file_at(&CreateFileRequest { path: path.to_string() }, now).unwrap();
    assert!(r.success);
}

fn cluster(now: u64) -> Master {
    let mut m = Master::new_at(3, 60_000, now);
    for (node, used) in [("n1", 10), ("n2", 20), ("n3", 30), ("n4", 40)] {
        let resp = m.heartbeat_at(heartbeat(node, used, vec![]), now);
        assert!(resp.commands.is_empty());
    }
    m
}

#[test]
fn create_then_get_file_info() {
    let mut m = Master::new_at(3, 60_000, 1000);
    create(&mut m, "/a", 1500);
    let info = m.get_file_info(&PathRequest { path: "/a".to_string() }).unwrap();
    assert_eq!(info.path, "/a");
    assert_eq!(info.size, 0);
    assert!(info.chunks.is_empty());
    assert!(!info.is_directory);
    assert_eq!(info.mtime.unwrap().unix_millis, 1500);
    assert_eq!(info.ctime.unwrap().unix_millis, 1500);
}

#[test]
fn create_twice_is_already_exists() {
    let mut m = Master::new_at(3, 60_000, 1000);
    create(&mut m, "/a", 1000);
    let err = m.create_file_at(&CreateFileRequest { path: "/a".to_string() }, 1000).unwrap_err();
    assert_eq!(err.code, RpcCode::AlreadyExists);
    assert_eq!(err.message, "File already exists: /a");
}

#[test]
fn missing_file_is_not_found() {
    let m = Master::new_at(3, 60_000, 1000);
    let err = m.get_file_info(&PathRequest { path: "/x".to_string() }).unwrap_err();
    assert_eq!(err.code, RpcCode::NotFound);
    assert_eq!(err.message, "File not found: /x");
}

#[test]
fn allocation_without_chunkservers_is_resource_exhausted() {
    let mut m = Master::new_at(3, 60_000, 1000);
    create(&mut m, "/a", 1000);
    let err = m.allocate_chunk_at(&AllocateChunkRequest { path: "/a".to_string(), chunk_index: 0 }, 1000, 1000).unwrap_err();
    assert_eq!(err.code, RpcCode::ResourceExhausted);
    assert_eq!(err.message, "No chunkservers available");
}

#[test]
fn allocation_picks_least_loaded_nodes() {
    let mut m = cluster(1000);
    create(&mut m, "/a", 1000);
    let resp = m.allocate_chunk_at(&AllocateChunkRequest { path: "/a".to_string(), chunk_index: 0 }, 1000, 1000).unwrap();
    assert_eq!(resp.handle, Some(ChunkHandle { id: 1 }));
    assert_eq!(resp.version, Some(ChunkVersion { value: 1 }));
    assert_eq!(resp.lease_expiry_unix_millis, 60_000);
    assert_eq!(resp.locations, vec![loc("n1"), loc("n2"), loc("n3")]);
    assert_eq!(resp.primary, Some(loc("n1")));
    let info = m.get_file_info(&PathRequest { path: "/a".to_string() }).unwrap();
    assert_eq!(info.chunks, vec![ChunkHandle { id: 1 }]);

    let locs = m.get_chunk_locations_at(ChunkHandle { id: 1 }, 11_000).unwrap();
    assert_eq!(locs.locations, vec![loc("n1"), loc("n2"), loc("n3")]);
    assert_eq!(locs.primary, Some(loc("n1")));
    assert_eq!(locs.lease_expiry_unix_millis, 50_000);
    assert_eq!(locs.handle, Some(ChunkHandle { id: 1 }));
}

#[test]
fn allocation_for_a_missing_file_is_internal() {
    let mut m = cluster(1000);
    let err = m.allocate_chunk_at(&AllocateChunkRequest { path: "/none".to_string(), chunk_index: 0 }, 1000, 1000).unwrap_err();
    assert_eq!(err.code, RpcCode::Internal);
    assert_eq!(err.message, "File not found: /none");
}

#[test]
fn unknown_chunk_locations_are_not_found() {
    let m = Master::new_at(3, 60_000, 1000);
    let err = m.get_chunk_locations_at(ChunkHandle { id: 99 }, 1000).unwrap_err();
    assert_eq!(err.code, RpcCode::NotFound);
    assert_eq!(err.message, "Chunk 99 not found");
}

#[test]
fn deleted_file_chunks_are_ordered_deleted() {
    let mut m = cluster(1000);
    create(&mut m, "/a", 1000);
    m.allocate_chunk_at(&AllocateChunkRequest { path: "/a".to_string(), chunk_index: 0 }, 1000, 1000).unwrap();
    m.delete_file(&PathRequest { path: "/a".to_string() }).unwrap();
    let resp = m.heartbeat_at(heartbeat("n1", 10, vec![1]), 2000);
    assert_eq!(
        resp.commands,
        vec![MasterCommand {
            command_type: CommandType::DeleteChunk,
            payload: Some(MasterCommandPayload::DeleteChunk(DeleteChunkCommand {
                handle: Some(ChunkHandle { id: 1 })
            })),
        }]
    );
    let err = m.get_file_info(&PathRequest { path: "/a".to_string() }).unwrap_err();
    assert_eq!(err.code, RpcCode::NotFound);
}

#[test]
fn deleting_a_missing_file_is_not_found() {
    let mut m = Master::new_at(3, 60_000, 1000);
    let err = m.delete_file(&PathRequest { path: "/x".to_string() }).unwrap_err();
    assert_eq!(err.code, RpcCode::NotFound);
    assert_eq!(err.message, "File not found: /x");
}

#[test]
fn reported_chunks_gain_the_reporting_node() {
    let mut m = cluster(1000);
    m.heartbeat_at(heartbeat("n4", 40, vec![7]), 1000);
    let locs = m.get_chunk_locations_at(ChunkHandle { id: 7 }, 1000).unwrap();
    assert_eq!(locs.locations, vec![loc("n4")]);
    assert_eq!(locs.version, Some(ChunkVersion { value: 1 }));
    assert_eq!(locs.primary, None);
    assert_eq!(locs.lease_expiry_unix_millis, 0);
}

#[test]
fn reaping_drops_silent_nodes() {
    let mut m = cluster(1000);
    create(&mut m, "/a", 1000);
    m.allocate_chunk_at(&AllocateChunkRequest { path: "/a".to_string(), chunk_index: 0 }, 1000, 1000).unwrap();
    m.heartbeat_at(heartbeat("n1", 10, vec![]), 2000);
    m.reap_dead_nodes_at(21_000);
    let locs = m.get_chunk_locations_at(ChunkHandle { id: 1 }, 21_000).unwrap();
    assert_eq!(locs.locations, vec![loc("n1")]);
    assert!(m.node_registry.get(&"n2".to_string()).is_none());
    assert!(m.node_registry.get(&"n1".to_string()).is_some());
    let under = m.detect_under_replication_at(21_000);
    assert_eq!(under, vec![(1, 1)]);
    // Every live node already holds the chunk: nothing to copy to.
    assert!(m.heartbeat_at(heartbeat("n1", 10, vec![]), 21_000).commands.is_empty());
}

#[test]
fn under_replicated_chunks_are_queued_for_copying() {
    let mut m = cluster(1000);
    m.heartbeat_at(heartbeat("n4", 40, vec![7]), 1000);
    let under = m.detect_under_replication_at(1500);
    assert_eq!(under, vec![(7, 1)]);
    // A second scan before delivery queues no second copy.
    m.detect_under_replication_at(1600);
    let clone = MasterCommand {
        command_type: CommandType::CloneTo,
        payload: Some(MasterCommandPayload::CloneTo(CloneToCommand {
            handle: Some(ChunkHandle { id: 7 }),
            target: Some(loc("n1")),
        })),
    };
    assert_eq!(m.heartbeat_at(heartbeat("n4", 40, vec![7]), 1700).commands, vec![clone]);
    assert!(m.heartbeat_at(heartbeat("n1", 10, vec![]), 1700).commands.is_empty());
}

#[test]
fn fully_replicated_and_deleted_chunks_are_not_copied() {
    let mut m = cluster(1000);
    create(&mut m, "/a", 1000);
    m.allocate_chunk_at(&AllocateChunkRequest { path: "/a".to_string(), chunk_index: 0 }, 1000, 1000).unwrap();
    assert!(m.detect_under_replication_at(1000).is_empty());
    for node in ["n1", "n2", "n3", "n4"] {
        assert!(m.heartbeat_at(heartbeat(node, 10, vec![]), 1000).commands.is_empty());
    }
}

#[test]
fn lease_is_granted_for_known_chunks_only() {
    let mut m = cluster(1000);
    create(&mut m, "/a", 1000);
    m.allocate_chunk_at(&AllocateChunkRequest { path: "/a".to_string(), chunk_index: 0 }, 1000, 1000).unwrap();
    let granted = m.request_lease_at(LeaseRequest { node: Some(NodeId { value: "n2".to_string() }), handle: Some(ChunkHandle { id: 1 }) }, 5000, 5000);
    assert!(granted.granted);
    assert_eq!(granted.lease_expiry_unix_millis, 65_000);
    assert_eq!(granted.version, Some(ChunkVersion { value: 1 }));
    let locs = m.get_chunk_locations_at(ChunkHandle { id: 1 }, 5000).unwrap();
    assert_eq!(locs.primary, Some(loc("n2")));
    assert_eq!(locs.lease_expiry_unix_millis, 60_000);
    assert_eq!(locs.locations, vec![loc("n1"), loc("n2"), loc("n3")]);
    let refused = m.request_lease_at(LeaseRequest { node: Some(NodeId { value: "n2".to_string() }), handle: Some(ChunkHandle { id: 99 }) }, 5000, 5000);
    assert!(!refused.granted);
    assert_eq!(refused.lease_expiry_unix_millis, 0);
    assert_eq!(refused.handle, Some(ChunkHandle { id: 99 }));
    // n4 holds no replica of chunk 1: no lease for it.
    let stranger = m.request_lease_at(LeaseRequest { node: Some(NodeId { value: "n4".to_string() }), handle: Some(ChunkHandle { id: 1 }) }, 5000, 5000);
    assert!(!stranger.granted);
    assert_eq!(stranger.lease_expiry_unix_millis, 0);
    assert_eq!(m.get_chunk_locations_at(ChunkHandle { id: 1 }, 5000).unwrap().primary, Some(loc("n2")));
}

#[test]
fn listing_the_root_gives_its_children() {
    let mut m = Master::new_at(3, 60_000, 1000);
    create(&mut m, "/a", 1000);
    create(&mut m, "/b", 1000);
    create(&mut m, "/b/c", 1000);
    let resp = m.list_directory(&PathRequest { path: "/".to_string() }).unwrap();
    let mut paths: Vec<String> = resp.entries.iter().map(|e| e.path.clone()).collect();
    paths.sort();
    assert_eq!(paths, vec!["/a".to_string(), "/b".to_string()]);
}

#[test]
fn listing_a_file_is_refused() {
    let mut m = Master::new_at(3, 60_000, 1000);
    create(&mut m, "/a", 1000);
    let err = m.list_directory(&PathRequest { path: "/a".to_string() }).unwrap_err();
    assert_eq!(err.code, RpcCode::NotFound);
    assert_eq!(err.message, "Not a directory: /a");
}

#[test]
fn handlers_read_the_clock() {
    let mut m = Master::new_at(1, 60_000, 0);
    let resp = m.heartbeat(heartbeat("n1", 10, vec![]));
    assert!(resp.commands.is_empty());
    assert!(m.create_file(&CreateFileRequest { path: "/now".to_string() }).unwrap().success);
    let alloc = m.allocate_chunk(&AllocateChunkRequest { path: "/now".to_string(), chunk_index: 0 }).unwrap();
    assert_eq!(alloc.locations, vec![loc("n1")]);
    assert_eq!(alloc.handle, Some(ChunkHandle { id: 1 }));
    let locs = m.get_chunk_locations(ChunkHandle { id: 1 }).unwrap();
    assert_eq!(locs.primary, Some(loc("n1")));
    assert!(locs.lease_expiry_unix_millis > 0 && locs.lease_expiry_unix_millis <= 60_000);
    let lease = m.request_lease(LeaseRequest { node: Some(NodeId { value: "n1".to_string() }), handle: Some(ChunkHandle { id: 1 }) });
    assert!(lease.granted);
    m.reap_dead_nodes();
    assert_eq!(m.get_chunk_locations(ChunkHandle { id: 1 }).unwrap().locations, vec![loc("n1")]);
}

#[test]
fn new_master_has_the_root_directory() {
    let m = Master::new(3, 60_000);
    let root = m.get_file_info(&PathRequest { path: "/".to_string() }).unwrap();
    assert!(root.is_directory);
    assert_eq!(root.path, "/");
    assert_eq!(m.replication_factor, 3);
    assert_eq!(m.lease_duration_ms, 60_000);
}

#[test]
fn corrupted_replicas_are_dropped_and_copied_again() {
    let mut m = cluster(1000);
    create(&mut m, "/a", 1000);
    m.allocate_chunk_at(&AllocateChunkRequest { path: "/a".to_string(), chunk_index: 0 }, 1000, 1000).unwrap();
    let mut report = heartbeat("n2", 20, vec![1]);
    report.chunks[0].corrupted = true;
    assert!(m.heartbeat_at(report, 1100).commands.is_empty());
    let locs = m.get_chunk_locations_at(ChunkHandle { id: 1 }, 1100).unwrap();
    assert_eq!(locs.locations, vec![loc("n1"), loc("n3")]);
    assert_eq!(m.detect_under_replication_at(1200), vec![(1, 2)]);
    let clone = MasterCommand {
        command_type: CommandType::CloneTo,
        payload: Some(MasterCommandPayload::CloneTo(CloneToCommand {
            handle: Some(ChunkHandle { id: 1 }),
            target: Some(loc("n2")),
        })),
    };
    assert_eq!(m.heartbeat_at(heartbeat("n1", 10, vec![1]), 1300).commands, vec![clone]);
}

#[test]
fn copies_come_from_the_first_live_holder() {
    let mut m = cluster(1000);
    m.heartbeat_at(heartbeat("n4", 40, vec![7]), 1000);
    m.heartbeat_at(heartbeat("n1", 10, vec![7]), 2000);
    m.heartbeat_at(heartbeat("n2", 20, vec![]), 2000);
    // At 21 500 only n1 and n2 are live; n4, the first holder, is not.
    assert_eq!(m.detect_under_replication_at(21_500), vec![(7, 2)]);
    let clone = MasterCommand {
        command_type: CommandType::CloneTo,
        payload: Some(MasterCommandPayload::CloneTo(CloneToCommand {
            handle: Some(ChunkHandle { id: 7 }),
            target: Some(loc("n2")),
        })),
    };
    assert!(m.heartbeat_at(heartbeat("n4", 40, vec![]), 21_600).commands.is_empty());
    assert_eq!(m.heartbeat_at(heartbeat("n1", 10, vec![]), 21_600).commands, vec![clone]);
}

#[test]
fn leases_run_on_the_monotonic_clock_and_answer_in_wall_time() {
    let mut m = cluster(1000);
    create(&mut m, "/a", 1000);
    let wall = 1_700_000_000_000u64;
    m.allocate_chunk_at(&AllocateChunkRequest { path: "/a".to_string(), chunk_index: 0 }, 1000, wall).unwrap();
    let info = m.get_file_info(&PathRequest { path: "/a".to_string() }).unwrap();
    assert_eq!(info.mtime.unwrap().unix_millis, wall as i64);
    let lease = m.request_lease_at(
        LeaseRequest { node: Some(NodeId { value: "n1".to_string() }), handle: Some(ChunkHandle { id: 1 }) },
        5000,
        wall,
    );
    assert!(lease.granted);
    assert_eq!(lease.lease_expiry_unix_millis, (wall + 60_000) as i64);
    // The table keeps the lease on the monotonic clock: 60 s from 5 000.
    assert_eq!(m.get_chunk_locations_at(ChunkHandle { id: 1 }, 5000).unwrap().lease_expiry_unix_millis, 60_000);
    assert_eq!(m.get_chunk_locations_at(ChunkHandle { id: 1 }, 64_000).unwrap().lease_expiry_unix_millis, 1_000);
}
