use gfs::chunk_table::{ChunkMetadata, ChunkTable, NodeRegistry};

#[test]
fn reported_chunks_collect_locations_once() {
    let mut t = ChunkTable::new();
    t.update_locations(5, "n1".to_string());
    let m = t.get(5).unwrap();
    assert_eq!(m.version, 1);
    assert_eq!(m.locations, vec!["n1".to_string()]);
    assert_eq!(m.primary, None);
    assert!(!m.pending_delete);
    t.update_locations(5, "n1".to_string());
    t.update_locations(5, "n2".to_string());
    assert_eq!(t.get(5).unwrap().locations, vec!["n1".to_string(), "n2".to_string()]);
    assert_eq!(t.len(), 1);
    assert_eq!(t.handles(), vec![5]);
}

#[test]
fn lease_grant_sets_primary_and_expiry() {
    let mut t = ChunkTable::new();
    assert!(!t.grant_lease_at(9, "n1".to_string(), 1000, 50));
    t.insert(
        9,
        ChunkMetadata { version: 3, locations: vec!["n1".to_string()], primary: None, lease_expiry: None, pending_delete: false },
    );
    assert!(t.grant_lease_at(9, "n1".to_string(), 1000, 50));
    let m = t.get(9).unwrap();
    assert_eq!(m.primary, Some("n1".to_string()));
    assert_eq!(m.lease_expiry, Some(1050));
    assert_eq!(m.version, 3);
    assert!(t.grant_lease(9, "n2".to_string(), u64::MAX));
    assert_eq!(t.get(9).unwrap().lease_expiry, Some(u64::MAX));
}

#[test]
fn handles_count_up_from_one() {
    let mut t = ChunkTable::new();
    assert_eq!(t.allocate_handle(), 1);
    assert_eq!(t.allocate_handle(), 2);
}

#[test]
fn least_loaded_prefers_the_lower_used_fraction() {
    let mut r = NodeRegistry::new();
    r.record_heartbeat_at("small".to_string(), "a:1".to_string(), 90, 10, 1000);
    r.record_heartbeat_at("big".to_string(), "b:1".to_string(), 990, 10, 1000);
    r.record_heartbeat_at("busy".to_string(), "c:1".to_string(), 0, 500, 1000);
    r.record_heartbeat_at("idle".to_string(), "d:1".to_string(), 100, 0, 1000);
    r.record_heartbeat_at("dead".to_string(), "e:1".to_string(), 1000, 0, 0);
    let picked: Vec<String> = r.pick_least_loaded_at(3, 20_500, 20_000).into_iter().map(|(id, _)| id).collect();
    assert_eq!(picked, vec!["idle".to_string(), "big".to_string(), "small".to_string()]);
    let all = r.pick_least_loaded_at(10, 20_500, 20_000);
    assert_eq!(all.len(), 4);
    let mut live: Vec<String> = r.get_live_nodes_at(20_500, 20_000).into_iter().map(|(id, _)| id).collect();
    live.sort();
    assert_eq!(live, vec!["big".to_string(), "busy".to_string(), "idle".to_string(), "small".to_string()]);
    assert_eq!(r.get(&"busy".to_string()).unwrap().used_bytes, 500);
}

#[test]
fn placement_orders_by_used_fraction_not_used_bytes() {
    let mut r = NodeRegistry::new();
    r.record_heartbeat_at("a".to_string(), "10.0.0.1:50052".to_string(), 900, 100, 1000);
    r.record_heartbeat_at("b".to_string(), "10.0.0.2:50052".to_string(), 100, 50, 1000);
    let picked = r.pick_least_loaded_at(1, 1500, 20_000);
    assert_eq!(picked.len(), 1);
    assert_eq!(picked[0].0, "a");
}

#[test]
fn least_loaded_outside_skips_holders() {
    let mut r = NodeRegistry::new();
    r.record_heartbeat_at("x".to_string(), "x:1".to_string(), 990, 10, 1000);
    r.record_heartbeat_at("y".to_string(), "y:1".to_string(), 500, 500, 1000);
    let entries = r.pick_least_loaded_at(2, 1000, 20_000);
    assert_eq!(gfs::chunk_table::least_loaded_outside(&entries, &vec!["x".to_string()]), Some(1));
    assert_eq!(gfs::chunk_table::least_loaded_outside(&entries, &vec![]), Some(0));
    assert_eq!(gfs::chunk_table::least_loaded_outside(&entries, &vec!["x".to_string(), "y".to_string()]), None);
}
