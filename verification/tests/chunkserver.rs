use gfs::checksum::{compute_all_blocks_crc32, compute_block_crc32, DEFAULT_BLOCK_SIZE};
use gfs::chunk_rpc::{
    appended, plan_apply, plan_record_append, plan_write, read_frames, required_handle, secondary_url, AppendPlan, ApplyPlan,
    PushAccumulator, MAX_CHUNK_SIZE,
};
use gfs::clone::{build_clone_frames, clone_target_url, cloned_response, CloneReceiver};
use gfs::framing::{split_into_frames, FRAME_SIZE};
use gfs::node::{heartbeat_request, isolation_failure_is_fatal, isolation_fails, REPORTED_FREE_BYTES, REPORTED_USED_BYTES};
use gfs::proto::{
    ApplyMutationRequest, ChunkHandle, ChunkLocation, ChunkReport, ChunkVersion, DataPacket, NodeId, RecordAppendRequest,
    RecordAppendResponse, RpcCode, WriteChunkRequest,
};
use gfs::store::{
    chunk_dir_parts, data_file_name, ChunkMeta, meta_file_name, meta_for_contents, read_span, written_size, StoreError,
};

fn secondary(addr: &str) -> ChunkLocation {
    ChunkLocation { node: Some(NodeId { value: addr.to_string() }), grpc_addr: addr.to_string() }
}

#[test]
fn frames_split_at_frame_size() {
    let data = vec![7u8; FRAME_SIZE + 10];
    let frames = split_into_frames(&data, FRAME_SIZE);
    assert_eq!(frames.len(), 2);
    assert_eq!(frames[0].len(), FRAME_SIZE);
    assert_eq!(frames[1].len(), 10);
    assert!(split_into_frames(&[], FRAME_SIZE).is_empty());
    assert_eq!(split_into_frames(b"abcde", 2), vec![b"ab".to_vec(), b"cd".to_vec(), b"e".to_vec()]);
}

#[test]
fn push_accumulator_keeps_first_id_and_all_bytes() {
    let mut acc = PushAccumulator::new();
    acc.accept(DataPacket { data_id: b"id1".to_vec(), chunk: None, payload: b"abc".to_vec(), crc32: 0, offset: 0 });
    acc.accept(DataPacket { data_id: b"id2".to_vec(), chunk: None, payload: b"de".to_vec(), crc32: 0, offset: 3 });
    let ack = acc.ack();
    assert_eq!(ack.data_id, b"id1".to_vec());
    assert!(ack.success);
    assert_eq!(ack.bytes_received, 5);
    assert_eq!(acc.data, b"abcde".to_vec());
}

#[test]
fn missing_handle_is_invalid_argument() {
    let err = required_handle(None).unwrap_err();
    assert_eq!(err.code, RpcCode::InvalidArgument);
    assert_eq!(err.message, "Missing chunk handle");
    assert_eq!(required_handle(Some(ChunkHandle { id: 4 })), Ok(4));
}

#[test]
fn write_plan_forwards_to_each_secondary() {
    let req = WriteChunkRequest {
        data_id: b"d".to_vec(),
        chunk: Some(ChunkHandle { id: 9 }),
        offset: 100,
        secondaries: vec![secondary("s1:1"), secondary("s2:2")],
    };
    let plan = plan_write(&req, true).unwrap();
    assert_eq!(plan.handle, 9);
    assert_eq!(plan.offset, 100);
    assert_eq!(plan.forwards.len(), 2);
    assert_eq!(plan.forwards[0].0, "http://s1:1");
    assert_eq!(plan.forwards[1].0, "http://s2:2");
    assert_eq!(plan.forwards[1].1.offset, 100);
    assert_eq!(plan.forwards[1].1.mutation_sequence, 1);
    assert!(!plan.forwards[1].1.is_pad);
    assert_eq!(plan.forwards[1].1.chunk, Some(ChunkHandle { id: 9 }));
    let err = plan_write(&req, false).unwrap_err();
    assert_eq!(err.code, RpcCode::NotFound);
    assert_eq!(err.message, "Buffered data not found for data_id");
}

#[test]
fn record_append_goes_at_the_end_or_pads() {
    let req = RecordAppendRequest { data_id: b"d".to_vec(), chunk: Some(ChunkHandle { id: 3 }), secondaries: vec![] };
    match plan_record_append(&req, Some(10), 500).unwrap() {
        AppendPlan::Write(plan) => {
            assert_eq!(plan.handle, 3);
            assert_eq!(plan.offset, 500);
            assert!(plan.forwards.is_empty());
        }
        AppendPlan::Padded(_) => panic!("record fits"),
    }
    match plan_record_append(&req, Some(10), MAX_CHUNK_SIZE - 5).unwrap() {
        AppendPlan::Padded(pad) => {
            assert_eq!(pad.response, RecordAppendResponse { success: false, offset: MAX_CHUNK_SIZE - 5, padded: true });
            assert_eq!(pad.handle, 3);
            assert_eq!(pad.offset, MAX_CHUNK_SIZE - 5);
            assert_eq!(pad.len, 5);
        }
        AppendPlan::Write(_) => panic!("record does not fit"),
    }
    assert_eq!(plan_record_append(&req, None, 0).unwrap_err().code, RpcCode::NotFound);
    assert_eq!(appended(500), RecordAppendResponse { success: true, offset: 500, padded: false });
}

#[test]
fn apply_plan_needs_handle_and_data() {
    let req = ApplyMutationRequest {
        data_id: vec![],
        chunk: Some(ChunkHandle { id: 2 }),
        offset: 8,
        mutation_sequence: 1,
        is_pad: false,
    };
    assert_eq!(plan_apply(&req, true), Ok(ApplyPlan::Write { handle: 2, offset: 8 }));
    assert_eq!(plan_apply(&req, false).unwrap_err().code, RpcCode::NotFound);
    let pad = ApplyMutationRequest { is_pad: true, offset: MAX_CHUNK_SIZE - 100, ..req.clone() };
    assert_eq!(plan_apply(&pad, false), Ok(ApplyPlan::Pad { handle: 2, offset: MAX_CHUNK_SIZE - 100, len: 100 }));
    let no_handle = ApplyMutationRequest { chunk: None, ..req };
    assert_eq!(plan_apply(&no_handle, true).unwrap_err().code, RpcCode::InvalidArgument);
}

#[test]
fn read_frames_carry_crc_and_offset() {
    let data = vec![1u8; FRAME_SIZE + 3];
    let frames = read_frames(&data, 40);
    assert_eq!(frames.len(), 2);
    assert_eq!(frames[0].offset, 40);
    assert_eq!(frames[1].offset, 40 + FRAME_SIZE as u64);
    assert_eq!(frames[1].payload, vec![1u8; 3]);
    assert_eq!(frames[1].crc32, compute_block_crc32(&[1, 1, 1]));
}

#[test]
fn clone_stream_round_trip() {
    let data: Vec<u8> = (0..(FRAME_SIZE + 100)).map(|i| (i % 251) as u8).collect();
    let frames = build_clone_frames(12, 4, &data);
    assert_eq!(frames.len(), 2);
    assert_eq!(frames[0].full_chunk_crc32, compute_block_crc32(&data));
    assert!(!frames[0].is_last_frame);
    assert!(frames[1].is_last_frame);
    let mut rx = CloneReceiver::new();
    for f in frames {
        let last = rx.accept(f);
        if last {
            break;
        }
    }
    let (handle, version, bytes) = rx.finish().unwrap();
    assert_eq!(handle, 12);
    assert_eq!(version, 4);
    assert_eq!(bytes, data);
}

#[test]
fn empty_chunk_clones_as_one_frame() {
    let frames = build_clone_frames(5, 1, &[]);
    assert_eq!(frames.len(), 1);
    assert!(frames[0].is_last_frame);
    assert_eq!(frames[0].frame_crc32, 0);
    assert_eq!(frames[0].version, Some(ChunkVersion { value: 1 }));
}

#[test]
fn clone_without_handle_is_refused() {
    let rx = CloneReceiver::new();
    let err = rx.finish().unwrap_err();
    assert_eq!(err.code, RpcCode::InvalidArgument);
    assert_eq!(err.message, "Missing chunk handle in clone stream");
    let ok = cloned_response();
    assert!(ok.success);
    assert_eq!(ok.message, "Cloned successfully");
    assert_eq!(clone_target_url(&"10.0.0.2:7001".to_string()), "http://10.0.0.2:7001");
    assert_eq!(secondary_url(&secondary("h:1")), "http://h:1");
}

#[test]
fn store_size_and_read_span() {
    assert_eq!(written_size(10, 5, 3), 10);
    assert_eq!(written_size(10, 8, 5), 13);
    assert_eq!(written_size(500, 500, 10), 510);
    let size = written_size(100, 40, 25);
    assert_eq!(read_span(size, 40, 25), Ok(25));
    let size = written_size(10, 40, 25);
    assert_eq!(size, 65);
    assert_eq!(read_span(size, 40, 25), Ok(25));
    assert_eq!(read_span(100, 90, 50), Ok(10));
    assert_eq!(read_span(100, 0, 50), Ok(50));
    assert_eq!(read_span(100, 100, 5), Ok(0));
    assert_eq!(read_span(100, 101, 5), Err(StoreError::InvalidOffset { offset: 101, size: 100 }));
}

#[test]
fn chunk_metadata_for_contents() {
    let data = vec![3u8; DEFAULT_BLOCK_SIZE + 1];
    let meta = meta_for_contents(2, &data, 77);
    assert_eq!(meta.version, 2);
    assert_eq!(meta.size as usize, data.len());
    assert_eq!(meta.block_size as usize, DEFAULT_BLOCK_SIZE);
    assert_eq!(meta.block_crc32, compute_all_blocks_crc32(&data, DEFAULT_BLOCK_SIZE));
    assert_eq!(meta.block_crc32.len(), 2);
    assert_eq!(meta.created_at, 77);
    assert_eq!(meta.last_scrubbed, 77);
}

#[test]
fn chunk_file_layout() {
    assert_eq!(chunk_dir_parts(513), ("1".to_string(), "513".to_string()));
    assert_eq!(data_file_name(513), "chunk_513.bin");
    assert_eq!(meta_file_name(0), "chunk_0.meta");
}

#[test]
fn heartbeat_reports_each_chunk() {
    let meta = |version: u64, crcs: Vec<u32>| ChunkMeta {
        version,
        size: 0,
        block_size: 65536,
        block_crc32: crcs,
        created_at: 0,
        last_scrubbed: 0,
    };
    let chunks = vec![(3u64, meta(2, vec![0xAB, 0xCD])), (4u64, meta(1, vec![]))];
    let req = heartbeat_request("node-1".to_string(), "10.0.0.1:50052".to_string(), &chunks, &vec![4]);
    assert_eq!(req.node.unwrap().value, "node-1");
    assert_eq!(req.grpc_addr, "10.0.0.1:50052");
    assert_eq!(req.free_bytes, REPORTED_FREE_BYTES);
    assert_eq!(req.free_bytes, 100 * 1024 * 1024 * 1024);
    assert_eq!(req.used_bytes, REPORTED_USED_BYTES);
    assert_eq!(req.used_bytes, 10 * 1024 * 1024);
    assert_eq!(
        req.chunks,
        vec![
            ChunkReport { handle: Some(ChunkHandle { id: 3 }), version: Some(ChunkVersion { value: 2 }), crc32: 0xAB, corrupted: false },
            ChunkReport { handle: Some(ChunkHandle { id: 4 }), version: Some(ChunkVersion { value: 1 }), crc32: 0, corrupted: true },
        ]
    );
    assert!(isolation_fails(7, 7));
    assert!(!isolation_fails(7, 8));
    assert!(isolation_failure_is_fatal("/mnt/gfs-storage"));
    assert!(!isolation_failure_is_fatal("/tmp/store"));
}

#[test]
fn chunk_metadata_now() {
    let meta = gfs::store::meta_for_contents_now(4, b"abc");
    assert_eq!(meta.version, 4);
    assert_eq!(meta.size, 3);
    assert_eq!(meta.block_crc32, vec![compute_block_crc32(b"abc")]);
    assert_eq!(meta.created_at, meta.last_scrubbed);
    assert!(meta.created_at > 0);
}

#[test]
fn corrupted_clone_streams_are_refused() {
    let data: Vec<u8> = (0..100u8).collect();
    let mut frames = build_clone_frames(7, 2, &data);
    frames[0].payload[3] ^= 1;
    let mut rx = CloneReceiver::new();
    for f in frames {
        rx.accept(f);
    }
    let err = rx.finish().unwrap_err();
    assert_eq!(err.code, RpcCode::DataLoss);
    assert_eq!(err.message, "Clone frame CRC mismatch");

    let mut frames = build_clone_frames(7, 2, &data);
    frames[0].full_chunk_crc32 ^= 1;
    let mut rx = CloneReceiver::new();
    for f in frames {
        rx.accept(f);
    }
    let err = rx.finish().unwrap_err();
    assert_eq!(err.code, RpcCode::DataLoss);
    assert_eq!(err.message, "Clone full-chunk CRC mismatch");
}

#[test]
fn scrub_mismatches_mark_chunks_corrupted() {
    let mismatch = gfs::checksum::ChecksumError::ChecksumMismatch { chunk: 8, block_index: 0, expected: 1, computed: 2 };
    let scanned = vec![(3u64, vec![]), (8u64, vec![mismatch]), (9u64, vec![])];
    assert_eq!(gfs::node::corrupted_chunks(&scanned), vec![8]);
}

fn small_block_meta(data: &[u8], block_size: u32) -> ChunkMeta {
    ChunkMeta {
        version: 1,
        size: data.len() as u32,
        block_size,
        block_crc32: compute_all_blocks_crc32(data, block_size as usize),
        created_at: 0,
        last_scrubbed: 0,
    }
}

#[test]
fn reads_check_only_the_blocks_they_touch() {
    let data: Vec<u8> = (0..40u8).collect();
    let mut meta = small_block_meta(&data, 10);
    assert_eq!(gfs::scrubber::verified_read(9, &meta, &data, 12, 5), Ok(data[12..17].to_vec()));
    assert_eq!(gfs::scrubber::verified_read(9, &meta, &data, 35, 100), Ok(data[35..40].to_vec()));
    // Damage the stored CRC of block 3: reads that avoid it still succeed.
    meta.block_crc32[3] ^= 1;
    assert_eq!(gfs::scrubber::verified_read(9, &meta, &data, 0, 30), Ok(data[0..30].to_vec()));
    let err = gfs::scrubber::verified_read(9, &meta, &data, 25, 10).unwrap_err();
    let gfs::checksum::ChecksumError::ChecksumMismatch { chunk, block_index, expected, computed } = err.clone();
    assert_eq!((chunk, block_index), (9, 3));
    assert_eq!(computed, compute_block_crc32(&data[30..40]));
    assert_eq!(expected, computed ^ 1);
    let status = gfs::chunk_rpc::data_loss_status(&err);
    assert_eq!(status.code, RpcCode::DataLoss);
    assert_eq!(status.message, "Checksum mismatch for chunk 9 at block index 3");
    // Two damaged blocks: the first one is reported.
    meta.block_crc32[1] ^= 1;
    let first = gfs::scrubber::verified_read(9, &meta, &data, 5, 35).unwrap_err();
    let gfs::checksum::ChecksumError::ChecksumMismatch { block_index, .. } = first;
    assert_eq!(block_index, 1);
}
