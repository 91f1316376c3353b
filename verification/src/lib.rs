//! Verified core of a GFS-style distributed file system: chunk checksums and
//! scrubbing, file-offset mapping, the master's metadata (namespace, chunk
//! table, node registry) and request handlers, the operation-log format,
//! chunk-server request planning and clone streams, the client's location
//! cache and data-path decisions, the FUSE mount's inode table, and leader
//! election state.

pub mod checksum;
pub mod offset_map;
pub mod dashmap_decl;
pub mod path;
pub mod clock;
pub mod proto;
pub mod namespace;
pub mod oplog;
pub mod chunk_table;
pub mod text;
pub mod master;
pub mod store;
pub mod scrubber;
pub mod framing;
pub mod chunk_rpc;
pub mod clone;
pub mod pipeline;
pub mod cache;
pub mod inode;
pub mod election;
pub mod client;
pub mod cli;
pub mod fuse;
pub mod node;
