//! The messages exchanged between clients, the master and chunk servers, and
//! their conversions to and from plain values.
use vstd::prelude::*;
use std::time::SystemTime;
use crate::clock::{millis_since_unix_epoch, system_time_from_unix_millis};

verus! {

/// A chunk's identifier.
#[derive(Debug, Clone, Copy, PartialEq, Eq, Default)]
pub struct ChunkHandle {
    pub id: u64,
}

/// A chunk's version number.
#[derive(Debug, Clone, Copy, PartialEq, Eq, Default)]
pub struct ChunkVersion {
    pub value: u64,
}

/// A chunk server's identifier.
#[derive(Debug, Clone, PartialEq, Eq, Default)]
pub struct NodeId {
    pub value: String,
}

/// A point in time, in milliseconds since the Unix epoch.
#[derive(Debug, Clone, Copy, PartialEq, Eq, Default)]
pub struct Timestamp {
    pub unix_millis: i64,
}

/// Where a replica of a chunk lives.
#[derive(Debug, Clone, PartialEq, Eq, Default)]
pub struct ChunkLocation {
    pub node: Option<NodeId>,
    pub grpc_addr: String,
}

/// What a chunk location stands for.
pub struct ChunkLocationView {
    pub node: Option<Seq<char>>,
    pub grpc_addr: Seq<char>,
}

impl View for ChunkLocation {
    type V = ChunkLocationView;

    open spec fn view(&self) -> ChunkLocationView {
        ChunkLocationView {
            node: match self.node {
                Some(n) => Some(n.value@),
                None => None,
            },
            grpc_addr: self.grpc_addr@,
        }
    }
}

/// The views of a sequence of locations.
pub open spec fn locations_view(s: Seq<ChunkLocation>) -> Seq<ChunkLocationView> {
    s.map_values(|l: ChunkLocation| l@)
}

/// Copies a location.
pub fn clone_location(l: &ChunkLocation) -> (r: ChunkLocation)
    ensures
        r@ == l@,
{
    ChunkLocation {
        node: match &l.node {
            Some(n) => Some(NodeId { value: n.value.clone() }),
            None => None,
        },
        grpc_addr: l.grpc_addr.clone(),
    }
}

/// Copies a list of locations.
pub fn clone_locations(v: &Vec<ChunkLocation>) -> (r: Vec<ChunkLocation>)
    ensures
        locations_view(r@) == locations_view(v@),
{
    let mut r: Vec<ChunkLocation> = Vec::new();
    let n = v.len();
    let mut i: usize = 0;
    while i < n
        invariant
            n == v@.len(),
            i <= n,
            r@.len() == i,
            forall|j: int| 0 <= j < i ==> r@[j]@ == v@[j]@,
        decreases n - i,
    {
        r.push(clone_location(&v[i]));
        i = i + 1;
    }
    proof {
        assert(locations_view(r@) =~= locations_view(v@));
    }
    r
}

// ----- master / chunk server messages -----

/// A chunk server's report of one chunk it stores.
#[derive(Debug, Clone, Copy, PartialEq, Eq, Default)]
pub struct ChunkReport {
    pub handle: Option<ChunkHandle>,
    pub version: Option<ChunkVersion>,
    pub crc32: u32,
    pub corrupted: bool,
}

/// A chunk server's periodic report to the master.
#[derive(Debug, Clone, Default)]
pub struct HeartbeatRequest {
    pub node: Option<NodeId>,
    pub grpc_addr: String,
    pub free_bytes: u64,
    pub used_bytes: u64,
    pub chunks: Vec<ChunkReport>,
}

/// The kinds of commands the master sends to chunk servers.
#[derive(Debug, Clone, Copy, PartialEq, Eq)]
pub enum CommandType {
    InvalidateChunk,
    CloneTo,
    DeleteChunk,
}

/// Instructs a chunk server to delete a chunk.
#[derive(Debug, Clone, Copy, PartialEq, Eq, Default)]
pub struct DeleteChunkCommand {
    pub handle: Option<ChunkHandle>,
}

/// Instructs a chunk server to copy a chunk it holds to another node.
#[derive(Debug, Clone, PartialEq, Eq, Default)]
pub struct CloneToCommand {
    pub handle: Option<ChunkHandle>,
    pub target: Option<ChunkLocation>,
}

/// The body of a master command.
#[derive(Debug, Clone, PartialEq, Eq)]
pub enum MasterCommandPayload {
    DeleteChunk(DeleteChunkCommand),
    CloneTo(CloneToCommand),
}

/// A command from the master to a chunk server.
#[derive(Debug, Clone, PartialEq, Eq)]
pub struct MasterCommand {
    pub command_type: CommandType,
    pub payload: Option<MasterCommandPayload>,
}

/// The master's answer to a heartbeat: commands for the chunk server.
#[derive(Debug, Clone, Default)]
pub struct HeartbeatResponse {
    pub commands: Vec<MasterCommand>,
}

/// A chunk server asks to become primary for a chunk.
#[derive(Debug, Clone, Default)]
pub struct LeaseRequest {
    pub node: Option<NodeId>,
    pub handle: Option<ChunkHandle>,
}

/// The master's answer to a lease request.
#[derive(Debug, Clone, Copy, PartialEq, Eq, Default)]
pub struct LeaseResponse {
    pub granted: bool,
    pub handle: Option<ChunkHandle>,
    pub version: Option<ChunkVersion>,
    pub lease_expiry_unix_millis: i64,
}

// ----- client / master messages -----

/// A request naming a path.
#[derive(Debug, Clone, Default)]
pub struct PathRequest {
    pub path: String,
}

/// A request to create a file.
#[derive(Debug, Clone, Default)]
pub struct CreateFileRequest {
    pub path: String,
}

/// The answer to a file creation.
#[derive(Debug, Clone, Copy, PartialEq, Eq, Default)]
pub struct CreateFileResponse {
    pub success: bool,
}

/// A request for a new chunk at the end of a file.
#[derive(Debug, Clone, Default)]
pub struct AllocateChunkRequest {
    pub path: String,
    pub chunk_index: u32,
}

/// Where a chunk's replicas are and who holds its lease.
#[derive(Debug, Clone, Default)]
pub struct ChunkLocationsResponse {
    pub locations: Vec<ChunkLocation>,
    pub primary: Option<ChunkLocation>,
    pub version: Option<ChunkVersion>,
    pub lease_expiry_unix_millis: i64,
    pub handle: Option<ChunkHandle>,
}

/// What a chunk-locations answer stands for.
pub struct ChunkLocationsResponseView {
    pub locations: Seq<ChunkLocationView>,
    pub primary: Option<ChunkLocationView>,
    pub version: Option<ChunkVersion>,
    pub lease_expiry_unix_millis: i64,
    pub handle: Option<ChunkHandle>,
}

impl View for ChunkLocationsResponse {
    type V = ChunkLocationsResponseView;

    open spec fn view(&self) -> ChunkLocationsResponseView {
        ChunkLocationsResponseView {
            locations: locations_view(self.locations@),
            primary: match self.primary {
                Some(p) => Some(p@),
                None => None,
            },
            version: self.version,
            lease_expiry_unix_millis: self.lease_expiry_unix_millis,
            handle: self.handle,
        }
    }
}

/// Copies a chunk-locations answer.
pub fn clone_locations_response(r: &ChunkLocationsResponse) -> (c: ChunkLocationsResponse)
    ensures
        c@ == r@,
{
    ChunkLocationsResponse {
        locations: clone_locations(&r.locations),
        primary: match &r.primary {
            Some(p) => Some(clone_location(p)),
            None => None,
        },
        version: r.version,
        lease_expiry_unix_millis: r.lease_expiry_unix_millis,
        handle: r.handle,
    }
}

/// The metadata of a file, as the master reports it.
#[derive(Debug, Clone, Default)]
pub struct FileInfo {
    pub path: String,
    pub size: u64,
    pub chunks: Vec<ChunkHandle>,
    pub mtime: Option<Timestamp>,
    pub ctime: Option<Timestamp>,
    pub is_directory: bool,
}

/// The entries of a directory.
#[derive(Debug, Clone, Default)]
pub struct ListDirectoryResponse {
    pub entries: Vec<FileInfo>,
}

/// An empty answer.
#[derive(Debug, Clone, Copy, PartialEq, Eq, Default)]
pub struct Empty {}

/// The status codes of failed requests.
#[derive(Debug, Clone, Copy, PartialEq, Eq)]
pub enum RpcCode {
    InvalidArgument,
    NotFound,
    AlreadyExists,
    ResourceExhausted,
    Internal,
    Unavailable,
    DataLoss,
}

/// A failed request: a status code and a message.
#[derive(Debug, Clone, PartialEq, Eq)]
pub struct RpcStatus {
    pub code: RpcCode,
    pub message: String,
}

// ----- chunk data messages -----

/// A frame of data pushed to a replica ahead of a mutation.
#[derive(Debug, Clone, Default)]
pub struct DataPacket {
    pub data_id: Vec<u8>,
    pub chunk: Option<ChunkHandle>,
    pub payload: Vec<u8>,
    pub crc32: u32,
    pub offset: u64,
}

/// A replica's acknowledgement of pushed data.
#[derive(Debug, Clone, Default)]
pub struct PushDataAck {
    pub data_id: Vec<u8>,
    pub success: bool,
    pub bytes_received: u32,
}

/// A write of pushed data at an offset of a chunk, sent to the primary.
#[derive(Debug, Clone, Default)]
pub struct WriteChunkRequest {
    pub data_id: Vec<u8>,
    pub chunk: Option<ChunkHandle>,
    pub offset: u64,
    pub secondaries: Vec<ChunkLocation>,
}

/// The primary's answer to a write.
#[derive(Debug, Clone, Copy, PartialEq, Eq, Default)]
pub struct WriteChunkResponse {
    pub success: bool,
    pub bytes_written: u32,
}

/// An append of pushed data at the end of a chunk, sent to the primary.
#[derive(Debug, Clone, Default)]
pub struct RecordAppendRequest {
    pub data_id: Vec<u8>,
    pub chunk: Option<ChunkHandle>,
    pub secondaries: Vec<ChunkLocation>,
}

/// The primary's answer to an append: where the record went, or that the
/// chunk is full.
#[derive(Debug, Clone, Copy, PartialEq, Eq, Default)]
pub struct RecordAppendResponse {
    pub success: bool,
    pub offset: u64,
    pub padded: bool,
}

/// A mutation the primary forwards to a secondary.
#[derive(Debug, Clone, Default)]
pub struct ApplyMutationRequest {
    pub data_id: Vec<u8>,
    pub chunk: Option<ChunkHandle>,
    pub offset: u64,
    pub mutation_sequence: u64,
    pub is_pad: bool,
}

/// A secondary's answer to a forwarded mutation.
#[derive(Debug, Clone, Copy, PartialEq, Eq, Default)]
pub struct ApplyMutationResponse {
    pub success: bool,
}

/// A ranged read of a chunk.
#[derive(Debug, Clone, Copy, PartialEq, Eq, Default)]
pub struct ReadRequest {
    pub chunk: Option<ChunkHandle>,
    pub offset: u64,
    pub length: u32,
}

/// One frame of a read's answer.
#[derive(Debug, Clone, Default)]
pub struct ReadChunkResponse {
    pub payload: Vec<u8>,
    pub crc32: u32,
    pub offset: u64,
}

/// One frame of a chunk streamed from one chunk server to another.
#[derive(Debug, Clone, Default)]
pub struct CloneChunkRequest {
    pub chunk: Option<ChunkHandle>,
    pub version: Option<ChunkVersion>,
    pub payload: Vec<u8>,
    pub meta: Vec<u8>,
    pub offset: u64,
    pub frame_crc32: u32,
    pub full_chunk_crc32: u32,
    pub is_last_frame: bool,
}

/// The receiving chunk server's answer to a clone.
#[derive(Debug, Clone, Default)]
pub struct CloneChunkResponse {
    pub success: bool,
    pub message: String,
}

impl From<u64> for ChunkHandle {
    fn from(id: u64) -> (r: Self) {
        ChunkHandle { id }
    }
}

impl vstd::std_specs::convert::FromSpecImpl<u64> for ChunkHandle {
    open spec fn obeys_from_spec() -> bool {
        true
    }

    open spec fn from_spec(id: u64) -> Self {
        ChunkHandle { id }
    }
}

impl From<ChunkHandle> for u64 {
    fn from(handle: ChunkHandle) -> (r: Self)
        ensures
            r == handle.id,
    {
        handle.id
    }
}

impl vstd::std_specs::convert::FromSpecImpl<ChunkHandle> for u64 {
    open spec fn obeys_from_spec() -> bool {
        true
    }

    open spec fn from_spec(handle: ChunkHandle) -> Self {
        handle.id
    }
}

impl From<u64> for ChunkVersion {
    fn from(value: u64) -> (r: Self) {
        ChunkVersion { value }
    }
}

impl vstd::std_specs::convert::FromSpecImpl<u64> for ChunkVersion {
    open spec fn obeys_from_spec() -> bool {
        true
    }

    open spec fn from_spec(value: u64) -> Self {
        ChunkVersion { value }
    }
}

impl From<ChunkVersion> for u64 {
    fn from(version: ChunkVersion) -> (r: Self)
        ensures
            r == version.value,
    {
        version.value
    }
}

impl vstd::std_specs::convert::FromSpecImpl<ChunkVersion> for u64 {
    open spec fn obeys_from_spec() -> bool {
        true
    }

    open spec fn from_spec(version: ChunkVersion) -> Self {
        version.value
    }
}

impl From<String> for NodeId {
    fn from(value: String) -> (r: Self) {
        NodeId { value }
    }
}

impl vstd::std_specs::convert::FromSpecImpl<String> for NodeId {
    open spec fn obeys_from_spec() -> bool {
        true
    }

    open spec fn from_spec(value: String) -> Self {
        NodeId { value }
    }
}

impl From<&str> for NodeId {
    fn from(value: &str) -> (r: Self)
        ensures
            r.value@ == value@,
    {
        NodeId { value: value.to_owned() }
    }
}

impl vstd::std_specs::convert::FromSpecImpl<&str> for NodeId {
    open spec fn obeys_from_spec() -> bool {
        false
    }

    open spec fn from_spec(value: &str) -> Self {
        NodeId { value: vstd::pervasive::arbitrary() }
    }
}

impl From<NodeId> for String {
    fn from(node_id: NodeId) -> (r: Self)
        ensures
            r == node_id.value,
    {
        node_id.value
    }
}

impl vstd::std_specs::convert::FromSpecImpl<NodeId> for String {
    open spec fn obeys_from_spec() -> bool {
        true
    }

    open spec fn from_spec(node_id: NodeId) -> Self {
        node_id.value
    }
}

/// The timestamp of a reading of milliseconds since the epoch: the count
/// truncated to 64 signed bits, or 0 for a time before the epoch.
pub open spec fn timestamp_of_millis(ms: Option<u128>) -> Timestamp {
    Timestamp {
        unix_millis: match ms {
            Some(m) => m as i64,
            None => 0,
        },
    }
}

/// Builds a timestamp from a reading of milliseconds since the epoch.
pub fn timestamp_from_epoch_millis(ms: Option<u128>) -> (t: Timestamp)
    ensures
        t == timestamp_of_millis(ms),
{
    match ms {
        Some(m) => Timestamp { unix_millis: m as i64 },
        None => Timestamp { unix_millis: 0 },
    }
}

/// The non-negative millisecond count a timestamp converts back to: negative
/// counts clamp to the epoch.
pub open spec fn timestamp_millis_after_epoch(ts: Timestamp) -> u64 {
    if ts.unix_millis >= 0 {
        ts.unix_millis as u64
    } else {
        0
    }
}

/// The millisecond count since the epoch that a timestamp stands for.
pub fn timestamp_to_epoch_millis(ts: Timestamp) -> (ms: u64)
    ensures
        ms == timestamp_millis_after_epoch(ts),
{
    if ts.unix_millis >= 0 {
        ts.unix_millis as u64
    } else {
        0
    }
}

impl From<SystemTime> for Timestamp {
    /// The time's milliseconds since the epoch; 0 before the epoch.
    fn from(st: SystemTime) -> (r: Self) {
        timestamp_from_epoch_millis(millis_since_unix_epoch(&st))
    }
}

impl vstd::std_specs::convert::FromSpecImpl<SystemTime> for Timestamp {
    open spec fn obeys_from_spec() -> bool {
        false
    }

    open spec fn from_spec(st: SystemTime) -> Self {
        vstd::pervasive::arbitrary()
    }
}

impl From<Timestamp> for SystemTime {
    /// The epoch plus the timestamp's milliseconds; the epoch for a negative count.
    fn from(ts: Timestamp) -> (r: Self) {
        system_time_from_unix_millis(timestamp_to_epoch_millis(ts))
    }
}

impl vstd::std_specs::convert::FromSpecImpl<Timestamp> for SystemTime {
    open spec fn obeys_from_spec() -> bool {
        false
    }

    open spec fn from_spec(ts: Timestamp) -> Self {
        vstd::pervasive::arbitrary()
    }
}

} // verus!
