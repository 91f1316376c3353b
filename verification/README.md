# gfs

A GFS-style distributed file system whose core is verified with Verus.

- `src/` is the verified library: chunk checksums and scrubbing, file-offset
  mapping, the master's namespace, chunk table, node registry and request
  handlers, the operation-log format, the chunk servers' request planning,
  the data-path framing, the client's location cache and decisions, the FUSE
  mount's inode table, and leader election state. Each public function states
  its result in its contract; the `lemma_*` proof functions state the laws
  that relate several operations.
- `tests/` runs the library on concrete values.
- `app/` holds what does I/O around the library: chunk and log files, the
  background loops, the command-line types, the FUSE adapter, and the client's
  calls to the cluster through transport traits.

The transports themselves are traits in `app/` (`MasterRpc`, `ChunkDataRpc`,
`CloneRpc`, `LeaseClient`): the gRPC stubs are generated from `.proto` files
that are not part of this tree, so no gRPC server or Kubernetes client is
built here.
