//! The command line of the administration tool, as plain values.
use vstd::prelude::*;

verus! {

/// The tool's arguments: the master's address and one command.
#[derive(Debug, Clone, PartialEq, Eq)]
pub struct Cli {
    pub master: String,
    pub command: Commands,
}

/// The tool's commands.
#[derive(Debug, Clone, PartialEq, Eq)]
pub enum Commands {
    /// Upload a local file.
    Put { local_path: String, remote_path: String },
    /// Download a file; a length of 0 reads to the end.
    Get { remote_path: String, local_path: String, offset: u64, length: u32 },
    /// List a directory.
    Ls { remote_path: String },
    /// Check that the master answers.
    Health,
    /// Remove a file.
    Rm { remote_path: String },
}

/// The master address used when none is given.
pub fn default_master_addr() -> (s: String)
    ensures
        s@ == "http://127.0.0.1:50051"@,
{
    "http://127.0.0.1:50051".to_owned()
}

/// The directory listed when none is given.
pub fn default_list_path() -> (s: String)
    ensures
        s@ == "/"@,
{
    "/".to_owned()
}

} // verus!
