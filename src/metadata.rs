//! The provenance record of a run.
use vstd::prelude::*;

verus! {

/// Where an archive came from: the firmware's hash and path, and the
/// invocation of the run. Built once, then only read.
#[derive(Clone, Debug)]
pub struct Metadata {
    /// Lower-case hex SHA-1 digest of the firmware image; empty when it
    /// could not be read.
    pub input_hash: String,
    /// The firmware path, as given.
    pub file: String,
    /// The words of the invocation.
    pub fw2tar_command: Vec<String>,
}

impl Metadata {
    pub fn new(input_hash: String, file: String, fw2tar_command: Vec<String>) -> (r: Metadata)
        ensures
            r.input_hash == input_hash,
            r.file == file,
            r.fw2tar_command == fw2tar_command,
    {
        Metadata { input_hash, file, fw2tar_command }
    }
}

} // verus!
