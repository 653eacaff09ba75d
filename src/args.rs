//! The options of a run.
use vstd::prelude::*;

verus! {

/// The options of a run, as the command line gives them.
#[derive(Clone, Debug)]
pub struct Args {
    /// The firmware image to extract.
    pub firmware: String,
    /// Output directory for all artifacts; the current directory when absent.
    pub output: Option<String>,
    /// Extract into a temporary directory that is removed afterwards,
    /// instead of keeping the scratch tree in the output directory.
    pub no_scratch: bool,
    /// Copy out the identified rootfs directory.
    pub copy_rootfs: bool,
    /// Comma-separated list of engines; all known ones when absent.
    pub extractors: Option<String>,
    /// Verbose output of all extraction and processing steps.
    pub loud: bool,
    /// Write a file next to the output reporting the engine used.
    pub report_extractor: bool,
    /// Maximum number of root-like filesystems to archive per engine.
    pub primary_limit: usize,
    /// Maximum number of non-root-like filesystems to archive per engine.
    pub secondary_limit: usize,
    /// Overwrite an existing canonical archive and scratch tree.
    pub force: bool,
    /// Show help for the wrapper script.
    pub wrapper_help: bool,
    /// Write the list of device files left out of the archives.
    pub log_devices: bool,
    /// Timeout for each engine, in seconds.
    pub timeout: u64,
    /// Detailed progress output with stage information.
    pub progress: bool,
    /// Keep one log file per engine in the output directory.
    pub logs: bool,
}

/// Default maximum of root-like filesystems archived per engine.
pub const DEFAULT_PRIMARY_LIMIT: usize = 1;

/// Default engine timeout, in seconds.
pub const DEFAULT_TIMEOUT: u64 = 20;

impl Args {
    /// The options for extracting `firmware` with every default.
    pub fn new(firmware: String) -> (r: Args)
        ensures
            r.firmware == firmware,
            r.output is None,
            r.extractors is None,
            r.primary_limit == DEFAULT_PRIMARY_LIMIT,
            r.secondary_limit == 0,
            r.timeout == DEFAULT_TIMEOUT,
            !r.no_scratch && !r.copy_rootfs && !r.loud && !r.report_extractor && !r.force,
            !r.wrapper_help && !r.log_devices && !r.progress && !r.logs,
    {
        Args {
            firmware,
            output: None,
            no_scratch: false,
            copy_rootfs: false,
            extractors: None,
            loud: false,
            report_extractor: false,
            primary_limit: DEFAULT_PRIMARY_LIMIT,
            secondary_limit: 0,
            force: false,
            wrapper_help: false,
            log_devices: false,
            timeout: DEFAULT_TIMEOUT,
            progress: false,
            logs: false,
        }
    }
}

} // verus!
