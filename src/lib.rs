//! Extraction of firmware images into a canonical root filesystem archive:
//! the decisions of the pipeline, verified.
pub mod archive;
pub mod args;
pub mod config;
pub mod devices;
pub mod digest;
pub mod job;
pub mod metadata;
pub mod naming;
pub mod order;
pub mod rootfs;
pub mod selection;
pub mod text;

pub use config::Fw2tarError;
pub use job::ExtractProcessError;
pub use selection::{BestExtractor, ExtractionResult};
