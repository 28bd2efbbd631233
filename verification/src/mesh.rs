//! The mesh-instruction stream and its post-processor.

pub mod post_processing;
pub mod types;
