//! Verified core of a media-fetching tool: a single-flight task guard,
//! collision-free output-path allocation, throughput/ETA estimation for
//! chunked downloads, extractor-output parsing into a normalized format
//! list, repair planning for missing external components, and the
//! decision logic of the subprocess download orchestrator.

pub mod decode;
pub mod fetch;
pub mod formats;
pub mod guard;
pub mod metadata;
pub mod orchestrator;
pub mod pathalloc;
pub mod repair;
pub mod text;
pub mod versions;
