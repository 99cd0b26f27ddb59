//! A verified client-side layer for an incremental, moving, multi-pool memory
//! manager: result codes, the reserve/commit allocation-point protocol, object
//! formats with their scan/skip/forward/pad methods, and a word-addressed arena
//! with pools that drives them.
pub mod alloc_point;
pub mod arena;
pub mod err;
pub mod format;
pub mod node_format;
pub mod pools;

pub use err::MpsError;
