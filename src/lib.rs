//! Selection of the files that belong to a backup job, and planning of the
//! invocations of the backup tool.
//!
//! Paths are handled as strings of characters, absolute and already resolved
//! by the caller; their relations (within, ancestor) are stated over `Seq<char>`.
pub mod paths;
pub mod pattern;
pub mod target;
pub mod selection;
pub mod restic;
pub mod outputs;
