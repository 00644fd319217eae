//! A verified core for a media-file relocation watcher.
//!
//! The library watches a directory tree (through a notification facility
//! driven by the surrounding application) and decides which newly created or
//! moved-in files must be relocated into a mirrored destination tree. All
//! bookkeeping and decision logic lives here, verified; the surrounding
//! application performs the actual filesystem and notification calls.

pub mod directory;
pub mod monitor;
pub mod policy;
pub mod table;
