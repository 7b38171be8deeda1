//! Process-lifecycle supervisor for a desktop application shell.
//!
//! The library prepares a writable copy of a bundled backend distribution
//! (the resource stager), resolves the platform-specific executable to run
//! (the target resolver), plans its launch (the process supervisor), and
//! classifies the outcome of the graceful-shutdown handshake (the shutdown
//! coordinator).  All decisions are made here over plain values; the thin
//! shell around the library performs the actual filesystem, process and
//! network operations.

pub mod data_path;
pub mod paths;
pub mod shutdown;
pub mod stager;
pub mod supervisor;
pub mod target;
