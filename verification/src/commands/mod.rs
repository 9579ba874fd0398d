//! The decisions behind the desktop app's commands: configuration
//! responses and updates, segment merging, recording status, reports and
//! screenshot results.  The commands themselves (state, database, files,
//! network) live outside this crate and call into these functions.

pub mod config;
pub mod report;
pub mod analysis;
pub mod screenshot;
