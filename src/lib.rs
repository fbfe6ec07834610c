//! Filtering and ordering of a build tool's diagnostics: classification by
//! severity as messages stream in, the kill-timer state of the supervised build,
//! deduplication and ordering by source location, error/warning composition and
//! limiting, and the source locations handed to an editor.

pub mod classify;
pub mod diagnostic;
pub mod engine;
pub mod laws;
pub mod models;
pub mod neovim;
pub mod options;
pub mod order;
pub mod paths;
pub mod supervisor;
