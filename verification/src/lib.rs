//! Live Reload bookkeeping for a read-only Markdown viewer: which files are
//! tracked, how raw filesystem events on them turn into Reload / Detached /
//! Reattached notices, and the values handed to the frontend.
pub mod commands;
pub mod paths;
pub mod watch;
