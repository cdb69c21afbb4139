//! A verified core for a package installer for the Rime input method.
//!
//! The library parses target strings into package specifications, interprets
//! recipe documents, plans which files a package install copies, and applies
//! idempotent comment-delimited text patches to configuration files.
//! Everything that touches the filesystem, the network or the terminal lives
//! outside this crate; the functions here compute on plain values and carry
//! contracts that pin their results down.

pub mod builtins;
pub mod fetcher;
pub mod glob;
pub mod grammar;
pub mod installer;
pub mod optmap;
pub mod options;
pub mod package;
pub mod patch;
pub mod sync;
pub mod target;
pub mod text;
pub mod yaml;
