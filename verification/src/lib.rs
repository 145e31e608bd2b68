//! Verified core of an FTP-to-HTTP storage adapter.
//!
//! The adapter exposes a remote, inode-based storage service through a
//! file-transfer protocol.  This crate holds the logic with non-trivial
//! invariants: virtual-path normalization and validation, detection of the
//! timestamp path convention used by a synchronization client, translation
//! of protocol operations into plans of remote calls, mapping of remote
//! inodes into protocol metadata, and classification of remote failures.
//! The HTTP transport itself lives outside this crate and is driven through
//! the contracts stated here.

pub mod api;
pub mod auth;
pub mod backend;
pub mod cli;
pub mod errors;
pub mod metadata;
pub mod paths;
pub mod timestamp;

