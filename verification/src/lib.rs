//! Verified core of a clipboard history daemon: a bounded, deduplicated
//! history store, content classification for clipboard offers, image
//! identity hashing, display rendering, and the JSON IPC protocol that
//! serves the history to local clients.

use vstd::prelude::*;

pub mod classify;
pub mod entry;
pub mod hashing;
pub mod json;
pub mod manager;
pub mod protocol;
pub mod rofi;
pub mod server;
pub mod stamp;
pub mod storage;
pub mod text;

verus! {

/// History size configured as zero means the history is unbounded.
pub const UNLIMITED_SIZE: usize = 0;

} // verus!
