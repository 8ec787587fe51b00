//! A verified watch-lifecycle manager and event pipeline for a local
//! media-folder watching service.
//!
//! The crate tracks named watches over directory trees, turns debounced
//! file-system change signals into filtered, watch-tagged domain events,
//! and encodes/decodes the wire protocol that a client speaks.

pub mod filter;
pub mod protocol;
pub mod codec;
pub mod watcher;
pub mod server;
