//! A verified project data store for RPG-Maker-style game projects.
//!
//! The store owns the decoded records of an open project: twelve nil-padded
//! record collections, the map metadata table, the system record, the script
//! bundle, and a lazily populated per-map cache.  Records are persisted as
//! individually encoded binary files through a pluggable file-system
//! collaborator; the binary record codec and the nil-padding convention are
//! defined and proved round-trip here.

pub mod codec;
pub mod records;
pub mod wire;
pub mod record_wire;
pub mod fs;
pub mod store;
pub mod laws;
pub mod tilepicker;
pub mod commands;
pub mod paths;
