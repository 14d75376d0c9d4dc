//! A verified catalog synchronizer for a local media-file cataloging tool.
//!
//! The library keeps a catalog of file entries, grouped into named
//! repositories, consistent with the filesystem: it decides how entries are
//! created when files appear under a watched folder, refreshed when files
//! change or vanish, purged when a folder is unwatched, and deduplicated when
//! several entries describe the same file path. All decision logic lives here
//! and is verified; the surrounding process (the filesystem watch itself, the
//! persistent store, tag extraction) supplies observations and carries out
//! the decided mutations.

pub mod assoc;
pub mod catalog;
pub mod dedup;
pub mod fingerprint;
pub mod ids;
pub mod model;
pub mod paths;
pub mod refresh;
pub mod registry;
pub mod timestamps;
