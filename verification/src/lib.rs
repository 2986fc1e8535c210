//! Finds stale developer artifacts (build outputs, package-manager and IDE
//! caches, old derived data) in a captured view of a file system, and plans
//! their removal.
pub mod aggregate;
pub mod classify;
pub mod cleanup;
pub mod discover;
pub mod laws;
pub mod model;
pub mod order;
pub mod partial;
pub mod path;
pub mod render;
pub mod reported;
pub mod retimed;
pub mod roots;
pub mod scan;
pub mod size;
pub mod text;
pub mod time;
pub mod walk;

pub use aggregate::{dedupe_candidates, scan_total_size, sort_candidates};
pub use cleanup::{
    cleanup, cleanup_with_callback, cleanup_with_cancel, CleanupProgress, CleanupResult, Removal,
};
pub use model::{Candidate, FsNode, NodeKind, NodeMeta, ScanConfig, Snapshot};
pub use path::is_excluded;
pub use roots::{default_roots, normalize_paths, PathProbe};
pub use scan::{scan, scan_with_callback, scan_with_cancel};
pub use time::format_system_time;
