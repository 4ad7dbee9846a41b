//! Lockfiles of npm, yarn, pnpm and bun: what changed between two of them, and which direct
//! dependencies of the workspace that affects.

pub mod affected;
pub mod base_laws;
pub mod bun;
pub mod data;
pub mod format_laws;
pub mod graph;
pub mod key_laws;
pub mod keys;
pub mod laws;
pub mod manager;
pub mod npm;
pub mod pnpm;
pub mod revision;
pub mod value_laws;
pub mod workspace_manifests;
pub mod yarn;
pub mod yarn_laws;

pub use affected::{find_affected_dependencies, match_affected_dependency, parse_lockfile};
pub use data::{LockfileData, PackageInfo};
pub use graph::{build_reverse_dep_graph, diff_lockfile_packages, resolve_to_direct_deps};
pub use manager::{
    detect_package_manager, has_lockfile_changed, is_dependency_manifest, lockfile_name,
    PackageManager,
};
