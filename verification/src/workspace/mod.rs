//! The projects of a workspace.

pub mod discovery;
pub mod laws;
pub mod turbo;
pub mod workspaces;

pub use discovery::discover_projects;
