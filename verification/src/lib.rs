//! Change detection for monorepos: which projects of a workspace does a diff affect?
//!
//! The library holds the rules (diffs, lockfiles, global inputs, the module graph, reports).
//! It reads no file and starts no process: callers hand it text and file listings.

pub mod captures;
pub mod collections;
pub mod document_laws;
pub mod error;
pub mod files;
pub mod git;
pub mod git_laws;
pub mod glob_match;
pub mod json;
pub mod json_text;
pub mod lockfile;
pub mod named_inputs;
pub mod path_laws;
pub mod paths;
pub mod profiler;
pub mod profiler_laws;
pub mod report;
pub mod semantic;
pub mod text;
pub mod text_laws;
pub mod types;
pub mod workspace;
pub mod yaml;
