//! The module graph of a workspace: what files export and import, and who uses what.

pub mod analyzer;
pub mod assets;
pub mod collect;
pub mod config_laws;
pub mod edges;
pub mod graph_laws;
pub mod lookup;
pub mod module_laws;
pub mod modules;
pub mod package_exports;
pub mod package_laws;
pub mod position_laws;
pub mod positions;
pub mod queries;
pub mod query_laws;
pub mod question_laws;
pub mod questions;
pub mod reference_finder;
pub mod reference_laws;
pub mod resolver_laws;
pub mod source_laws;
pub mod symbols;
pub mod syntax;
pub mod tsconfig_load;
pub mod tsconfig_paths;
pub mod workspace_resolver;
