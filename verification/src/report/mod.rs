//! The report of a run as a page of HTML.

pub mod banner;
pub mod details;
pub mod escape;
pub mod graph;
pub mod laws;
pub mod metadata;
pub mod page;
pub mod page_laws;
pub mod safety;
pub mod template;
pub mod times;

pub use graph::generate_cytoscape_data;
pub use page::{generate_html, generate_html_at};
pub use template::VERSION;
pub use times::format_relative_time;
