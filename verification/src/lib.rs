//! Comparison of SVG files in a Git working tree with their versions at `HEAD`.

pub mod activity;
pub mod cli;
pub mod cli_laws;
pub mod component_laws;
pub mod encoding;
pub mod escape;
pub mod launch;
pub mod lifecycle;
pub mod load;
pub mod load_error;
pub mod load_laws;
pub mod os_path;
pub mod page;
pub mod page_laws;
pub mod path;
pub mod path_laws;
pub mod prefix_laws;
pub mod routes;
pub mod shutdown;
pub mod squash;
pub mod template;
pub mod text;
