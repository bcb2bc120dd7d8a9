//! A weblog engine that keeps its posts and lists in plain files.
//!
//! This crate holds the logic of the blog: the configuration defaults, the
//! parser of the post and list files (a `---` delimited header of key/value
//! lines followed by a body), the markdown cache decisions and the data that
//! the templates are rendered from.
pub mod config;
pub mod error;
pub mod filerparser;
pub mod list;
pub mod markdowncache;
pub mod post;
pub mod render;
pub mod servicemappings;
pub mod template;
pub mod text;
