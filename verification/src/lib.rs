//! An in-memory content pipeline for a directory of markdown posts.
//!
//! Raw files are split into a frontmatter block and a markdown body,
//! decoded into typed metadata, rendered to markup, and collected into an
//! ordered snapshot that a concurrently readable store serves to callers.

pub mod date;
pub mod error;
pub mod frontmatter;
pub mod loader;
pub mod markdown;
pub mod post;
pub mod query;
pub mod sorting;
pub mod store;
pub mod tags;
pub mod text;
