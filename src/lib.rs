//! Reconstruction of a Git repository exposed through a web server.
//!
//! The library holds the decisions of the crawl: how the base URL is
//! derived, which paths each wave requests, how a pack index is decoded,
//! and which loose objects are finally downloaded.

pub mod text;
pub mod target;
pub mod fetch;
pub mod pack;
pub mod pattern;
pub mod refs;
pub mod objects;
pub mod listing;
pub mod crawl;
pub mod probe;
