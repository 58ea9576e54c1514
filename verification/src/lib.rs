//! Catalog of extension modules scraped from source-control repositories:
//! an entity store, the reconciler that brings it in line with a fresh scrape,
//! the transitive dependency resolver, the release comparator and the
//! dependency graph.

pub mod collector;
pub mod models;
pub mod names;
pub mod pattern;
pub mod server;
pub mod text;
pub mod version;
