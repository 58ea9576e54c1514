//! What the serving layer asks of the catalog: the dependency closure of a
//! module, the dependency graph of a bucket, and the counts and ranks of its
//! dashboard.

pub mod atlas;
pub mod cache;
pub mod common;
pub mod config;
pub mod dashboard;
pub mod doodba_tools;
pub mod module;
pub mod osv;
pub mod repository;
pub mod search;
