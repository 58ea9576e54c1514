//! The tables of the catalog, one module each.

pub mod audit;
pub mod author;
pub mod committer;
pub mod dependency;
pub mod dependency_module;
pub mod dependency_osv;
pub mod dependency_type;
pub mod gh_organization;
pub mod gh_repository;
pub mod maintainer;
pub mod module;
pub mod module_author;
pub mod module_committer;
pub mod module_maintainer;
pub mod pull_request;
pub mod ranking;
pub mod search;
pub mod store;
pub mod system_event;
pub mod system_event_type;
