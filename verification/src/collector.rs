//! What the collector does with a scrape: read its own settings, take each
//! scraped module into the catalog, and purge what a scan no longer found.

pub mod analyzer;
pub mod clients;
pub mod config;
pub mod gitclient;
pub mod pypi;
pub mod reconciler;
pub mod scan;
