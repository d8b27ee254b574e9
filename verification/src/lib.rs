//! Weaver: the decisions of a crawler that looks for the logos of web sites.
//!
//! The library holds what the crawler knows and decides: how a progress log is
//! written and replayed, which links of a page are followed, which images may
//! be logos, when a domain is complete and when the crawl is over. Fetching,
//! files and threads belong to the program around it.

pub mod async_executor;
pub mod coordinator;
pub mod coordinator_laws;
pub mod coordinator_outcomes;
pub mod document;
pub mod error;
pub mod executor_laws;
pub mod export;
pub mod fetch;
pub mod heuristics;
pub mod log_entry;
pub mod messages;
pub mod progress;
pub mod recovery_laws;
pub mod string_map;
pub mod text;
pub mod url_utils;
pub mod worker;
