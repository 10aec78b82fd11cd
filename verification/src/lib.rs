//! Duplicate and near-duplicate media finder: the verified core.
//!
//! The library holds the data model of a scanned fileset, the decisions a
//! scan makes per file, the grouping of exact and similar duplicates, the
//! parsing of `/proc/self/mountinfo`, and the small text utilities that the
//! command line, web and C front ends share.

pub mod text;
pub mod models;
pub mod drive;
pub mod store;
pub mod digests;
pub mod error;
pub mod kinds;
pub mod scan;
pub mod exact;
pub mod order;
pub mod hex;
pub mod paths;
pub mod words;
pub mod similar;
pub mod matches;
pub mod numbers;
pub mod cli;
pub mod jobs;
pub mod interface;
pub mod tools;
pub mod video;
pub mod browse;
