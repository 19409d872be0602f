//! Verified core of the semantic-graph extractor: progress rendering, route
//! selection, relation mapping and LSIF discovery logic.

pub mod lsif;
pub mod progress;
pub mod routes;
pub mod summary;
pub mod config;
pub mod error;
pub(crate) mod text;
pub mod grouping;
pub mod paths;
pub mod model;
pub mod symbols;
pub mod targets;
pub mod fingerprint;
pub mod references;
pub mod calls;
pub mod providers;
pub mod origin;
pub mod batch;
pub mod lsif_discovery;
pub mod modes;
pub mod work_items;
pub mod cli;
pub mod symbol_mapper;
pub mod write_batch;
pub mod persist_steps;
