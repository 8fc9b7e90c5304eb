//! Verified core of a benchmarking pipeline: parameter-matrix expansion,
//! option merging and external-command synthesis, revision resolution,
//! build sequencing, and result-ingestion planning.

pub mod build_plan;
pub mod config;
pub mod ingest;
pub mod options;
pub mod parameters;
pub mod revision;
pub mod runner;
pub mod snapshot;
pub mod strutil;
pub mod synth;
