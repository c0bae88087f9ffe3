//! Aggregation of per-owner usage events out of access-log URLs.
//!
//! Each log line is a URL whose query string carries single-character
//! parameters: the owner id under `o` (required), a video-play signal under
//! `v` and an ad-impression signal under `i` (both optional).  The library
//! parses files line by line into per-owner counters, merges per-file results
//! with overflow-checked additions, and renders the final aggregate.  Reading
//! files and running workers is left to the surrounding program; everything
//! here is pure computation with proved contracts.

pub mod aggregate;
pub mod cli_args;
pub mod coordinator;
pub mod errors;
pub mod formatters;
pub mod log_parser;
pub mod owner_usage;
pub mod query_params;
pub mod query_string;
pub mod text;
