//! The lineage service: OpenLineage ingestion policy and the Marquez-compatible
//! read model reconstructed from the append-only event log.

pub mod columns;
pub mod config;
pub mod decode;
pub mod events;
pub mod facets;
pub mod fold;
pub mod ingest;
pub mod json;
pub mod laws;
pub mod model;
pub mod queries;
pub mod read;
pub mod runs;
pub mod time;
pub mod unity;
pub mod writer;
