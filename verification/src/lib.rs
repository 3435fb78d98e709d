//! Verified core of the hydrofoil lakehouse query engine and its lineage
//! service: configuration resolution, OpenLineage identity and metadata
//! handling, catalog classification, and the read-side lineage model.

pub mod agent;
pub mod config;
pub mod duration_text;
pub mod external_tables;
pub mod identity;
pub mod ingest;
pub mod lineage;
pub mod planner;
pub mod query;
pub mod query_stream;
pub mod server;
pub mod sessions;
pub mod sort;
pub mod strmap;
pub mod svc;
pub mod tags;
pub mod urls;
pub mod telemetry;
pub mod text;
