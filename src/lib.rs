//! A log-collection pipeline: records, secret redaction, agent-side batching
//! and retry, per-application rate quotas, query translation and hot/cold
//! tiering of stored records.

pub mod agent;
pub mod ext;
pub mod ingest;
pub mod model;
pub mod query;
pub mod quota;
pub mod redact;
pub mod storage;
pub mod table;
pub mod text;
pub mod tiers;
