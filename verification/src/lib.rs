//! Statistics over Jaeger trace exports: call chains, their canonical keys,
//! aggregation across traces and runs, and the service-operation graph.

pub mod aggregate;
pub mod call;
pub mod call_chain;
pub mod cchain_cache;
pub mod cchain_stats;
pub mod cchain_text;
pub mod chain_key;
pub mod counted;
pub mod extract;
pub mod format;
pub mod ingest;
pub mod key_roundtrip;
pub mod keyed;
pub mod leaf_process;
pub mod lex;
pub mod merge_many;
pub mod mermaid;
pub mod metrics;
pub mod output;
pub mod raw_jaeger;
pub mod remap;
pub mod report;
pub mod span;
pub mod stats_rec;
pub mod stitch;
pub mod text;
pub mod trace;
pub mod validate;
