//! Request routing for a gateway in front of several local model backends:
//! prompt scoring, weighted round-robin backend selection, per-client rate
//! limiting, the per-request retry and failover decisions, and peer
//! heartbeat bookkeeping.

pub mod text;
pub mod keyed;
pub mod analyzer;
pub mod headers;
pub mod backend;
pub mod rate;
pub mod health;
pub mod routing;
pub mod cluster;
pub mod benchmark;
pub mod ollama;
