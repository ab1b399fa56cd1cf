//! Client-side reconstruction of a replicated, multi-chain shared log.
pub mod blockers;
pub mod buffer_cache;
pub mod effects;
pub mod laws;
pub mod model;
pub mod packet_reader;
pub mod packets;
pub mod per_chain;
pub mod per_socket;
pub mod thread_log;
pub mod trivial_server;
