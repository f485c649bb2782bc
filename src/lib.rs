//! A caching reverse proxy for the Source engine server query protocol (A2S):
//! the packet codec, the challenge and response caches, and the decisions that
//! a client session and the upstream client make on each datagram.

pub mod challenge;
pub mod challenge_cache;
pub mod config;
pub mod header;
pub mod info;
pub mod player;
pub mod query_cache;
pub mod rules;
pub mod session;
pub mod timed_map;
pub mod upstream;
pub mod wire;

pub use config::{Config, ServerConfig};
pub use header::{QueryHeader, SourceChallenge, SOURCE_PACKET_HEADER, SOURCE_SIMPLE_PACKET_MAX_SIZE};
