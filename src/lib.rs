//! An exact, in-memory cosine-similarity index over integer embeddings,
//! together with the small pieces of configuration and build planning
//! that surround it.

pub mod order;
pub mod cosine;
pub mod ranking;
pub mod store;
pub mod laws;
pub mod http_client;
pub mod config;
pub mod wasm_pack;
