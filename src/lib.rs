//! Semantic search over a note collection: batched embedding generation,
//! the embedding store format, similarity ranking and token-cost estimation.
pub mod batch;
pub mod client;
pub mod cost;
pub mod embedding;
pub mod error;
pub mod generate;
pub mod rank;
pub mod store;
pub mod table;
