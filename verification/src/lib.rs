//! A retrieval engine: text chunking, a document/embedding data model,
//! an in-memory vector store with exact cosine-similarity search, and the
//! orchestration that ties chunking, embedding, storage and retrieval together.
//!
//! Embeddings are fixed-point vectors: each component is an `i16` scaled by
//! a caller-chosen factor, so similarity scores are exact integer ratios.

pub mod ai_client;
pub mod backend;
pub mod decimal;
pub mod defaults;
pub mod embedder;
pub mod errors;
pub mod indexer;
pub mod manager;
pub mod mistral;
pub mod store;
pub mod strutil;
pub mod types;
pub mod vecmath;
pub mod web;
