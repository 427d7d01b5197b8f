//! The error taxonomy of the retrieval engine.

use vstd::prelude::*;

verus! {

/// Failure of the embedding boundary.
#[derive(Clone, Copy, Debug, PartialEq, Eq, Structural)]
pub enum EmbedderError {
    /// The embedding service could not be reached.
    Unavailable,
    /// The service answered with zero vectors for a non-empty input.
    EmptyResult,
}

/// Failure of a vector-store backend.
#[derive(Clone, Copy, Debug, PartialEq, Eq, Structural)]
pub enum StoreError {
    /// The backend could not be constructed or reached.
    BackendUnavailable,
    /// A document's embedding length disagrees with the store's fixed
    /// dimensionality.
    DimensionMismatch,
    /// The backend cannot perform this contractual operation yet.
    UnsupportedOperation,
}

/// Failure while collecting files for indexing.
#[derive(Clone, Debug, PartialEq, Eq)]
pub enum IndexerError {
    /// The root of the walk could not be read; carries the offending path.
    Io(String),
}

/// Any failure of the retrieval engine, by origin.
#[derive(Clone, Debug, PartialEq, Eq)]
pub enum RagError {
    /// Invalid chunking parameters, rejected before any work is done.
    Config,
    /// The embedding boundary failed.
    Embedder(EmbedderError),
    /// File collection failed.
    Indexer(IndexerError),
    /// The vector store refused an operation.
    Store(StoreError),
    /// The embedding boundary failed while indexing the named file.
    FileEmbedding { path: String, error: EmbedderError },
    /// The store refused a document of the named file while indexing.
    FileStore { path: String, error: StoreError },
}

impl EmbedderError {
    /// A short description of the failure.
    pub fn message(&self) -> (r: &'static str)
        ensures
            *self is Unavailable ==> r@ == "embedding service unavailable"@,
            *self is EmptyResult ==> r@ == "no embeddings returned"@,
    {
        match self {
            EmbedderError::Unavailable => "embedding service unavailable",
            EmbedderError::EmptyResult => "no embeddings returned",
        }
    }
}

impl StoreError {
    /// A short description of the failure.
    pub fn message(&self) -> (r: &'static str)
        ensures
            *self is BackendUnavailable ==> r@ == "backend unavailable"@,
            *self is DimensionMismatch ==> r@ == "embedding dimensionality mismatch"@,
            *self is UnsupportedOperation ==> r@ == "operation not supported by this backend"@,
    {
        match self {
            StoreError::BackendUnavailable => "backend unavailable",
            StoreError::DimensionMismatch => "embedding dimensionality mismatch",
            StoreError::UnsupportedOperation => "operation not supported by this backend",
        }
    }
}

} // verus!
