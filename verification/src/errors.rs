//! Error kinds surfaced by the embedding pipeline.
use vstd::prelude::*;

verus! {

/// Failure reported by the vector-store client, carrying the client's
/// own description of what went wrong.
#[derive(Debug)]
pub enum QdrantClientError {
    ClientError(String),
}

impl QdrantClientError {
    /// The human-readable description of this error.
    pub fn message(&self) -> (r: String)
        ensures
            r@ == "Qdrant client error: "@ + self->ClientError_0@,
    {
        let QdrantClientError::ClientError(m) = self;
        String::from_str("Qdrant client error: ").concat(m.as_str())
    }
}

/// The error kinds of the ingest and retrieval pipeline. Each variant
/// carries the collaborator's description of the failure.
#[derive(Debug)]
pub enum EmbeddingError {
    QdrantClient(QdrantClientError),
    DbError(String),
    OpenAIError(String),
    TokenizerError(String),
    TaskJoinError(String),
}

/// What the description of an [`EmbeddingError`] reads, variant by
/// variant: the wrapped descriptions pass through unchanged, while a
/// tokenizer failure is framed in backquotes.
pub open spec fn embedding_error_message(e: EmbeddingError) -> Seq<char> {
    match e {
        EmbeddingError::QdrantClient(q) => "Qdrant client error: "@ + q->ClientError_0@,
        EmbeddingError::DbError(m) => m@,
        EmbeddingError::OpenAIError(m) => m@,
        EmbeddingError::TokenizerError(m) => "Tokenizer failed: `"@ + m@ + "`"@,
        EmbeddingError::TaskJoinError(m) => m@,
    }
}

impl EmbeddingError {
    /// The human-readable description of this error.
    pub fn message(&self) -> (r: String)
        ensures
            r@ == embedding_error_message(*self),
    {
        match self {
            EmbeddingError::QdrantClient(q) => q.message(),
            EmbeddingError::DbError(m) => m.clone(),
            EmbeddingError::OpenAIError(m) => m.clone(),
            EmbeddingError::TokenizerError(m) => String::from_str("Tokenizer failed: `").concat(
                m.as_str(),
            ).concat("`"),
            EmbeddingError::TaskJoinError(m) => m.clone(),
        }
    }
}

/// The errors of the import driver.
#[derive(Debug)]
pub enum ImportEmbeddingsError {
    DbError(String),
    EmbeddingError(EmbeddingError),
    UnknownCombination(String),
}

} // verus!
