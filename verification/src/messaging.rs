//! The RPC facade's verified pieces: validation of the store requests
//! and the mapping of pipeline errors onto response statuses.
use vstd::prelude::*;
use vstd::string::StringExecFns;

use crate::create::VectorDbDocument;
use crate::errors::EmbeddingError;

verus! {

/// The service handling the RPC surface; the transport plumbing around
/// it lives outside the library.
#[derive(Debug, Default)]
pub struct VecEmbedService;

/// The status classes the facade returns.
#[derive(Clone, Copy, Debug, PartialEq, Eq, Structural)]
pub enum StatusCode {
    Internal,
    InvalidArgument,
}

/// A response status: a class and a message.
#[derive(Debug)]
pub struct StatusModel {
    pub code: StatusCode,
    pub message: String,
}

/// The tag each error kind carries in front of its message.
pub open spec fn status_prefix(err: EmbeddingError) -> Seq<char> {
    match err {
        EmbeddingError::QdrantClient(_) => "Qdrant Client: "@,
        EmbeddingError::DbError(_) => "DB Error: "@,
        EmbeddingError::OpenAIError(_) => "vLLM Server Error: "@,
        EmbeddingError::TokenizerError(_) => ""@,
        EmbeddingError::TaskJoinError(_) => "Task Join: "@,
    }
}

/// Folds a pipeline error into a response status: always internal,
/// with the error kind's tag leading its description.
pub fn embedding_error_status(err: &EmbeddingError) -> (r: StatusModel)
    ensures
        r.code == StatusCode::Internal,
        r.message@ == status_prefix(*err) + crate::errors::embedding_error_message(*err),
{
    let prefix = match err {
        EmbeddingError::QdrantClient(_) => "Qdrant Client: ",
        EmbeddingError::DbError(_) => "DB Error: ",
        EmbeddingError::OpenAIError(_) => "vLLM Server Error: ",
        EmbeddingError::TokenizerError(_) => "",
        EmbeddingError::TaskJoinError(_) => "Task Join: ",
    };
    let message = String::from_str(prefix).concat(err.message().as_str());
    StatusModel { code: StatusCode::Internal, message }
}

impl VecEmbedService {
    /// Validates the single-document store request: the documents to
    /// ingest, or an invalid-argument status when none was provided.
    pub fn store_embedding_documents(&self, document: Option<VectorDbDocument>) -> (r: Result<
        Vec<VectorDbDocument>,
        StatusModel,
    >)
        ensures
            (document matches Some(d) ==> (r matches Ok(v) && v@.len() == 1 && v@[0] == d)),
            (document is None ==> (r matches Err(s) && s.code == StatusCode::InvalidArgument
                && s.message@ == "No document provided."@)),
    {
        match document {
            Some(d) => {
                let mut v: Vec<VectorDbDocument> = Vec::new();
                v.push(d);
                Ok(v)
            },
            None => Err(
                StatusModel {
                    code: StatusCode::InvalidArgument,
                    message: String::from_str("No document provided."),
                },
            ),
        }
    }

    /// Validates the batch store request: the documents to ingest, or
    /// an invalid-argument status when the list is empty.
    pub fn store_embeddings_documents(&self, documents: Vec<VectorDbDocument>) -> (r: Result<
        Vec<VectorDbDocument>,
        StatusModel,
    >)
        ensures
            (documents@.len() > 0 ==> (r matches Ok(v) && v@ == documents@)),
            (documents@.len() == 0 ==> (r matches Err(s) && s.code == StatusCode::InvalidArgument
                && s.message@ == "No documents provided."@)),
    {
        if documents.len() > 0 {
            Ok(documents)
        } else {
            Err(
                StatusModel {
                    code: StatusCode::InvalidArgument,
                    message: String::from_str("No documents provided."),
                },
            )
        }
    }
}

} // verus!
