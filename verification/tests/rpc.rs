use vecembed::create::VectorDbDocument;
use vecembed::errors::{EmbeddingError, QdrantClientError};
use vecembed::messaging::{embedding_error_status, StatusCode, VecEmbedService};

fn doc(id: i64) -> VectorDbDocument {
    VectorDbDocument {
        id,
        table_name: "contents".to_string(),
        content: "body".to_string(),
        user_id: None,
    }
}

#[test]
fn missing_document_is_an_invalid_argument() {
    let service = VecEmbedService;
    let err = service.store_embedding_documents(None).expect_err("no document provided");
    assert_eq!(err.code, StatusCode::InvalidArgument);
    assert_eq!(err.message, "No document provided.");
    let ok = service.store_embedding_documents(Some(doc(1))).expect("a document is accepted");
    assert_eq!(ok.len(), 1);
    assert_eq!(ok[0].id, 1);
}

#[test]
fn empty_batch_is_an_invalid_argument() {
    let service = VecEmbedService;
    let err = service.store_embeddings_documents(Vec::new()).expect_err("empty list rejected");
    assert_eq!(err.code, StatusCode::InvalidArgument);
    assert_eq!(err.message, "No documents provided.");
    let ok = service.store_embeddings_documents(vec![doc(1), doc(2)]).expect("batch accepted");
    assert_eq!(ok.len(), 2);
}

#[test]
fn every_error_kind_maps_to_an_internal_status() {
    let qdrant = EmbeddingError::QdrantClient(QdrantClientError::ClientError(
        "timeout".to_string(),
    ));
    let status = embedding_error_status(&qdrant);
    assert_eq!(status.code, StatusCode::Internal);
    assert_eq!(status.message, "Qdrant Client: Qdrant client error: timeout");

    let db = EmbeddingError::DbError("connection reset".to_string());
    assert_eq!(embedding_error_status(&db).message, "DB Error: connection reset");

    let openai = EmbeddingError::OpenAIError("bad gateway".to_string());
    assert_eq!(embedding_error_status(&openai).message, "vLLM Server Error: bad gateway");

    let tokenizer = EmbeddingError::TokenizerError("no vocab".to_string());
    assert_eq!(embedding_error_status(&tokenizer).message, "Tokenizer failed: `no vocab`");

    let join = EmbeddingError::TaskJoinError("cancelled".to_string());
    assert_eq!(embedding_error_status(&join).message, "Task Join: cancelled");
}
