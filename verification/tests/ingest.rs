use tokenizers::Tokenizer;
use vecembed::collections::{COLLECTION_NAME, MODEL_NAME};
use vecembed::create::{
    build_point_payloads, collect_document_batches, collection_create_params,
    collection_field_indexes, documents_chunk_size, plan_ingest_groups, plan_process_chunks,
    resolve_create_collection_error, should_retry_upsert, sync_update, take_group,
    after_retry_upsert, FieldIndexType, VectorDbDocument, MAX_CHUNK_TEXT_LENGTH,
    MAX_TEXT_CHUNK_BATCH_SIZE,
};
use vecembed::errors::QdrantClientError;

const TOKENIZER_JSON: &str = r#"{
  "version": "1.0",
  "truncation": null,
  "padding": null,
  "added_tokens": [],
  "normalizer": null,
  "pre_tokenizer": { "type": "Whitespace" },
  "post_processor": null,
  "decoder": null,
  "model": {
    "type": "WordLevel",
    "vocab": { "[UNK]": 0 },
    "unk_token": "[UNK]"
  }
}"#;

fn doc(id: i64, content: &str) -> VectorDbDocument {
    VectorDbDocument {
        id,
        table_name: "contents".to_string(),
        content: content.to_string(),
        user_id: None,
    }
}

#[test]
fn group_size_is_the_ceiling_and_at_least_one() {
    assert_eq!(documents_chunk_size(0, 8), 1);
    assert_eq!(documents_chunk_size(7, 8), 1);
    assert_eq!(documents_chunk_size(16, 8), 2);
    assert_eq!(documents_chunk_size(17, 8), 3);
}

#[test]
fn take_group_drains_in_order() {
    let mut docs = vec![doc(1, "a"), doc(2, "b"), doc(3, "c")];
    let group = take_group(&mut docs, 2);
    assert_eq!(group.len(), 2);
    assert_eq!(group[0].id, 1);
    assert_eq!(group[1].id, 2);
    assert_eq!(docs.len(), 1);
    assert_eq!(docs[0].id, 3);
}

#[test]
fn groups_cover_all_documents_with_their_ids() {
    let docs = vec![doc(1, "a"), doc(2, "b"), doc(3, "c"), doc(4, "d"), doc(5, "e")];
    let groups = plan_ingest_groups(docs, 2);
    let mut seen: Vec<i64> = Vec::new();
    for group in &groups {
        assert!(!group.documents.is_empty());
        let ids: Vec<i64> = group.documents.iter().map(|d| d.id).collect();
        assert_eq!(group.document_ids, ids);
        seen.extend(ids);
    }
    assert_eq!(seen, vec![1, 2, 3, 4, 5]);
    // Group size is the ceiling of 5 / 2: full groups of three, then
    // the remainder.
    let sizes: Vec<usize> = groups.iter().map(|g| g.documents.len()).collect();
    assert_eq!(sizes, vec![3, 2]);
}

#[test]
fn process_chunks_plan_batches_and_payloads() {
    let text = "alpha beta gamma";
    let chunks = vec![(&text[0..5], 0usize, 5usize), ("", 5, 5), (&text[6..10], 6, 10)];
    let plan = plan_process_chunks(9, "contents", Some(4), chunks, 1);
    // The empty chunk is dropped; batch size one gives one batch per chunk.
    assert_eq!(plan.embed_batches.len(), 2);
    assert_eq!(plan.embed_batches[0].len(), 1);
    assert_eq!(plan.embed_batches[0][0].0, "alpha");
    assert_eq!(plan.payloads.len(), 2);
    assert_eq!(plan.payloads[0].document_id, 9);
    assert_eq!(plan.payloads[0].table_name, "contents");
    assert_eq!(plan.payloads[0].start, 0);
    assert_eq!(plan.payloads[0].end, 5);
    assert_eq!(plan.payloads[0].model, MODEL_NAME);
    assert_eq!(plan.payloads[0].user_id, Some(4));
    assert_eq!(plan.payloads[1].start, 6);
    assert_eq!(plan.payloads[1].end, 10);
}

#[test]
fn payloads_carry_the_model_name() {
    let ranges = vec![(0u64, 13u64)];
    let payloads = build_point_payloads(1, "contents", None, &ranges);
    assert_eq!(payloads.len(), 1);
    assert_eq!(payloads[0].document_id, 1);
    assert_eq!(payloads[0].table_name, "contents");
    assert_eq!(payloads[0].start, 0);
    assert_eq!(payloads[0].end, 13);
    assert_eq!(payloads[0].model, "silatus/gte-Qwen2-7B-instruct-INT4");
    assert_eq!(payloads[0].user_id, None);
}

#[test]
fn reingesting_unchanged_ranges_plans_identical_payloads() {
    let ranges = vec![(0u64, 5u64), (6, 10), (11, 25)];
    let first = build_point_payloads(3, "contents", Some(8), &ranges);
    let second = build_point_payloads(3, "contents", Some(8), &ranges);
    assert_eq!(first.len(), second.len());
    for (a, b) in first.iter().zip(second.iter()) {
        assert_eq!(a.document_id, b.document_id);
        assert_eq!(a.table_name, b.table_name);
        assert_eq!((a.start, a.end), (b.start, b.end));
        assert_eq!(a.model, b.model);
        assert_eq!(a.user_id, b.user_id);
    }
}

#[test]
fn collection_parameters_match_the_design() {
    let config = collection_create_params(1024);
    assert_eq!(config.collection_name, COLLECTION_NAME);
    assert_eq!(config.collection_name, "silatus_documents");
    assert_eq!(config.vector_size, 1024);
    assert!(config.cosine_distance);
    assert!(config.on_disk);
    assert_eq!(config.memmap_threshold, 500_000);
    assert_eq!(config.indexing_threshold, 500_000);
    let indexes = collection_field_indexes();
    assert_eq!(indexes.len(), 3);
    assert_eq!(indexes[0], ("document_id", FieldIndexType::Integer));
    assert_eq!(indexes[1], ("user_id", FieldIndexType::Integer));
    assert_eq!(indexes[2], ("table_name", FieldIndexType::Keyword));
}

#[test]
fn racing_collection_creation_is_not_an_error() {
    assert!(resolve_create_collection_error(
        "some wrapped status: collection `silatus_documents` already exists".to_string()
    )
    .is_ok());
    let err = resolve_create_collection_error("deadline exceeded".to_string());
    match err {
        Err(QdrantClientError::ClientError(m)) => assert_eq!(m, "deadline exceeded"),
        _ => panic!("other failures must propagate"),
    }
}

#[test]
fn only_not_found_triggers_the_upsert_retry() {
    assert!(should_retry_upsert("status: NotFound, message: ..."));
    assert!(!should_retry_upsert("status: Internal"));
    assert!(!should_retry_upsert(""));
    assert!(after_retry_upsert(None).is_ok());
    assert!(after_retry_upsert(Some("boom".to_string())).is_err());
}

#[test]
fn sync_update_uses_one_timestamp_for_both_columns() {
    let update = sync_update("contents", "2024-05-01 12:00:00", 7);
    assert_eq!(update.table_name, "contents");
    assert_eq!(update.id, 7);
    // A single literal serves updated_at and qdrant_sync_at alike.
    assert_eq!(update.timestamp, "2024-05-01 12:00:00");
}

#[test]
fn empty_content_plans_no_work() {
    let tok = Tokenizer::from_bytes(TOKENIZER_JSON.as_bytes()).expect("tokenizer should load");
    let steps =
        collect_document_batches("", &tok, 8192, MAX_CHUNK_TEXT_LENGTH).expect("no error");
    assert!(steps.is_empty(), "an empty document issues no embedding call");
}

#[test]
fn replacing_with_a_tiny_body_plans_one_point() {
    let tok = Tokenizer::from_bytes(TOKENIZER_JSON.as_bytes()).expect("tokenizer should load");
    let steps =
        collect_document_batches("x", &tok, 8192, MAX_CHUNK_TEXT_LENGTH).expect("no error");
    assert_eq!(steps.len(), 1);
    assert_eq!(steps[0].len(), 1);
    let plan = plan_process_chunks(2, "contents", None, steps.into_iter().next().unwrap(),
        MAX_TEXT_CHUNK_BATCH_SIZE);
    assert_eq!(plan.payloads.len(), 1);
    assert_eq!(plan.payloads[0].start, 0);
    assert_eq!(plan.payloads[0].end, 1);
}

#[test]
fn flush_steps_respect_the_byte_budget() {
    let tok = Tokenizer::from_bytes(TOKENIZER_JSON.as_bytes()).expect("tokenizer should load");
    let text = "aaaa bbbb cccc dddd eeee ffff gggg hhhh iiii jjjj \
                kkkk llll mmmm nnnn oooo pppp qqqq rrrr ssss tttt";
    let budget = 25usize;
    let steps = collect_document_batches(text, &tok, 2, budget).expect("no error");
    assert!(steps.len() > 1);
    let mut previous_end: Option<usize> = None;
    for step in &steps {
        assert!(!step.is_empty());
        let total: usize = step.iter().map(|(s, _, _)| s.len()).sum();
        if step.len() >= 2 {
            assert!(total <= budget, "a multi-chunk step stays within the budget");
        }
        for (slice, start, end) in step {
            assert_eq!(*slice, &text[*start..*end]);
            // The steps' chunks are the stream in order, once each:
            // every chunk starts right after the previously elided
            // character.
            if let Some(prev) = previous_end {
                assert_eq!(*start, prev + 1);
            } else {
                assert_eq!(*start, 0);
            }
            previous_end = Some(*end);
        }
    }
    // The stream was drained: the last chunk reaches the text's end.
    assert!(previous_end.unwrap() >= text.len() - 1);
}
