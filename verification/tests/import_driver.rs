use vecembed::collections::SourceTable;
use vecembed::create::VectorDbDocument;
use vecembed::errors::ImportEmbeddingsError;
use vecembed::import::{
    import_page_query, page_selects_row, table_for_entity_name, ContentAssembler,
    DocumentBatcher, IMPORT_PAGE_SIZE, MAX_TEXT_CHUNK_SIZE,
};

#[test]
fn entity_names_dispatch_to_their_tables() {
    assert_eq!(table_for_entity_name("contents").unwrap(), SourceTable::Contents);
    assert_eq!(table_for_entity_name("uploaded_files").unwrap(), SourceTable::UploadedFiles);
    match table_for_entity_name("users") {
        Err(ImportEmbeddingsError::UnknownCombination(m)) => assert_eq!(m, "users"),
        _ => panic!("unknown entities are rejected"),
    }
}

#[test]
fn table_descriptors_name_their_columns() {
    let contents = SourceTable::Contents;
    assert_eq!(contents.table_name(), "contents");
    assert_eq!(contents.primary_key_column(), "id");
    assert_eq!(contents.text_column(), "body");
    assert_eq!(contents.user_id_column(), None);
    assert_eq!(contents.updated_at_column(), "updated_at");
    assert_eq!(contents.qdrant_sync_column(), "qdrant_sync_at");
    let uploads = SourceTable::UploadedFiles;
    assert_eq!(uploads.table_name(), "uploaded_files");
    assert_eq!(uploads.text_column(), "text");
    assert_eq!(uploads.user_id_column(), Some("user_id"));
}

#[test]
fn resume_point_excludes_earlier_rows() {
    // Rows 1..1000 all stale; the import resumes at 500.
    let query = import_page_query(SourceTable::Contents, Some(500));
    assert_eq!(query.page_size, IMPORT_PAGE_SIZE);
    assert!(query.only_stale);
    assert!(query.order_ascending_by_key);
    let mut selected: Vec<u64> = Vec::new();
    for pk in 1..=1000u64 {
        if page_selects_row(&query, pk, Some(10), Some(5)) {
            selected.push(pk);
        }
    }
    assert_eq!(selected.first(), Some(&500));
    assert_eq!(selected.last(), Some(&1000));
    assert_eq!(selected.len(), 501);
}

#[test]
fn only_stale_rows_are_selected() {
    let query = import_page_query(SourceTable::Contents, None);
    assert!(page_selects_row(&query, 1, None, None));
    assert!(page_selects_row(&query, 1, Some(10), None));
    assert!(page_selects_row(&query, 1, None, Some(10)));
    assert!(page_selects_row(&query, 1, Some(10), Some(5)));
    assert!(!page_selects_row(&query, 1, Some(10), Some(10)));
}

#[test]
fn assembler_concatenates_slices_until_a_short_one() {
    let mut assembler = ContentAssembler::new();
    assert_eq!(assembler.next_position(), 1);
    let full = "a".repeat(MAX_TEXT_CHUNK_SIZE);
    let done = assembler.push_slice(&full, 0, usize::MAX);
    assert!(!done, "a full slice means more text may follow");
    assert_eq!(assembler.next_position(), 1 + MAX_TEXT_CHUNK_SIZE as u64);
    let done = assembler.push_slice("tail", full.len(), usize::MAX);
    assert!(done, "a short slice ends the row's text");
    let content = assembler.finish();
    assert_eq!(content.len(), MAX_TEXT_CHUNK_SIZE + 4);
    assert!(content.ends_with("tail"));
}

#[test]
fn assembler_stops_at_the_memory_budget() {
    let mut assembler = ContentAssembler::new();
    let full = "b".repeat(MAX_TEXT_CHUNK_SIZE);
    let done = assembler.push_slice(&full, 0, MAX_TEXT_CHUNK_SIZE);
    assert!(done, "reaching the budget completes the content");
}

#[test]
fn batcher_flushes_at_the_memory_budget() {
    let mut batcher = DocumentBatcher::new();
    let small = VectorDbDocument {
        id: 1,
        table_name: "contents".to_string(),
        content: "123456".to_string(),
        user_id: None,
    };
    assert!(batcher.push_document(small.clone(), 10).is_none());
    let flushed = batcher.push_document(small.clone(), 10).expect("second push reaches 12 >= 10");
    assert_eq!(flushed.len(), 2);
    // After a flush the batcher starts over.
    assert!(batcher.push_document(small, 10).is_none());
    let rest = batcher.finish();
    assert_eq!(rest.len(), 1);
}
