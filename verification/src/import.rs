//! The import driver's verified decisions: which rows a page fetches,
//! how a row's text is assembled from fixed-size database slices under
//! the memory budget, and how finished documents are batched for the
//! ingest engine.
use vstd::prelude::*;
use vstd::string::StringExecFns;
use vstd::string::StringSliceAdditionalSpecFns;

use crate::collections::SourceTable;
use crate::create::VectorDbDocument;
use crate::errors::ImportEmbeddingsError;
use crate::text::str_eq;

verus! {

/// How many rows one page of the import fetches.
pub const IMPORT_PAGE_SIZE: u64 = 100;

/// Byte length of one text slice read from the database.
pub const MAX_TEXT_CHUNK_SIZE: usize = 1048576;

/// Default memory budget in bytes for resident text during an import.
pub const MEM_LIMIT: u64 = 8589934592;

/// Chooses the source table for an entity name; unknown names are
/// rejected.
pub fn table_for_entity_name(entity_name: &str) -> (r: Result<SourceTable, ImportEmbeddingsError>)
    ensures
        entity_name@ == "contents"@ ==> (r matches Ok(t) && t == SourceTable::Contents),
        entity_name@ == "uploaded_files"@ ==> (r matches Ok(t) && t == SourceTable::UploadedFiles),
        (entity_name@ != "contents"@ && entity_name@ != "uploaded_files"@) ==> (r matches Err(
            ImportEmbeddingsError::UnknownCombination(m),
        ) && m@ == entity_name@),
{
    proof {
        reveal_strlit("contents");
        reveal_strlit("uploaded_files");
        assert(("contents"@).len() != ("uploaded_files"@).len());
    }
    if str_eq(entity_name, "contents") {
        Ok(SourceTable::Contents)
    } else if str_eq(entity_name, "uploaded_files") {
        Ok(SourceTable::UploadedFiles)
    } else {
        Err(ImportEmbeddingsError::UnknownCombination(String::from_str(entity_name)))
    }
}

/// One page query of the import: rows of `table` in ascending key
/// order, only stale rows, resuming at `start_from` when given.
#[derive(Debug)]
pub struct PageQuery {
    pub table: SourceTable,
    pub page_size: u64,
    pub start_from: Option<u64>,
    pub only_stale: bool,
    pub order_ascending_by_key: bool,
}

/// A row is stale when its vectors are not known to be current: a
/// missing timestamp on either side, or a sync time that differs from
/// the update time.
pub open spec fn row_is_stale(updated_at: Option<i64>, sync_at: Option<i64>) -> bool {
    updated_at is None || sync_at is None || updated_at != sync_at
}

/// Which rows a page query selects.
pub open spec fn row_selected(
    q: PageQuery,
    pk: u64,
    updated_at: Option<i64>,
    sync_at: Option<i64>,
) -> bool {
    &&& row_is_stale(updated_at, sync_at)
    &&& (q.start_from matches Some(s) ==> pk >= s)
}

/// The page query of one import over `table`.
pub fn import_page_query(table: SourceTable, start_from: Option<u64>) -> (r: PageQuery)
    ensures
        r.table == table,
        r.page_size == IMPORT_PAGE_SIZE,
        r.start_from == start_from,
        r.only_stale,
        r.order_ascending_by_key,
{
    PageQuery {
        table,
        page_size: IMPORT_PAGE_SIZE,
        start_from,
        only_stale: true,
        order_ascending_by_key: true,
    }
}

/// Whether the page query selects a row, given its key and timestamps.
pub fn page_selects_row(
    q: &PageQuery,
    pk: u64,
    updated_at: Option<i64>,
    sync_at: Option<i64>,
) -> (r: bool)
    ensures
        r == row_selected(*q, pk, updated_at, sync_at),
{
    let stale = match (updated_at, sync_at) {
        (Some(u), Some(s)) => u != s,
        _ => true,
    };
    let in_range = match q.start_from {
        Some(s) => pk >= s,
        None => true,
    };
    stale && in_range
}

/// Pagination respects the resume point: a selected row's key is never
/// below `start_from`, so rows before it are left untouched.
pub proof fn lemma_start_from_respected(
    q: PageQuery,
    s: u64,
    pk: u64,
    updated_at: Option<i64>,
    sync_at: Option<i64>,
)
    requires
        q.start_from == Some(s),
        row_selected(q, pk, updated_at, sync_at),
    ensures
        pk >= s,
{
}

/// Assembles one row's text from the fixed-size slices the database
/// returns for successive positions.
pub struct ContentAssembler {
    content: String,
    next_pos: u64,
}

impl ContentAssembler {
    /// The characters assembled so far.
    pub closed spec fn text(self) -> Seq<char> {
        self.content@
    }

    /// The one-based database position the next slice is read from.
    pub closed spec fn pos(self) -> int {
        self.next_pos as int
    }

    /// A fresh assembler, positioned at the start of the column.
    pub fn new() -> (r: Self)
        ensures
            r.text() == Seq::<char>::empty(),
            r.pos() == 1,
    {
        ContentAssembler { content: String::new(), next_pos: 1 }
    }

    /// The position to read the next slice from.
    pub fn next_position(&self) -> (r: u64)
        ensures
            r as int == self.pos(),
    {
        self.next_pos
    }

    /// Appends one fetched slice and advances the read position by the
    /// slice length that was asked for. Returns true when the row's
    /// text is complete: the slice came back short (end of the column)
    /// or the accumulated text has reached the memory budget.
    pub fn push_slice(&mut self, slice: &str, accumulated_size: usize, mem_limit: usize) -> (done:
        bool)
        requires
            old(self).pos() + MAX_TEXT_CHUNK_SIZE <= u64::MAX,
        ensures
            final(self).text() == old(self).text() + slice@,
            final(self).pos() == old(self).pos() + MAX_TEXT_CHUNK_SIZE,
            done == (slice.spec_bytes().len() < MAX_TEXT_CHUNK_SIZE || accumulated_size
                + slice.spec_bytes().len() >= mem_limit),
    {
        let chunk_len = slice.as_bytes().len();
        self.content.append(slice);
        self.next_pos = self.next_pos + (MAX_TEXT_CHUNK_SIZE as u64);
        chunk_len < MAX_TEXT_CHUNK_SIZE || accumulated_size.saturating_add(chunk_len) >= mem_limit
    }

    /// The assembled text, consuming the assembler.
    pub fn finish(self) -> (r: String)
        ensures
            r@ == self.text(),
    {
        self.content
    }
}

/// Batches assembled documents for the ingest engine, flushing once
/// the accumulated content size reaches the memory budget.
pub struct DocumentBatcher {
    documents: Vec<VectorDbDocument>,
    accumulated_size: usize,
}

impl DocumentBatcher {
    /// The documents pending since the last flush.
    pub closed spec fn docs(self) -> Seq<VectorDbDocument> {
        self.documents@
    }

    /// The accumulated byte size of the pending documents' contents.
    pub closed spec fn size(self) -> int {
        self.accumulated_size as int
    }

    /// A fresh, empty batcher.
    pub fn new() -> (r: Self)
        ensures
            r.docs() == Seq::<VectorDbDocument>::empty(),
            r.size() == 0,
    {
        DocumentBatcher { documents: Vec::new(), accumulated_size: 0 }
    }

    /// Appends one document. When the accumulated content size reaches
    /// `mem_limit`, the pending documents are handed back for an
    /// ingest and the batcher starts over; sizes saturate rather than
    /// overflow.
    pub fn push_document(&mut self, document: VectorDbDocument, mem_limit: usize) -> (r: Option<
        Vec<VectorDbDocument>,
    >)
        ensures
            ({
                let grown = old(self).docs().push(document);
                let new_size = if old(self).size() + vstd::utf8::encode_utf8(document.content@).len()
                    <= usize::MAX {
                    old(self).size() + vstd::utf8::encode_utf8(document.content@).len()
                } else {
                    usize::MAX as int
                };
                if new_size >= mem_limit {
                    &&& (r matches Some(v) && v@ == grown)
                    &&& final(self).docs() == Seq::<VectorDbDocument>::empty()
                    &&& final(self).size() == 0
                } else {
                    &&& r is None
                    &&& final(self).docs() == grown
                    &&& final(self).size() == new_size
                }
            }),
    {
        let content_len = document.content.as_str().as_bytes().len();
        self.documents.push(document);
        self.accumulated_size = self.accumulated_size.saturating_add(content_len);
        if self.accumulated_size >= mem_limit {
            let mut full: Vec<VectorDbDocument> = Vec::new();
            core::mem::swap(&mut full, &mut self.documents);
            self.accumulated_size = 0;
            Some(full)
        } else {
            None
        }
    }

    /// The documents still pending at the end of a page, for the final
    /// flush.
    pub fn finish(self) -> (r: Vec<VectorDbDocument>)
        ensures
            r@ == self.docs(),
    {
        self.documents
    }
}

} // verus!
