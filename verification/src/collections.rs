//! The vector collection's name and the descriptors of the two source
//! tables that documents are drawn from.
use vstd::prelude::*;

verus! {

/// Name of the single vector collection that all points live in.
pub const COLLECTION_NAME: &'static str = "silatus_documents";

/// Identifier of the embedding model; recorded in every point's
/// payload and sent with every embedding request.
pub const MODEL_NAME: &'static str = "silatus/gte-Qwen2-7B-instruct-INT4";

/// Marker for the kinds of source rows that can be embedded.
pub trait EmbeddableMarker {

}

/// Descriptor of a source table that the import driver can page
/// through. The two known tables differ in their text column and in
/// whether their rows carry a user tag.
#[derive(Clone, Copy, Debug, PartialEq, Eq, Structural)]
pub enum SourceTable {
    Contents,
    UploadedFiles,
}

impl EmbeddableMarker for SourceTable {

}

impl SourceTable {
    /// The table's name as it appears in the database and in point
    /// payloads.
    pub fn table_name(&self) -> (r: &'static str)
        ensures
            *self == SourceTable::Contents ==> r@ == "contents"@,
            *self == SourceTable::UploadedFiles ==> r@ == "uploaded_files"@,
    {
        match self {
            SourceTable::Contents => "contents",
            SourceTable::UploadedFiles => "uploaded_files",
        }
    }

    /// The primary-key column, also the pagination order column.
    pub fn primary_key_column(&self) -> (r: &'static str)
        ensures
            r@ == "id"@,
    {
        "id"
    }

    /// The column holding the owner's user id, where the table has one.
    pub fn user_id_column(&self) -> (r: Option<&'static str>)
        ensures
            *self == SourceTable::Contents ==> r is None,
            *self == SourceTable::UploadedFiles ==> (r matches Some(c) && c@ == "user_id"@),
    {
        match self {
            SourceTable::Contents => None,
            SourceTable::UploadedFiles => Some("user_id"),
        }
    }

    /// The column holding the text to be embedded.
    pub fn text_column(&self) -> (r: &'static str)
        ensures
            *self == SourceTable::Contents ==> r@ == "body"@,
            *self == SourceTable::UploadedFiles ==> r@ == "text"@,
    {
        match self {
            SourceTable::Contents => "body",
            SourceTable::UploadedFiles => "text",
        }
    }

    /// The column recording the row's last modification.
    pub fn updated_at_column(&self) -> (r: &'static str)
        ensures
            r@ == "updated_at"@,
    {
        "updated_at"
    }

    /// The column recording when the row's vectors were last written.
    pub fn qdrant_sync_column(&self) -> (r: &'static str)
        ensures
            r@ == "qdrant_sync_at"@,
    {
        "qdrant_sync_at"
    }
}

} // verus!
