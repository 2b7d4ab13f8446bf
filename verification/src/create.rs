//! The ingest engine's verified core: grouping a batch of documents,
//! the pre-delete that gives "replace, not append" semantics, batching
//! chunks for the embedding service, assembling point payloads, the
//! collection's configuration, and the retry decisions around upserts.
use vstd::prelude::*;
use vstd::string::StringExecFns;
use vstd::string::StringSliceAdditionalSpecFns;

use tokenizers::Tokenizer;

use crate::chunk_strings::covered_or_elided;
use crate::chunk_strings::next_cursor;
use crate::chunk_strings::StringChunkIterator;
use crate::collections::COLLECTION_NAME;
use crate::collections::MODEL_NAME;
use crate::errors::EmbeddingError;
use crate::errors::QdrantClientError;
use crate::text::spec_contains;
use crate::text::str_contains;
use crate::text::str_starts_with;
use vstd::multiset::Multiset;
use vstd::utf8::is_char_boundary;

verus! {

/// Cap on how many documents of one call may proceed concurrently.
pub const MAX_DOCUMENT_BATCH_SIZE: usize = 50;

/// Byte budget of the chunk text accumulated before a flush.
pub const MAX_CHUNK_TEXT_LENGTH: usize = 25000;

/// How many chunks one embedding request may carry.
pub const MAX_TEXT_CHUNK_BATCH_SIZE: usize = 64;

/// Token limit of a single chunk.
pub const MAX_CHUNK_TOKENS: usize = 8192;

/// The unit of ingest: a source row's text with its identity.
#[derive(Debug, Clone)]
pub struct VectorDbDocument {
    pub id: i64,
    pub table_name: String,
    pub content: String,
    pub user_id: Option<u64>,
}

/// The payload of one vector point, keyed by the owning document and
/// the chunk's byte range.
#[derive(Debug, Clone)]
pub struct PointPayload {
    pub document_id: i64,
    pub table_name: String,
    pub start: u64,
    pub end: u64,
    pub model: String,
    pub user_id: Option<u64>,
}

/// Size of the document groups of one ingest call: the ceiling of
/// `len / parallelism`, and at least one document per group.
pub open spec fn spec_documents_chunk_size(len: int, parallelism: int) -> int {
    if len == 0 {
        1
    } else {
        (len - 1) / parallelism + 1
    }
}

/// Size of the document groups that one ingest call processes
/// sequentially: the ceiling of `len / parallelism`, and at least one
/// document per group.
pub fn documents_chunk_size(len: usize, parallelism: usize) -> (r: usize)
    requires
        parallelism >= 1,
    ensures
        r == spec_documents_chunk_size(len as int, parallelism as int),
        len > 0 ==> r * parallelism >= len,
        r >= 1,
{
    if len == 0 {
        1
    } else {
        let r = (len - 1) / parallelism + 1;
        proof {
            let a = (len - 1) as int;
            let p = parallelism as int;
            vstd::arithmetic::div_mod::lemma_fundamental_div_mod(a, p);
            vstd::arithmetic::div_mod::lemma_mod_bound(a, p);
            let q = a / p;
            assert((q + 1) * p == q * p + p) by (nonlinear_arith);
            assert(p * q == q * p) by (nonlinear_arith);
        }
        r
    }
}

/// Removes and returns the first `min(group_size, len)` documents,
/// keeping order.
pub fn take_group(documents: &mut Vec<VectorDbDocument>, group_size: usize) -> (r: Vec<
    VectorDbDocument,
>)
    ensures
        r@.len() == if group_size as int <= old(documents)@.len() {
            group_size as int
        } else {
            old(documents)@.len() as int
        },
        r@ + final(documents)@ == old(documents)@,
{
    let k = if group_size <= documents.len() {
        group_size
    } else {
        documents.len()
    };
    let mut r: Vec<VectorDbDocument> = Vec::new();
    let mut i: usize = 0;
    while i < k
        invariant
            0 <= i <= k,
            k as int <= old(documents)@.len(),
            r@.len() == i,
            r@ + documents@ == old(documents)@,
        decreases k - i,
    {
        let d = documents.remove(0);
        r.push(d);
        proof {
            assert(r@ + documents@ =~= old(documents)@);
        }
        i = i + 1;
    }
    r
}

/// The ids of a sequence of documents, in order.
pub open spec fn ids_of(ds: Seq<VectorDbDocument>) -> Seq<i64> {
    ds.map_values(|d: VectorDbDocument| d.id)
}

/// The ids of a group of documents, in order: exactly what the
/// pre-delete filter matches before the group's points are written.
pub fn group_document_ids(documents: &Vec<VectorDbDocument>) -> (r: Vec<i64>)
    ensures
        r@ == ids_of(documents@),
{
    let mut r: Vec<i64> = Vec::new();
    let mut i: usize = 0;
    while i < documents.len()
        invariant
            0 <= i <= documents@.len(),
            r@ == ids_of(documents@.take(i as int)),
        decreases documents@.len() - i,
    {
        r.push(documents[i].id);
        proof {
            assert(ids_of(documents@.take(i + 1)) =~= ids_of(documents@.take(i as int)).push(
                documents@[i as int].id,
            ));
        }
        i = i + 1;
    }
    proof {
        assert(documents@.take(documents@.len() as int) =~= documents@);
    }
    r
}

/// One group of an ingest call: the documents processed together and
/// the ids the group's pre-delete covers.
pub struct IngestGroup {
    pub document_ids: Vec<i64>,
    pub documents: Vec<VectorDbDocument>,
}

/// The per-group document sequences of a grouping.
pub open spec fn group_docs_seqs(gs: Seq<IngestGroup>) -> Seq<Seq<VectorDbDocument>> {
    gs.map_values(|g: IngestGroup| g.documents@)
}

/// Partitions the documents of one ingest call into the groups that
/// are processed sequentially. Every group's id list covers exactly
/// its documents, so the pre-delete of a group happens before any of
/// its points are written and touches only ids the group rewrites.
pub fn plan_ingest_groups(documents: Vec<VectorDbDocument>, parallelism: usize) -> (r: Vec<
    IngestGroup,
>)
    requires
        parallelism >= 1,
    ensures
        group_docs_seqs(r@).flatten() == documents@,
        forall|j: int|
            0 <= j < r@.len() ==> (#[trigger] r@[j]).document_ids@ == ids_of(r@[j].documents@),
        forall|j: int|
            0 <= j < r@.len() ==> 1 <= (#[trigger] r@[j]).documents@.len()
                <= spec_documents_chunk_size(documents@.len() as int, parallelism as int),
        forall|j: int|
            0 <= j < r@.len() - 1 ==> (#[trigger] r@[j]).documents@.len()
                == spec_documents_chunk_size(documents@.len() as int, parallelism as int),
{
    let chunk_size = documents_chunk_size(documents.len(), parallelism);
    let mut docs = documents;
    let mut groups: Vec<IngestGroup> = Vec::new();
    proof {
        assert(group_docs_seqs(groups@) =~= Seq::<Seq<VectorDbDocument>>::empty());
        assert(Seq::<Seq<VectorDbDocument>>::empty().flatten() =~= Seq::<
            VectorDbDocument,
        >::empty());
        assert(group_docs_seqs(groups@).flatten() + docs@ =~= docs@);
    }
    while docs.len() > 0
        invariant
            chunk_size == spec_documents_chunk_size(documents@.len() as int, parallelism as int),
            chunk_size >= 1,
            group_docs_seqs(groups@).flatten() + docs@ == documents@,
            forall|j: int|
                0 <= j < groups@.len() ==> (#[trigger] groups@[j]).document_ids@ == ids_of(
                    groups@[j].documents@,
                ),
            forall|j: int|
                0 <= j < groups@.len() ==> 1 <= (#[trigger] groups@[j]).documents@.len()
                    <= chunk_size,
            forall|j: int|
                0 <= j < groups@.len() && docs@.len() > 0 ==> (
                #[trigger] groups@[j]).documents@.len() == chunk_size,
            forall|j: int|
                0 <= j < groups@.len() - 1 ==> (#[trigger] groups@[j]).documents@.len()
                    == chunk_size,
        decreases docs@.len(),
    {
        let ghost groups_before = groups@;
        let ghost docs_before = docs@;
        let ghost flat_before = group_docs_seqs(groups@).flatten();
        let group_docs = take_group(&mut docs, chunk_size);
        let ids = group_document_ids(&group_docs);
        let ghost gd = group_docs@;
        groups.push(IngestGroup { document_ids: ids, documents: group_docs });
        proof {
            assert(group_docs_seqs(groups@) =~~= group_docs_seqs(groups_before).push(gd));
            group_docs_seqs(groups_before).lemma_flatten_push(gd);
            assert(group_docs_seqs(groups@).flatten() =~= flat_before + gd);
            assert(flat_before + gd + docs@ =~= flat_before + (gd + docs@));
            assert(gd + docs@ =~= docs_before);
        }
    }
    proof {
        assert(group_docs_seqs(groups@).flatten() + docs@ =~= group_docs_seqs(groups@).flatten());
    }
    groups
}

/// The chunks of `cs` whose slice is non-empty, in order.
pub open spec fn nonempty_chunks_of<'x>(cs: Seq<(&'x str, usize, usize)>) -> Seq<
    (&'x str, usize, usize),
> {
    cs.filter(|c: (&'x str, usize, usize)| c.0@.len() > 0)
}

/// Keeps only the chunks whose slice is non-empty: an empty slice
/// never reaches the embedding service.
pub fn filter_nonempty_chunks<'x>(chunks: Vec<(&'x str, usize, usize)>) -> (r: Vec<
    (&'x str, usize, usize),
>)
    ensures
        r@ == nonempty_chunks_of(chunks@),
{
    let mut r: Vec<(&'x str, usize, usize)> = Vec::new();
    let mut i: usize = 0;
    proof {
        assert(nonempty_chunks_of(chunks@.take(0)) =~= Seq::<(&'x str, usize, usize)>::empty());
    }
    while i < chunks.len()
        invariant
            0 <= i <= chunks@.len(),
            r@ == nonempty_chunks_of(chunks@.take(i as int)),
        decreases chunks@.len() - i,
    {
        let c = chunks[i];
        proof {
            broadcast use Seq::lemma_filter_push;

            assert(chunks@.take(i + 1) =~= chunks@.take(i as int).push(chunks@[i as int]));
        }
        if !c.0.is_empty() {
            r.push(c);
        }
        i = i + 1;
    }
    proof {
        assert(chunks@.take(chunks@.len() as int) =~= chunks@);
    }
    r
}

/// The chunk sequences of a list of sub-batches.
pub open spec fn batch_seqs<'x>(bs: Seq<Vec<(&'x str, usize, usize)>>) -> Seq<
    Seq<(&'x str, usize, usize)>,
> {
    bs.map_values(|v: Vec<(&'x str, usize, usize)>| v@)
}

/// Splits the chunks into consecutive sub-batches of at most
/// `batch_size`, preserving order: concatenating the sub-batches gives
/// the input back, and every sub-batch but the last is full.
pub fn split_into_batches<'x>(chunks: Vec<(&'x str, usize, usize)>, batch_size: usize) -> (r: Vec<
    Vec<(&'x str, usize, usize)>,
>)
    requires
        batch_size >= 1,
    ensures
        batch_seqs(r@).flatten() == chunks@,
        forall|j: int| 0 <= j < r@.len() ==> 1 <= (#[trigger] r@[j])@.len() <= batch_size,
        forall|j: int| 0 <= j < r@.len() - 1 ==> (#[trigger] r@[j])@.len() == batch_size,
{
    let mut r: Vec<Vec<(&'x str, usize, usize)>> = Vec::new();
    let mut rest = chunks;
    proof {
        assert(batch_seqs(r@) =~= Seq::<Seq<(&'x str, usize, usize)>>::empty());
        assert(Seq::<Seq<(&'x str, usize, usize)>>::empty().flatten() =~= Seq::<
            (&'x str, usize, usize),
        >::empty());
        assert(batch_seqs(r@).flatten() + rest@ =~= rest@);
    }
    while rest.len() > 0
        invariant
            batch_size >= 1,
            batch_seqs(r@).flatten() + rest@ == chunks@,
            forall|j: int| 0 <= j < r@.len() ==> 1 <= (#[trigger] r@[j])@.len() <= batch_size,
            forall|j: int|
                0 <= j < r@.len() && rest@.len() > 0 ==> (#[trigger] r@[j])@.len() == batch_size,
            forall|j: int| 0 <= j < r@.len() - 1 ==> (#[trigger] r@[j])@.len() == batch_size,
        decreases rest@.len(),
    {
        let ghost batches_before = r@;
        let ghost rest_before = rest@;
        let ghost flat_before = batch_seqs(r@).flatten();
        let mut batch: Vec<(&'x str, usize, usize)> = Vec::new();
        let k = if batch_size <= rest.len() {
            batch_size
        } else {
            rest.len()
        };
        let mut i: usize = 0;
        while i < k
            invariant
                0 <= i <= k,
                k as int <= rest_before.len(),
                k == if batch_size as int <= rest_before.len() {
                    batch_size as int
                } else {
                    rest_before.len() as int
                },
                batch@.len() == i,
                batch@ + rest@ == rest_before,
            decreases k - i,
        {
            let c = rest.remove(0);
            batch.push(c);
            proof {
                assert(batch@ + rest@ =~= rest_before);
            }
            i = i + 1;
        }
        let ghost b = batch@;
        r.push(batch);
        proof {
            assert(batch_seqs(r@) =~~= batch_seqs(batches_before).push(b));
            batch_seqs(batches_before).lemma_flatten_push(b);
            assert(batch_seqs(r@).flatten() =~= flat_before + b);
            assert(flat_before + b + rest@ =~= flat_before + (b + rest@));
            assert(b + rest@ =~= rest_before);
        }
    }
    proof {
        assert(batch_seqs(r@).flatten() + rest@ =~= batch_seqs(r@).flatten());
    }
    r
}

/// The payload rows of one document's chunks are pinned, field by
/// field, by the document's identity and the chunk ranges.
pub open spec fn payloads_match(
    ps: Seq<PointPayload>,
    id: i64,
    table_name: Seq<char>,
    user_id: Option<u64>,
    ranges: Seq<(u64, u64)>,
) -> bool {
    &&& ps.len() == ranges.len()
    &&& forall|j: int|
        0 <= j < ps.len() ==> ((#[trigger] ps[j]).document_id == id && ps[j].table_name@
            == table_name && ps[j].start == ranges[j].0 && ps[j].end == ranges[j].1
            && ps[j].model@ == MODEL_NAME@ && ps[j].user_id == user_id)
}

/// One payload per chunk range, each carrying the document's identity,
/// the chunk's byte range, and the process's model name.
pub fn build_point_payloads(
    id: i64,
    table_name: &str,
    user_id: Option<u64>,
    ranges: &Vec<(u64, u64)>,
) -> (r: Vec<PointPayload>)
    ensures
        payloads_match(r@, id, table_name@, user_id, ranges@),
{
    let mut r: Vec<PointPayload> = Vec::new();
    let mut i: usize = 0;
    while i < ranges.len()
        invariant
            0 <= i <= ranges@.len(),
            r@.len() == i,
            payloads_match(r@, id, table_name@, user_id, ranges@.take(i as int)),
        decreases ranges@.len() - i,
    {
        let (start, end) = ranges[i];
        r.push(
            PointPayload {
                document_id: id,
                table_name: String::from_str(table_name),
                start,
                end,
                model: String::from_str(MODEL_NAME),
                user_id,
            },
        );
        proof {
            assert(ranges@.take(i + 1) =~= ranges@.take(i as int).push(ranges@[i as int]));
        }
        i = i + 1;
    }
    proof {
        assert(ranges@.take(ranges@.len() as int) =~= ranges@);
    }
    r
}

/// The payload rows of a re-ingested, unchanged document equal those
/// of its first ingest in every field: same count, same ranges, same
/// identity. Only the point ids, which are fresh identifiers outside
/// the payload, differ between the two ingests.
pub proof fn lemma_reingest_payloads_equal(
    first: Seq<PointPayload>,
    second: Seq<PointPayload>,
    id: i64,
    table_name: Seq<char>,
    user_id: Option<u64>,
    ranges: Seq<(u64, u64)>,
)
    requires
        payloads_match(first, id, table_name, user_id, ranges),
        payloads_match(second, id, table_name, user_id, ranges),
    ensures
        first.len() == second.len(),
        forall|j: int|
            0 <= j < first.len() ==> ((#[trigger] first[j]).document_id == second[j].document_id
                && first[j].table_name@ == second[j].table_name@ && first[j].start
                == second[j].start && first[j].end == second[j].end && first[j].model@
                == second[j].model@ && first[j].user_id == second[j].user_id),
{
}

/// How the collection is configured when it is first created.
#[derive(Debug)]
pub struct CollectionConfig {
    pub collection_name: &'static str,
    pub vector_size: u64,
    pub cosine_distance: bool,
    pub on_disk: bool,
    pub memmap_threshold: u64,
    pub indexing_threshold: u64,
}

/// The collection's creation parameters: cosine distance, on-disk
/// vectors, both optimizer thresholds at 500 000, and the dimension
/// the first embedding reported.
pub fn collection_create_params(embedding_size: u64) -> (r: CollectionConfig)
    ensures
        r.collection_name@ == COLLECTION_NAME@,
        r.vector_size == embedding_size,
        r.cosine_distance,
        r.on_disk,
        r.memmap_threshold == 500000,
        r.indexing_threshold == 500000,
{
    let data_threshold: u64 = 1000000;
    CollectionConfig {
        collection_name: COLLECTION_NAME,
        vector_size: embedding_size,
        cosine_distance: true,
        on_disk: true,
        memmap_threshold: data_threshold / 2,
        indexing_threshold: data_threshold / 2,
    }
}

/// A payload field index the collection carries.
#[derive(Clone, Copy, Debug, PartialEq, Eq, Structural)]
pub enum FieldIndexType {
    Integer,
    Keyword,
}

/// The three payload indexes created right after the collection:
/// `document_id` and `user_id` as integers, `table_name` as keyword.
pub fn collection_field_indexes() -> (r: Vec<(&'static str, FieldIndexType)>)
    ensures
        r@.len() == 3,
        r@[0].0@ == "document_id"@ && r@[0].1 == FieldIndexType::Integer,
        r@[1].0@ == "user_id"@ && r@[1].1 == FieldIndexType::Integer,
        r@[2].0@ == "table_name"@ && r@[2].1 == FieldIndexType::Keyword,
{
    let mut r: Vec<(&'static str, FieldIndexType)> = Vec::new();
    r.push(("document_id", FieldIndexType::Integer));
    r.push(("user_id", FieldIndexType::Integer));
    r.push(("table_name", FieldIndexType::Keyword));
    r
}

/// Resolves a failed create-collection call: racing creators see
/// "already exists", which is not an error; anything else is.
pub fn resolve_create_collection_error(msg: String) -> (r: Result<(), QdrantClientError>)
    ensures
        spec_contains(
            vstd::utf8::encode_utf8(msg@),
            vstd::utf8::encode_utf8("already exists"@),
        ) <==> r is Ok,
        (r matches Err(QdrantClientError::ClientError(m)) ==> m@ == msg@),
{
    if str_contains(msg.as_str(), "already exists") {
        Ok(())
    } else {
        Err(QdrantClientError::ClientError(msg))
    }
}

/// Whether a failed upsert should be retried once after ensuring the
/// collection exists: only a NotFound status says so.
pub fn should_retry_upsert(msg: &str) -> (r: bool)
    ensures
        r == (msg.spec_bytes().len() >= "status: NotFound".spec_bytes().len()
            && msg.spec_bytes().subrange(0, "status: NotFound".spec_bytes().len() as int)
            == "status: NotFound".spec_bytes()),
{
    str_starts_with(msg, "status: NotFound")
}

/// The outcome of the single retry decides the upsert step: its
/// success is the step's success, its failure the step's failure.
pub fn after_retry_upsert(result_err: Option<String>) -> (r: Result<(), EmbeddingError>)
    ensures
        result_err is None <==> r is Ok,
        (result_err matches Some(m) ==> (r matches Err(EmbeddingError::QdrantClient(
            QdrantClientError::ClientError(m2),
        )) && m2@ == m@)),
{
    match result_err {
        None => Ok(()),
        Some(m) => Err(EmbeddingError::QdrantClient(QdrantClientError::ClientError(m))),
    }
}

/// The row update that records a completed ingest. Both timestamp
/// columns receive the same single literal, which is what establishes
/// the sync invariant `updated_at == qdrant_sync_at`.
pub struct SyncUpdate {
    pub table_name: String,
    pub timestamp: String,
    pub id: i64,
}

/// The sync update for row `id` of `table_name` at the given instant.
pub fn sync_update(table_name: &str, now: &str, id: i64) -> (r: SyncUpdate)
    ensures
        r.table_name@ == table_name@,
        r.timestamp@ == now@,
        r.id == id,
{
    SyncUpdate { table_name: String::from_str(table_name), timestamp: String::from_str(now), id }
}


/// The byte ranges of a list of chunks, as the payload records them.
pub open spec fn ranges_of<'x>(cs: Seq<(&'x str, usize, usize)>) -> Seq<(u64, u64)> {
    cs.map_values(|c: (&'x str, usize, usize)| (c.1 as u64, c.2 as u64))
}

/// The byte ranges of a list of chunks, as byte positions.
pub open spec fn positions_of<'x>(cs: Seq<(&'x str, usize, usize)>) -> Seq<(usize, usize)> {
    cs.map_values(|c: (&'x str, usize, usize)| (c.1, c.2))
}

/// A chunk is a faithful slice of the text: a non-empty, half-open,
/// boundary-aligned byte range carrying exactly those bytes.
pub open spec fn wf_chunk<'x>(bs: Seq<u8>, c: (&'x str, usize, usize)) -> bool {
    &&& c.1 < c.2 <= bs.len()
    &&& is_char_boundary(bs, c.1 as int)
    &&& is_char_boundary(bs, c.2 as int)
    &&& c.0.spec_bytes() == bs.subrange(c.1 as int, c.2 as int)
}

/// The byte ranges of the chunks, for the point payloads.
pub fn chunk_ranges<'x>(chunks: &Vec<(&'x str, usize, usize)>) -> (r: Vec<(u64, u64)>)
    ensures
        r@ == ranges_of(chunks@),
{
    let mut r: Vec<(u64, u64)> = Vec::new();
    let mut i: usize = 0;
    proof {
        assert(r@ =~= ranges_of(chunks@.take(0)));
    }
    while i < chunks.len()
        invariant
            0 <= i <= chunks@.len(),
            r@ == ranges_of(chunks@.take(i as int)),
        decreases chunks@.len() - i,
    {
        let c = chunks[i];
        r.push((c.1 as u64, c.2 as u64));
        proof {
            assert(ranges_of(chunks@.take(i + 1)) =~= ranges_of(chunks@.take(i as int)).push(
                (chunks@[i as int].1 as u64, chunks@[i as int].2 as u64),
            ));
        }
        i = i + 1;
    }
    proof {
        assert(chunks@.take(chunks@.len() as int) =~= chunks@);
    }
    r
}

/// The remote work of one `process_chunks` step, computed up front.
pub struct ProcessChunksPlan<'a> {
    pub embed_batches: Vec<Vec<(&'a str, usize, usize)>>,
    pub payloads: Vec<PointPayload>,
}

/// Plans one `process_chunks` step: empty chunks are dropped, the rest
/// split into embedding sub-batches of at most `batch_size`, and one
/// payload is built per surviving chunk, in sub-batch order, carrying
/// its byte range and the document's identity. A step with no
/// surviving chunks plans no embedding call and no points.
pub fn plan_process_chunks<'a>(
    id: i64,
    table_name: &str,
    user_id: Option<u64>,
    chunks: Vec<(&'a str, usize, usize)>,
    batch_size: usize,
) -> (r: ProcessChunksPlan<'a>)
    requires
        batch_size >= 1,
    ensures
        batch_seqs(r.embed_batches@).flatten() == nonempty_chunks_of(chunks@),
        forall|j: int|
            0 <= j < r.embed_batches@.len() ==> 1 <= (#[trigger] r.embed_batches@[j])@.len()
                <= batch_size,
        forall|j: int|
            0 <= j < r.embed_batches@.len() - 1 ==> (#[trigger] r.embed_batches@[j])@.len()
                == batch_size,
        payloads_match(
            r.payloads@,
            id,
            table_name@,
            user_id,
            ranges_of(nonempty_chunks_of(chunks@)),
        ),
{
    let filtered = filter_nonempty_chunks(chunks);
    let ranges = chunk_ranges(&filtered);
    let payloads = build_point_payloads(id, table_name, user_id, &ranges);
    let embed_batches = split_into_batches(filtered, batch_size);
    ProcessChunksPlan { embed_batches, payloads }
}

/// Total byte length of a step's chunk slices.
pub open spec fn step_len<'x>(cs: Seq<(&'x str, usize, usize)>) -> int
    decreases cs.len(),
{
    if cs.len() == 0 {
        0
    } else {
        step_len(cs.drop_last()) + cs.last().0.spec_bytes().len()
    }
}

/// Streams one document's chunks through the tokenizer and groups them
/// into the pipeline's flush steps: a step closes once the accumulated
/// byte length of its chunks would exceed `max_chunk_text_length` and
/// it already holds a chunk, so a step stays within the budget unless
/// it is a single oversized chunk. The steps' chunks, in order, are
/// exactly the chunks the iterator yielded, each once: consecutive,
/// starting at the text's beginning, faithful slices that, together
/// with the one-character elisions between them, cover all of it. An
/// empty document yields no steps at all, and in particular never
/// fails: no tokenizer call is made for it.
pub fn collect_document_batches<'a>(
    content: &'a str,
    tokenizer: &Tokenizer,
    max_chunk_size: usize,
    max_chunk_text_length: usize,
) -> (r: Result<Vec<Vec<(&'a str, usize, usize)>>, EmbeddingError>)
    requires
        1 <= max_chunk_size <= usize::MAX / 4,
        content.spec_bytes().len() < usize::MAX,
    ensures
        content.spec_bytes().len() == 0 ==> r is Ok,
        (r matches Ok(steps) ==> ({
            let bs = content.spec_bytes();
            let all = batch_seqs(steps@).flatten();
            &&& forall|j: int| 0 <= j < steps@.len() ==> (#[trigger] steps@[j])@.len() >= 1
            &&& forall|j: int|
                0 <= j < steps@.len() ==> ((#[trigger] steps@[j])@.len() >= 2 ==> step_len(
                    steps@[j]@,
                ) <= max_chunk_text_length)
            &&& forall|j: int| 0 <= j < all.len() ==> wf_chunk(bs, #[trigger] all[j])
            &&& (all.len() > 0 ==> all[0].1 == 0)
            &&& forall|j: int|
                0 <= j < all.len() - 1 ==> (#[trigger] all[j + 1]).1 == next_cursor(
                    bs,
                    all[j].2 as int,
                )
            &&& (all.len() > 0 ==> next_cursor(bs, all.last().2 as int) >= bs.len())
            &&& (bs.len() > 0 ==> all.len() > 0)
            &&& forall|i: int| 0 <= i < bs.len() ==> covered_or_elided(bs, positions_of(all), i)
            &&& (bs.len() == 0 ==> steps@.len() == 0)
        })),
{
    let ghost bs = content.spec_bytes();
    let mut it = StringChunkIterator::new(content, max_chunk_size);
    let mut steps: Vec<Vec<(&'a str, usize, usize)>> = Vec::new();
    let mut chunks: Vec<(&'a str, usize, usize)> = Vec::new();
    let mut combined_length: usize = 0;
    proof {
        assert(batch_seqs(steps@) =~= Seq::<Seq<(&'a str, usize, usize)>>::empty());
        assert(Seq::<Seq<(&'a str, usize, usize)>>::empty().flatten() =~= Seq::<
            (&'a str, usize, usize),
        >::empty());
        assert(positions_of(batch_seqs(steps@).flatten() + chunks@) =~= it.chunks());
    }
    loop
        invariant
            it.wf(),
            it.bytes() == bs,
            bs == content.spec_bytes(),
            it.limit() == max_chunk_size as int,
            positions_of(batch_seqs(steps@).flatten() + chunks@) == it.chunks(),
            combined_length as int == step_len(chunks@),
            chunks@.len() > 0 ==> combined_length as int <= chunks@.last().2 as int,
            chunks@.len() >= 2 ==> combined_length <= max_chunk_text_length,
            forall|j: int| 0 <= j < steps@.len() ==> (#[trigger] steps@[j])@.len() >= 1,
            forall|j: int|
                0 <= j < steps@.len() ==> ((#[trigger] steps@[j])@.len() >= 2 ==> step_len(
                    steps@[j]@,
                ) <= max_chunk_text_length),
            forall|j: int|
                0 <= j < (batch_seqs(steps@).flatten() + chunks@).len() ==> wf_chunk(
                    bs,
                    #[trigger] (batch_seqs(steps@).flatten() + chunks@)[j],
                ),
        ensures
            it.wf(),
            it.bytes() == bs,
            it.cursor() >= bs.len(),
            positions_of(batch_seqs(steps@).flatten() + chunks@) == it.chunks(),
            combined_length as int == step_len(chunks@),
            chunks@.len() >= 2 ==> combined_length <= max_chunk_text_length,
            forall|j: int| 0 <= j < steps@.len() ==> (#[trigger] steps@[j])@.len() >= 1,
            forall|j: int|
                0 <= j < steps@.len() ==> ((#[trigger] steps@[j])@.len() >= 2 ==> step_len(
                    steps@[j]@,
                ) <= max_chunk_text_length),
            forall|j: int|
                0 <= j < (batch_seqs(steps@).flatten() + chunks@).len() ==> wf_chunk(
                    bs,
                    #[trigger] (batch_seqs(steps@).flatten() + chunks@)[j],
                ),
        decreases bs.len() + 1 - it.cursor(),
    {
        let ghost chunks_seq_before = it.chunks();
        let ghost cursor_before = it.cursor();
        let next = it.get_next_chunk(tokenizer);
        match next {
            None => {
                break ;
            },
            Some(Err(e)) => {
                proof {
                    // A tokenizer call was made, so the text is not
                    // empty: the cursor stood below the end.
                    if chunks_seq_before.len() == 0 {
                        assert(cursor_before == 0);
                    } else {
                        let last_end = chunks_seq_before.last().1 as int;
                        if last_end + 1 <= bs.len() {
                            crate::text::lemma_next_boundary(bs, last_end + 1);
                        }
                    }
                    assert(bs.len() > 0);
                }
                return Err(e);
            },
            Some(Ok(chunk)) => {
                let chunk_len = chunk.0.as_bytes().len();
                proof {
                    assert(chunk.0.spec_bytes().len() == chunk.2 - chunk.1);
                    if chunks@.len() > 0 {
                        // The pending chunks end strictly before the
                        // new chunk starts, so the byte totals cannot
                        // overflow.
                        let pend = batch_seqs(steps@).flatten() + chunks@;
                        assert(pend.last() == chunks@.last());
                        assert(chunks_seq_before.last() == positions_of(pend)[pend.len() - 1]);
                        assert(chunks_seq_before.last() == (chunks@.last().1, chunks@.last().2));
                        let last_end = chunks@.last().2 as int;
                        assert(cursor_before == next_cursor(bs, last_end));
                        if last_end + 1 <= bs.len() {
                            crate::text::lemma_next_boundary(bs, last_end + 1);
                        }
                        assert(chunk.1 as int >= last_end + 1);
                    }
                }
                if combined_length.saturating_add(chunk_len) > max_chunk_text_length
                    && chunks.len() > 0 {
                    let ghost steps_before = steps@;
                    let ghost pending = chunks@;
                    steps.push(chunks);
                    proof {
                        assert(batch_seqs(steps@) =~~= batch_seqs(steps_before).push(pending));
                        batch_seqs(steps_before).lemma_flatten_push(pending);
                        assert(steps@[steps@.len() - 1]@ == pending);
                    }
                    chunks = Vec::new();
                    combined_length = 0;
                    proof {
                        assert(batch_seqs(steps@).flatten() + chunks@ =~= batch_seqs(
                            steps_before,
                        ).flatten() + pending);
                    }
                }
                let ghost before = batch_seqs(steps@).flatten() + chunks@;
                let ghost pending_before = chunks@;
                chunks.push(chunk);
                combined_length = combined_length.saturating_add(chunk_len);
                proof {
                    if chunk.2 + 1 <= bs.len() {
                        crate::text::lemma_next_boundary(bs, chunk.2 + 1);
                    } else {
                        assert(crate::text::next_boundary_at(bs, chunk.2 + 1) == chunk.2 + 1);
                    }
                    assert(chunks@.drop_last() =~= pending_before);
                    assert(step_len(chunks@) == step_len(pending_before)
                        + chunk.0.spec_bytes().len());
                    assert(batch_seqs(steps@).flatten() + chunks@ =~= before.push(chunk));
                    assert(positions_of(before.push(chunk)) =~= positions_of(before).push(
                        (chunk.1, chunk.2),
                    ));
                    assert(it.chunks() =~= chunks_seq_before.push((chunk.1, chunk.2)));
                }
            },
        }
    }
    if chunks.len() > 0 {
        let ghost steps_before = steps@;
        let ghost pending = chunks@;
        steps.push(chunks);
        proof {
            assert(batch_seqs(steps@) =~~= batch_seqs(steps_before).push(pending));
            batch_seqs(steps_before).lemma_flatten_push(pending);
            assert(steps@[steps@.len() - 1]@ == pending);
            assert(batch_seqs(steps@).flatten() =~= batch_seqs(steps_before).flatten() + pending);
            assert(batch_seqs(steps_before).flatten() + pending =~= batch_seqs(
                steps_before,
            ).flatten() + pending + Seq::<(&'a str, usize, usize)>::empty());
        }
    }
    proof {
        let all = batch_seqs(steps@).flatten();
        let h = it.chunks();
        assert(all =~= all + Seq::<(&'a str, usize, usize)>::empty());
        assert(positions_of(all) == h);
        assert(all.len() == h.len());
        assert forall|j: int|
            0 <= j < all.len() implies ((#[trigger] all[j]).1 == h[j].0 && all[j].2
            == h[j].1) by {
            assert(positions_of(all)[j] == (all[j].1, all[j].2));
        }
        crate::chunk_strings::lemma_chunks_cover(it);
        if bs.len() > 0 {
            if h.len() == 0 {
                assert(it.cursor() == 0);
                assert(false);
            }
            assert(all.len() > 0);
        }
        if all.len() > 0 {
            assert(all[0].1 == h[0].0);
            assert(all.last().2 == h.last().1);
            assert(it.cursor() == next_cursor(bs, h.last().1 as int));
        }
        assert forall|j: int|
            0 <= j < all.len() - 1 implies (#[trigger] all[j + 1]).1 == next_cursor(
            bs,
            all[j].2 as int,
        ) by {
            assert(h[j + 1].0 == next_cursor(bs, h[j].1 as int));
        }
        if bs.len() == 0 {
            if steps@.len() > 0 {
                assert(steps@[0]@.len() >= 1);
                assert(all.len() >= 1) by {
                    batch_seqs(steps@).lemma_flatten_length_ge_single_element_length(0);
                }
                assert(wf_chunk(bs, all[0]));
            }
        }
    }
    Ok(steps)
}

/// The vector store reduced to the payloads it holds. Point ids are
/// fresh on every write, so no write ever replaces a point in place: a
/// multiset of payloads is a faithful picture of the collection.
pub open spec fn apply_delete_by_ids(store: Multiset<PointPayload>, ids: Seq<i64>) -> Multiset<
    PointPayload,
> {
    store.filter(|p: PointPayload| !ids.contains(p.document_id))
}

/// Upserting adds the points: their ids are fresh, so nothing is
/// overwritten.
pub open spec fn apply_upsert(
    store: Multiset<PointPayload>,
    points: Multiset<PointPayload>,
) -> Multiset<PointPayload> {
    store.add(points)
}

/// What one ingest group leaves in the store: every point of the
/// group's ids is deleted first, then the group's points are written.
pub open spec fn apply_ingest(
    store: Multiset<PointPayload>,
    ids: Seq<i64>,
    points: Multiset<PointPayload>,
) -> Multiset<PointPayload> {
    apply_upsert(apply_delete_by_ids(store, ids), points)
}

/// Ingesting the same group twice leaves the same store as ingesting
/// it once: the second pre-delete removes exactly the first write.
pub proof fn lemma_ingest_idempotent(
    store: Multiset<PointPayload>,
    ids: Seq<i64>,
    points: Multiset<PointPayload>,
)
    requires
        forall|p: PointPayload| points.contains(p) ==> ids.contains(p.document_id),
    ensures
        apply_ingest(apply_ingest(store, ids, points), ids, points) == apply_ingest(
            store,
            ids,
            points,
        ),
{
    broadcast use vstd::multiset::group_multiset_axioms;

    let once = apply_ingest(store, ids, points);
    let twice = apply_ingest(once, ids, points);
    assert forall|p: PointPayload| twice.count(p) == once.count(p) by {
        if ids.contains(p.document_id) {
            assert(once.count(p) == points.count(p));
            assert(twice.count(p) == points.count(p));
        } else {
            if points.count(p) > 0 {
                assert(points.contains(p));
            }
            assert(points.count(p) == 0);
            assert(once.count(p) == store.count(p));
            assert(twice.count(p) == once.count(p));
        }
    }
    assert(twice =~= once);
}

/// After an ingest whose points all carry the current model name, no
/// point of an ingested id carries any other model: the pre-delete
/// removed whatever an earlier model had written for those ids.
pub proof fn lemma_ingest_replaces(
    store: Multiset<PointPayload>,
    ids: Seq<i64>,
    points: Multiset<PointPayload>,
    p: PointPayload,
)
    requires
        forall|q: PointPayload|
            points.contains(q) ==> (ids.contains(q.document_id) && q.model@ == MODEL_NAME@),
        apply_ingest(store, ids, points).contains(p),
        ids.contains(p.document_id),
    ensures
        p.model@ == MODEL_NAME@,
{
    broadcast use vstd::multiset::group_multiset_axioms;

    assert(apply_delete_by_ids(store, ids).count(p) == 0);
    assert(points.count(p) > 0);
    assert(points.contains(p));
}

/// Ingests of disjoint id sets commute: whichever order two concurrent
/// calls' groups reach the store in, the final state is the same — the
/// union of what each call wrote, over the untouched remainder.
pub proof fn lemma_disjoint_ingests_commute(
    store: Multiset<PointPayload>,
    ids1: Seq<i64>,
    points1: Multiset<PointPayload>,
    ids2: Seq<i64>,
    points2: Multiset<PointPayload>,
)
    requires
        forall|p: PointPayload| points1.contains(p) ==> ids1.contains(p.document_id),
        forall|p: PointPayload| points2.contains(p) ==> ids2.contains(p.document_id),
        forall|i: i64| !(ids1.contains(i) && #[trigger] ids2.contains(i)),
    ensures
        apply_ingest(apply_ingest(store, ids1, points1), ids2, points2) == apply_ingest(
            apply_ingest(store, ids2, points2),
            ids1,
            points1,
        ),
{
    broadcast use vstd::multiset::group_multiset_axioms;

    let lhs = apply_ingest(apply_ingest(store, ids1, points1), ids2, points2);
    let rhs = apply_ingest(apply_ingest(store, ids2, points2), ids1, points1);
    assert forall|p: PointPayload| lhs.count(p) == rhs.count(p) by {
        if points1.count(p) > 0 {
            assert(points1.contains(p));
        }
        if points2.count(p) > 0 {
            assert(points2.contains(p));
        }
        if ids1.contains(p.document_id) {
            assert(points2.count(p) == 0);
            assert(lhs.count(p) == points1.count(p));
            assert(rhs.count(p) == points1.count(p));
        } else if ids2.contains(p.document_id) {
            assert(points1.count(p) == 0);
            assert(lhs.count(p) == points2.count(p));
            assert(rhs.count(p) == points2.count(p));
        } else {
            assert(points1.count(p) == 0 && points2.count(p) == 0);
            assert(lhs.count(p) == store.count(p));
            assert(rhs.count(p) == store.count(p));
        }
    }
    assert(lhs =~= rhs);
}


/// One atomic operation an ingest call applies to the store: the
/// pre-delete of a group's ids, or the upsert of a batch of points.
pub enum StoreOp {
    DeleteByIds(Seq<i64>),
    Upsert(Multiset<PointPayload>),
}

/// The store after one operation.
pub open spec fn apply_op(store: Multiset<PointPayload>, op: StoreOp) -> Multiset<PointPayload> {
    match op {
        StoreOp::DeleteByIds(ids) => apply_delete_by_ids(store, ids),
        StoreOp::Upsert(points) => apply_upsert(store, points),
    }
}

/// The store after a sequence of operations, applied left to right.
pub open spec fn apply_ops(store: Multiset<PointPayload>, ops: Seq<StoreOp>) -> Multiset<
    PointPayload,
>
    decreases ops.len(),
{
    if ops.len() == 0 {
        store
    } else {
        apply_ops(apply_op(store, ops[0]), ops.drop_first())
    }
}

/// An operation stays within an id set when it deletes only those ids
/// and writes only points owned by them.
pub open spec fn op_within(op: StoreOp, ids: Seq<i64>) -> bool {
    match op {
        StoreOp::DeleteByIds(ds) => forall|k: int|
            0 <= k < ds.len() ==> ids.contains(#[trigger] ds[k]),
        StoreOp::Upsert(points) => forall|p: PointPayload|
            points.contains(p) ==> ids.contains(p.document_id),
    }
}

/// Every operation of the sequence stays within the id set.
pub open spec fn ops_within(ops: Seq<StoreOp>, ids: Seq<i64>) -> bool {
    forall|j: int| 0 <= j < ops.len() ==> op_within(#[trigger] ops[j], ids)
}

/// `ops` is one of the ways the operations of `a` and `b` can reach
/// the store when the two calls run concurrently: each call's own
/// order is kept.
pub open spec fn is_interleaving(ops: Seq<StoreOp>, a: Seq<StoreOp>, b: Seq<StoreOp>) -> bool
    decreases ops.len(),
{
    if ops.len() == 0 {
        a.len() == 0 && b.len() == 0
    } else {
        ||| (a.len() > 0 && ops[0] == a[0] && is_interleaving(ops.drop_first(), a.drop_first(), b))
        ||| (b.len() > 0 && ops[0] == b[0] && is_interleaving(ops.drop_first(), a, b.drop_first()))
    }
}

/// Two operations scoped to disjoint id sets commute on the store.
proof fn lemma_ops_commute(
    store: Multiset<PointPayload>,
    x: StoreOp,
    y: StoreOp,
    ids1: Seq<i64>,
    ids2: Seq<i64>,
)
    requires
        op_within(x, ids1),
        op_within(y, ids2),
        forall|i: i64| !(ids1.contains(i) && #[trigger] ids2.contains(i)),
    ensures
        apply_op(apply_op(store, x), y) == apply_op(apply_op(store, y), x),
{
    broadcast use vstd::multiset::group_multiset_axioms;

    let lhs = apply_op(apply_op(store, x), y);
    let rhs = apply_op(apply_op(store, y), x);
    assert forall|p: PointPayload| lhs.count(p) == rhs.count(p) by {
        match (x, y) {
            (StoreOp::DeleteByIds(d1), StoreOp::DeleteByIds(d2)) => {},
            (StoreOp::DeleteByIds(d1), StoreOp::Upsert(p2)) => {
                if p2.count(p) > 0 {
                    assert(p2.contains(p));
                    assert(ids2.contains(p.document_id));
                    if d1.contains(p.document_id) {
                        let k = choose|k: int| 0 <= k < d1.len() && d1[k] == p.document_id;
                        assert(ids1.contains(d1[k]));
                        assert(false);
                    }
                }
            },
            (StoreOp::Upsert(p1), StoreOp::DeleteByIds(d2)) => {
                if p1.count(p) > 0 {
                    assert(p1.contains(p));
                    assert(ids1.contains(p.document_id));
                    if d2.contains(p.document_id) {
                        let k = choose|k: int| 0 <= k < d2.len() && d2[k] == p.document_id;
                        assert(ids2.contains(d2[k]));
                        assert(false);
                    }
                }
            },
            (StoreOp::Upsert(p1), StoreOp::Upsert(p2)) => {},
        }
    }
    assert(lhs =~= rhs);
}

/// One operation of the second call moves past the whole first call.
proof fn lemma_op_past_ops(
    store: Multiset<PointPayload>,
    a: Seq<StoreOp>,
    y: StoreOp,
    ids1: Seq<i64>,
    ids2: Seq<i64>,
)
    requires
        ops_within(a, ids1),
        op_within(y, ids2),
        forall|i: i64| !(ids1.contains(i) && #[trigger] ids2.contains(i)),
    ensures
        apply_ops(apply_op(store, y), a) == apply_op(apply_ops(store, a), y),
    decreases a.len(),
{
    if a.len() == 0 {
    } else {
        assert(op_within(a[0], ids1));
        lemma_ops_commute(store, a[0], y, ids1, ids2);
        assert(ops_within(a.drop_first(), ids1)) by {
            assert forall|j: int|
                0 <= j < a.drop_first().len() implies op_within(
                #[trigger] a.drop_first()[j],
                ids1,
            ) by {
                assert(a.drop_first()[j] == a[j + 1]);
            }
        }
        lemma_op_past_ops(apply_op(store, a[0]), a.drop_first(), y, ids1, ids2);
    }
}

/// Whatever order the store sees the operations of two concurrent
/// ingest calls in, the final state is the one of running the first
/// call to completion and then the second: concurrent ingests of
/// disjoint id sets leave the union of their effects.
pub proof fn lemma_interleaved_ingests_union(
    store: Multiset<PointPayload>,
    ops: Seq<StoreOp>,
    a: Seq<StoreOp>,
    b: Seq<StoreOp>,
    ids1: Seq<i64>,
    ids2: Seq<i64>,
)
    requires
        is_interleaving(ops, a, b),
        ops_within(a, ids1),
        ops_within(b, ids2),
        forall|i: i64| !(ids1.contains(i) && #[trigger] ids2.contains(i)),
    ensures
        apply_ops(store, ops) == apply_ops(apply_ops(store, a), b),
    decreases ops.len(),
{
    if ops.len() == 0 {
    } else if a.len() > 0 && ops[0] == a[0] && is_interleaving(
        ops.drop_first(),
        a.drop_first(),
        b,
    ) {
        assert(ops_within(a.drop_first(), ids1)) by {
            assert forall|j: int|
                0 <= j < a.drop_first().len() implies op_within(
                #[trigger] a.drop_first()[j],
                ids1,
            ) by {
                assert(a.drop_first()[j] == a[j + 1]);
            }
        }
        lemma_interleaved_ingests_union(
            apply_op(store, a[0]),
            ops.drop_first(),
            a.drop_first(),
            b,
            ids1,
            ids2,
        );
    } else {
        assert(b.len() > 0 && ops[0] == b[0] && is_interleaving(
            ops.drop_first(),
            a,
            b.drop_first(),
        ));
        assert(ops_within(b.drop_first(), ids2)) by {
            assert forall|j: int|
                0 <= j < b.drop_first().len() implies op_within(
                #[trigger] b.drop_first()[j],
                ids2,
            ) by {
                assert(b.drop_first()[j] == b[j + 1]);
            }
        }
        assert(op_within(b[0], ids2));
        lemma_interleaved_ingests_union(
            apply_op(store, b[0]),
            ops.drop_first(),
            a,
            b.drop_first(),
            ids1,
            ids2,
        );
        lemma_op_past_ops(store, a, b[0], ids1, ids2);
        assert(apply_ops(apply_ops(store, a), b) == apply_ops(
            apply_op(apply_ops(store, a), b[0]),
            b.drop_first(),
        ));
    }
}

} // verus!
