//! The query engine's verified core: the embedding input of a query
//! and the filter a similarity search carries. The filter is a
//! disjunction of two branches — public contents, and the caller's own
//! uploaded files — each a conjunction of conditions.
use vstd::prelude::*;
use vstd::string::StringExecFns;

use crate::create::PointPayload;

verus! {

/// Default number of results a search returns.
pub const DEFAULT_SEARCH_LIMIT: u64 = 100;

/// One condition a matching point must meet.
#[derive(Debug)]
pub enum Condition {
    TableNameEq(String),
    UserIdEq(i64),
    IdIn(Vec<i64>),
}

/// A conjunction of conditions.
#[derive(Debug)]
pub struct MustClause {
    pub must: Vec<Condition>,
}

/// A disjunction of conjunctions: the filter sent with a search.
#[derive(Debug)]
pub struct SearchFilter {
    pub should: Vec<MustClause>,
}

/// When a point's payload satisfies one condition.
pub open spec fn condition_matches(p: PointPayload, c: Condition) -> bool {
    match c {
        Condition::TableNameEq(t) => p.table_name@ == t@,
        Condition::UserIdEq(u) => p.user_id matches Some(v) && v as int == u as int,
        Condition::IdIn(ids) => ids@.contains(p.document_id),
    }
}

/// When a point's payload satisfies every condition of a clause.
pub open spec fn must_matches(p: PointPayload, m: MustClause) -> bool {
    forall|k: int| 0 <= k < m.must@.len() ==> condition_matches(p, #[trigger] m.must@[k])
}

/// When a point's payload satisfies some branch of the filter.
pub open spec fn filter_matches(p: PointPayload, f: SearchFilter) -> bool {
    exists|k: int| 0 <= k < f.should@.len() && must_matches(p, #[trigger] f.should@[k])
}

/// The retrieval filter's fixed shape: branch one is scoped to the
/// public contents table, branch two to the caller's own uploads.
pub open spec fn retrieval_filter_shape(f: SearchFilter, user_id: i64) -> bool {
    &&& f.should@.len() == 2
    &&& f.should@[0].must@.len() >= 1
    &&& (match f.should@[0].must@[0] {
        Condition::TableNameEq(t) => t@ == "contents"@,
        _ => false,
    })
    &&& f.should@[1].must@.len() >= 2
    &&& (match f.should@[1].must@[0] {
        Condition::TableNameEq(t) => t@ == "uploaded_files"@,
        _ => false,
    })
    &&& (match f.should@[1].must@[1] {
        Condition::UserIdEq(u) => u == user_id,
        _ => false,
    })
}

/// Builds the filter of one retrieval: the contents branch matches the
/// public table (narrowed to `contents_ids` when given), the uploads
/// branch matches the caller's own rows of the uploads table (narrowed
/// to `uploaded_ids` when given). An empty id list leaves its branch's
/// base predicate alone, which permits cross-table retrieval.
pub fn build_retrieval_filter(user_id: i64, contents_ids: Vec<i64>, uploaded_ids: Vec<i64>) -> (r:
    SearchFilter)
    ensures
        retrieval_filter_shape(r, user_id),
        r.should@[0].must@.len() == if contents_ids@.len() > 0 {
            2int
        } else {
            1int
        },
        contents_ids@.len() > 0 ==> (r.should@[0].must@[1] matches Condition::IdIn(ids) && ids@
            == contents_ids@),
        r.should@[1].must@.len() == if uploaded_ids@.len() > 0 {
            3int
        } else {
            2int
        },
        uploaded_ids@.len() > 0 ==> (r.should@[1].must@[2] matches Condition::IdIn(ids) && ids@
            == uploaded_ids@),
{
    let mut content_conditions: Vec<Condition> = Vec::new();
    content_conditions.push(Condition::TableNameEq(String::from_str("contents")));
    if contents_ids.len() > 0 {
        content_conditions.push(Condition::IdIn(contents_ids));
    }
    let mut uploaded_file_conditions: Vec<Condition> = Vec::new();
    uploaded_file_conditions.push(Condition::TableNameEq(String::from_str("uploaded_files")));
    uploaded_file_conditions.push(Condition::UserIdEq(user_id));
    if uploaded_ids.len() > 0 {
        uploaded_file_conditions.push(Condition::IdIn(uploaded_ids));
    }
    let mut should: Vec<MustClause> = Vec::new();
    should.push(MustClause { must: content_conditions });
    should.push(MustClause { must: uploaded_file_conditions });
    SearchFilter { should }
}

/// A point the retrieval filter admits from the uploads table carries
/// the caller's own user id: retrieval never crosses user scopes on
/// uploaded files.
pub proof fn lemma_filter_scopes_uploads(f: SearchFilter, user_id: i64, p: PointPayload)
    requires
        retrieval_filter_shape(f, user_id),
        filter_matches(p, f),
        p.table_name@ == "uploaded_files"@,
    ensures
        p.user_id matches Some(v) && v as int == user_id as int,
{
    let k = choose|k: int| 0 <= k < f.should@.len() && must_matches(p, #[trigger] f.should@[k]);
    if k == 0 {
        assert(condition_matches(p, f.should@[0].must@[0]));
        reveal_strlit("contents");
        reveal_strlit("uploaded_files");
        assert(("contents"@).len() != ("uploaded_files"@).len());
        assert(false);
    } else {
        assert(condition_matches(p, f.should@[1].must@[1]));
    }
}

/// The embedding input of one query: the instruct framing around the
/// task description and the query itself.
pub fn format_query_input(task_description: &str, query: &str) -> (r: String)
    ensures
        r@ == "Instruct: "@ + task_description@ + "\nQuery: "@ + query@,
{
    String::from_str("Instruct: ").concat(task_description).concat("\nQuery: ").concat(query)
}

/// The fields sent with one similarity search: the collection, the
/// result limit, the payload keys to return (never the vectors), and
/// the filter.
#[derive(Debug)]
pub struct SearchRequest {
    pub collection_name: &'static str,
    pub limit: u64,
    pub with_payload: Vec<&'static str>,
    pub with_vectors: bool,
    pub filter: SearchFilter,
}

/// Builds one retrieval's search request: the limit defaults to
/// [`DEFAULT_SEARCH_LIMIT`], the payload keys are the four the reply
/// needs, and vectors stay behind.
pub fn build_search_request(
    user_id: i64,
    contents_ids: Vec<i64>,
    uploaded_ids: Vec<i64>,
    limit: Option<u64>,
) -> (r: SearchRequest)
    ensures
        r.collection_name@ == crate::collections::COLLECTION_NAME@,
        (limit matches Some(l) ==> r.limit == l),
        limit is None ==> r.limit == DEFAULT_SEARCH_LIMIT,
        r.with_payload@.len() == 4,
        r.with_payload@[0]@ == "document_id"@,
        r.with_payload@[1]@ == "start"@,
        r.with_payload@[2]@ == "end"@,
        r.with_payload@[3]@ == "table_name"@,
        !r.with_vectors,
        retrieval_filter_shape(r.filter, user_id),
        r.filter.should@[0].must@.len() == if contents_ids@.len() > 0 {
            2int
        } else {
            1int
        },
        contents_ids@.len() > 0 ==> (r.filter.should@[0].must@[1] matches Condition::IdIn(ids)
            && ids@ == contents_ids@),
        r.filter.should@[1].must@.len() == if uploaded_ids@.len() > 0 {
            3int
        } else {
            2int
        },
        uploaded_ids@.len() > 0 ==> (r.filter.should@[1].must@[2] matches Condition::IdIn(ids)
            && ids@ == uploaded_ids@),
{
    let filter = build_retrieval_filter(user_id, contents_ids, uploaded_ids);
    let mut with_payload: Vec<&'static str> = Vec::new();
    with_payload.push("document_id");
    with_payload.push("start");
    with_payload.push("end");
    with_payload.push("table_name");
    let limit_value = match limit {
        Some(l) => l,
        None => DEFAULT_SEARCH_LIMIT,
    };
    SearchRequest {
        collection_name: crate::collections::COLLECTION_NAME,
        limit: limit_value,
        with_payload,
        with_vectors: false,
        filter,
    }
}

} // verus!
