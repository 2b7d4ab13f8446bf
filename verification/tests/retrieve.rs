use vecembed::get::{
    build_retrieval_filter, build_search_request, format_query_input, Condition,
    DEFAULT_SEARCH_LIMIT,
};

#[test]
fn query_input_is_instruct_framed() {
    let input = format_query_input("Given a query, find passages", "what is a vector?");
    assert_eq!(input, "Instruct: Given a query, find passages\nQuery: what is a vector?");
}

#[test]
fn default_filter_has_two_scoped_branches() {
    let filter = build_retrieval_filter(7, Vec::new(), Vec::new());
    assert_eq!(filter.should.len(), 2);
    let contents = &filter.should[0];
    assert_eq!(contents.must.len(), 1);
    match &contents.must[0] {
        Condition::TableNameEq(t) => assert_eq!(t, "contents"),
        _ => panic!("the contents branch starts with its table condition"),
    }
    let uploads = &filter.should[1];
    assert_eq!(uploads.must.len(), 2);
    match &uploads.must[0] {
        Condition::TableNameEq(t) => assert_eq!(t, "uploaded_files"),
        _ => panic!("the uploads branch starts with its table condition"),
    }
    match &uploads.must[1] {
        Condition::UserIdEq(u) => assert_eq!(*u, 7),
        _ => panic!("the uploads branch always carries the caller's user id"),
    }
}

#[test]
fn id_lists_narrow_their_branches() {
    let filter = build_retrieval_filter(7, vec![1, 2], vec![3]);
    assert_eq!(filter.should[0].must.len(), 2);
    match &filter.should[0].must[1] {
        Condition::IdIn(ids) => assert_eq!(ids, &vec![1, 2]),
        _ => panic!("the contents branch is narrowed to the given ids"),
    }
    assert_eq!(filter.should[1].must.len(), 3);
    match &filter.should[1].must[2] {
        Condition::IdIn(ids) => assert_eq!(ids, &vec![3]),
        _ => panic!("the uploads branch is narrowed to the given ids"),
    }
}

#[test]
fn uploads_are_scoped_to_the_caller() {
    // Retrieval for user 7: every branch that can admit an
    // uploaded_files point carries the user condition.
    let filter = build_retrieval_filter(7, Vec::new(), Vec::new());
    for clause in &filter.should {
        let mentions_uploads = clause.must.iter().any(|c| match c {
            Condition::TableNameEq(t) => t == "uploaded_files",
            _ => false,
        });
        if mentions_uploads {
            let has_user = clause.must.iter().any(|c| matches!(c, Condition::UserIdEq(7)));
            assert!(has_user, "no result of another user can match this branch");
        }
    }
}

#[test]
fn search_request_defaults() {
    let request = build_search_request(7, Vec::new(), Vec::new(), None);
    assert_eq!(request.collection_name, "silatus_documents");
    assert_eq!(request.limit, DEFAULT_SEARCH_LIMIT);
    assert_eq!(request.limit, 100);
    assert_eq!(request.with_payload, vec!["document_id", "start", "end", "table_name"]);
    assert!(!request.with_vectors);
    let capped = build_search_request(7, Vec::new(), Vec::new(), Some(5));
    assert_eq!(capped.limit, 5);
}
