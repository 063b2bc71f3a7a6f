use firestore_snapshot::commit::{CommitProgress, CommitStep, BATCH_UPDATE_MAX_SIZE};
use firestore_snapshot::path::{ends_with, trim_end_matches, trim_end_separators};
use firestore_snapshot::seed::{
    child_path, generate_writes_for_collection, generate_writes_for_document, seed_collection,
    to_firestore_document, SeedError, SeedPlan,
};
use firestore_snapshot::type_mapping::{
    CollectionData, DocumentData, ValueType, WireDocument, WireValue, WireValueType,
};

fn text(s: &str) -> WireValue {
    WireValue { value_type: Some(WireValueType::StringValue(s.to_string())) }
}

fn document(id: &str, subcollections: Option<Vec<CollectionData>>) -> DocumentData {
    DocumentData {
        id: id.to_string(),
        data: vec![("id".to_string(), ValueType::StringValue(id.to_string()))],
        subcollections,
    }
}

fn users() -> CollectionData {
    CollectionData {
        id: "users".to_string(),
        documents: vec![DocumentData {
            id: "u1".to_string(),
            data: vec![("name".to_string(), ValueType::StringValue("Ann".to_string()))],
            subcollections: None,
        }],
    }
}

fn nested() -> CollectionData {
    CollectionData {
        id: "a".to_string(),
        documents: vec![
            document(
                "1",
                Some(vec![
                    CollectionData {
                        id: "x".to_string(),
                        documents: vec![document("p", None), document("q", Some(vec![]))],
                    },
                    CollectionData { id: "y".to_string(), documents: vec![document("r", None)] },
                ]),
            ),
            document("2", None),
        ],
    }
}

fn names(writes: &Vec<WireDocument>) -> Vec<String> {
    writes.iter().map(|w| w.name.clone()).collect()
}

#[test]
fn one_document_gives_one_write() {
    let writes = generate_writes_for_collection(&users(), "/root");
    assert_eq!(
        writes,
        vec![WireDocument {
            name: "/root/users/u1".to_string(),
            fields: vec![("name".to_string(), text("Ann"))],
        }]
    );
}

#[test]
fn writes_come_parents_first_and_siblings_in_order() {
    let writes = generate_writes_for_collection(&nested(), "/root/");
    assert_eq!(
        names(&writes),
        vec![
            "/root/a/1",
            "/root/a/1/x/p",
            "/root/a/1/x/q",
            "/root/a/1/y/r",
            "/root/a/2",
        ]
    );
    assert_eq!(writes[3].fields, vec![("id".to_string(), text("r"))]);
}

#[test]
fn planning_twice_gives_the_same_writes() {
    let tree = nested();
    assert_eq!(
        generate_writes_for_collection(&tree, "/p"),
        generate_writes_for_collection(&tree, "/p")
    );
}

#[test]
fn empty_collection_gives_no_write() {
    let empty = CollectionData { id: "none".to_string(), documents: vec![] };
    assert_eq!(generate_writes_for_collection(&empty, "/root"), Vec::<WireDocument>::new());
}

#[test]
fn document_writes_start_with_its_own() {
    let doc = document("d", Some(vec![users()]));
    let writes = generate_writes_for_document(&doc, "/c//");
    assert_eq!(names(&writes), vec!["/c/d", "/c/d/users/u1"]);
    assert_eq!(to_firestore_document(&doc, "/c//"), writes[0]);
}

#[test]
fn child_paths() {
    assert_eq!(child_path("/root", "users"), "/root/users");
    assert_eq!(child_path("/root///", "users"), "/root/users");
    assert_eq!(child_path("", "users"), "/users");
    assert_eq!(child_path("/", "users"), "/users");
    assert_eq!(trim_end_separators("a/b//"), "a/b");
}

#[test]
fn suffix_trimming() {
    assert!(ends_with("abc/documents", "/documents"));
    assert!(!ends_with("documents", "/documents"));
    assert!(ends_with("x", ""));
    assert_eq!(trim_end_matches("db/documents", "/documents"), "db");
    assert_eq!(trim_end_matches("db/documents/documents", "/documents"), "db");
    assert_eq!(trim_end_matches("db/documents/x", "/documents"), "db/documents/x");
    assert_eq!(trim_end_matches("db", ""), "db");
    assert_eq!(trim_end_matches("/documents", "/documents"), "");
}

#[test]
fn seed_refuses_a_collection_path() {
    let base = "projects/p/databases/(default)/documents";
    assert_eq!(seed_collection(base, &users(), "/coll"), Err(SeedError::InvalidPath));
    assert_eq!(seed_collection(base, &users(), "/coll/1/sub/"), Err(SeedError::InvalidPath));
}

#[test]
fn seed_plans_under_root_and_under_a_document() {
    let base = "projects/p/databases/(default)/documents";
    let at_root = seed_collection(base, &users(), "/").unwrap();
    assert_eq!(at_root.database_path, "projects/p/databases/(default)");
    assert_eq!(
        names(&at_root.operations),
        vec!["projects/p/databases/(default)/documents/users/u1"]
    );
    let under_doc = seed_collection(base, &users(), "/coll/123/").unwrap();
    assert_eq!(
        under_doc,
        SeedPlan {
            database_path: "projects/p/databases/(default)".to_string(),
            operations: vec![WireDocument {
                name: "projects/p/databases/(default)/documents/coll/123/users/u1".to_string(),
                fields: vec![("name".to_string(), text("Ann"))],
            }],
        }
    );
}

#[test]
fn error_messages() {
    assert_eq!(
        SeedError::InvalidPath.message(),
        "Invalid path to the parent document. Path can either be a root path('/') or path to existing document.\n"
    );
    assert_eq!(SeedError::FirestoreClientError("deadline".to_string()).message(), "deadline");
}

#[test]
fn twelve_hundred_writes_take_three_transactions() {
    let mut progress = CommitProgress::new(1200);
    assert_eq!(progress.next(), CommitStep::Batch { start: 0, end: 500 });
    assert_eq!(progress.advance(Ok(())), Ok(CommitStep::Batch { start: 500, end: 1000 }));
    assert_eq!(progress.advance(Ok(())), Ok(CommitStep::Batch { start: 1000, end: 1200 }));
    assert_eq!(progress.advance(Ok(())), Ok(CommitStep::Finished { records: 1200 }));
    assert_eq!(progress, CommitProgress { total: 1200, transactions: 3, committed: 1200 });
    assert_eq!(progress.next(), CommitStep::Finished { records: 1200 });
}

#[test]
fn failure_of_the_second_transaction_leaves_the_first() {
    let mut progress = CommitProgress::new(1200);
    assert_eq!(progress.advance(Ok(())), Ok(CommitStep::Batch { start: 500, end: 1000 }));
    assert_eq!(
        progress.advance(Err("aborted".to_string())),
        Err(SeedError::FirestoreClientError("aborted".to_string()))
    );
    assert_eq!(progress, CommitProgress { total: 1200, transactions: 1, committed: 500 });
}

#[test]
fn failure_of_the_first_transaction_leaves_nothing() {
    let mut progress = CommitProgress::new(3);
    assert_eq!(progress.next(), CommitStep::Batch { start: 0, end: 3 });
    assert_eq!(
        progress.advance(Err("refused".to_string())),
        Err(SeedError::FirestoreClientError("refused".to_string()))
    );
    assert_eq!(progress, CommitProgress { total: 3, transactions: 0, committed: 0 });
}

fn transactions_for(total: usize) -> (usize, usize) {
    let mut progress = CommitProgress::new(total);
    let mut step = progress.next();
    loop {
        match step {
            CommitStep::Batch { start, end } => {
                assert!(start < end && end - start <= BATCH_UPDATE_MAX_SIZE);
                assert_eq!(start, progress.committed);
                step = progress.advance(Ok(())).unwrap();
            }
            CommitStep::Finished { records } => return (progress.transactions, records),
        }
    }
}

#[test]
fn transaction_counts() {
    assert_eq!(BATCH_UPDATE_MAX_SIZE, 500);
    assert_eq!(transactions_for(0), (0, 0));
    assert_eq!(transactions_for(1), (1, 1));
    assert_eq!(transactions_for(499), (1, 499));
    assert_eq!(transactions_for(500), (1, 500));
    assert_eq!(transactions_for(501), (2, 501));
    assert_eq!(transactions_for(1000), (2, 1000));
    assert_eq!(transactions_for(1200), (3, 1200));
}

#[test]
fn nothing_to_commit_finishes_at_once() {
    let mut progress = CommitProgress::new(0);
    assert_eq!(progress.next(), CommitStep::Finished { records: 0 });
    assert_eq!(
        progress.advance(Err("late".to_string())),
        Ok(CommitStep::Finished { records: 0 })
    );
}

#[test]
fn one_write_for_each_document_of_the_tree() {
    assert_eq!(generate_writes_for_collection(&nested(), "/").len(), 5);
    assert_eq!(generate_writes_for_collection(&users(), "").len(), 1);
    assert_eq!(names(&generate_writes_for_collection(&users(), "")), vec!["/users/u1"]);
}

#[test]
fn states_of_a_commit() {
    assert!(CommitProgress::new(0).is_well_formed());
    assert!(CommitProgress::new(1200).is_well_formed());
    assert!(CommitProgress { total: 1200, transactions: 2, committed: 1000 }.is_well_formed());
    assert!(CommitProgress { total: 1200, transactions: 3, committed: 1200 }.is_well_formed());
    assert!(CommitProgress { total: 1000, transactions: 2, committed: 1000 }.is_well_formed());
    assert!(!CommitProgress { total: 1200, transactions: 4, committed: 1200 }.is_well_formed());
    assert!(!CommitProgress { total: 1000, transactions: 3, committed: 1000 }.is_well_formed());
    assert!(!CommitProgress { total: 1200, transactions: 1, committed: 400 }.is_well_formed());
    assert!(!CommitProgress { total: 1200, transactions: 3, committed: 1500 }.is_well_formed());
    assert!(!CommitProgress { total: 0, transactions: 1, committed: 0 }.is_well_formed());
}
