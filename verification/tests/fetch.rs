use firestore_snapshot::collect::{
    collect_collection, collect_document_collections, firestore_doc_to_document_data,
    list_collection_ids_query, list_documents_query, subcollection_paths, successes,
    ListCollectionIdsQuery, ListDocumentsQuery, PAGE_SIZE,
};
use firestore_snapshot::type_mapping::{
    CollectionData, DocumentData, ValueType, WireDocument, WireValue, WireValueType,
};

fn collection(id: &str) -> CollectionData {
    CollectionData { id: id.to_string(), documents: vec![] }
}

fn document(id: &str) -> DocumentData {
    DocumentData { id: id.to_string(), data: vec![], subcollections: None }
}

#[test]
fn documents_are_listed_under_the_trimmed_parent() {
    assert_eq!(PAGE_SIZE, 400);
    assert_eq!(
        list_documents_query("projects/p/databases/(default)/documents/users"),
        ListDocumentsQuery {
            parent: "projects/p/databases/(default)/documents".to_string(),
            collection_id: "users".to_string(),
            page_size: 400,
            page_token: String::new(),
            order_by: String::new(),
            show_missing: true,
        }
    );
    let top = list_documents_query("/users/");
    assert_eq!(top.parent, "");
    assert_eq!(top.collection_id, "users");
}

#[test]
fn collections_are_listed_under_the_document() {
    assert_eq!(
        list_collection_ids_query("base/users/u1"),
        ListCollectionIdsQuery {
            parent: "base/users/u1".to_string(),
            page_size: 400,
            page_token: String::new(),
        }
    );
}

#[test]
fn subcollection_paths_append_the_identifier() {
    let ids = vec!["posts".to_string(), "likes".to_string()];
    assert_eq!(
        subcollection_paths("base/users/u1", &ids),
        vec!["base/users/u1/posts", "base/users/u1/likes"]
    );
    assert_eq!(subcollection_paths("base/", &vec!["x".to_string()]), vec!["base//x"]);
    assert_eq!(subcollection_paths("base", &vec![]), Vec::<String>::new());
}

#[test]
fn failed_fetches_are_dropped() {
    assert_eq!(successes(vec![Some(1), None, Some(3), None]), vec![1, 3]);
    assert_eq!(successes(vec![None::<u8>, None]), Vec::<u8>::new());
    assert_eq!(successes(Vec::<Option<u8>>::new()), Vec::<u8>::new());
}

#[test]
fn no_listed_collection_means_none() {
    assert_eq!(collect_document_collections(vec![]), None);
    assert_eq!(collect_document_collections(vec![None]), Some(vec![]));
    assert_eq!(
        collect_document_collections(vec![Some(collection("a")), None, Some(collection("b"))]),
        Some(vec![collection("a"), collection("b")])
    );
}

#[test]
fn fetched_document_becomes_snapshot_document() {
    let item = WireDocument {
        name: "projects/p/databases/(default)/documents/users/u1".to_string(),
        fields: vec![
            (
                "name".to_string(),
                WireValue { value_type: Some(WireValueType::StringValue("Ann".to_string())) },
            ),
            ("ghost".to_string(), WireValue { value_type: None }),
        ],
    };
    assert_eq!(
        firestore_doc_to_document_data(&item, Some(vec![collection("posts")])),
        DocumentData {
            id: "u1".to_string(),
            data: vec![("name".to_string(), ValueType::StringValue("Ann".to_string()))],
            subcollections: Some(vec![collection("posts")]),
        }
    );
    assert_eq!(firestore_doc_to_document_data(&item, None).subcollections, None);
}

#[test]
fn fetched_collection_is_named_by_its_leaf() {
    assert_eq!(
        collect_collection("/base/users/", vec![Some(document("u1")), None, Some(document("u2"))]),
        CollectionData { id: "users".to_string(), documents: vec![document("u1"), document("u2")] }
    );
}
