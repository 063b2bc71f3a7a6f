use firestore_snapshot::collect::split_path;
use firestore_snapshot::path::{join_path, segment_count, trim_separators};
use firestore_snapshot::seed::validate_document_path;

#[test]
fn split_path_test() {
    let (base_path, collection_id) = split_path("collection");
    assert_eq!(base_path, "/");
    assert_eq!(collection_id, "collection");
    let (base_path, collection_id) = split_path("/collection");
    assert_eq!(base_path, "/");
    assert_eq!(collection_id, "collection");

    let (base_path, collection_id) = split_path("base/id/collection");
    assert_eq!(base_path, "/base/id");
    assert_eq!(collection_id, "collection");

    let (base_path, collection_id) = split_path("/base/id/collection");
    assert_eq!(base_path, "/base/id");
    assert_eq!(collection_id, "collection");
}

#[test]
fn test_path_validation() {
    assert!(validate_document_path("/"));
    assert!(validate_document_path("/coll/123"));
    assert!(validate_document_path("/coll/123/subcol/456"));
    assert!(!validate_document_path("/col"));
    assert!(!validate_document_path("/coll/123/col"));
    assert!(!validate_document_path("/coll/123/subcol/456/col"));
    assert!(validate_document_path("/coll/123/"));
    assert!(validate_document_path("/coll/123/subcol/456/"));
    assert!(!validate_document_path("/col/"));
    assert!(!validate_document_path("/coll/123/col/"));
    assert!(!validate_document_path("/coll/123/subcol/456/col/"));
}

#[test]
fn split_path_ignores_separators_at_both_ends() {
    for path in ["a/b/c", "/a/b/c", "a/b/c/", "//a/b/c///"] {
        let (parent, leaf) = split_path(path);
        assert_eq!(parent, "/a/b");
        assert_eq!(leaf, "c");
    }
    for path in ["users", "/users", "users/", "///users//"] {
        let (parent, leaf) = split_path(path);
        assert_eq!(parent, "/");
        assert_eq!(leaf, "users");
    }
}

#[test]
fn split_path_keeps_empty_inner_segments() {
    let (parent, leaf) = split_path("a//b");
    assert_eq!(parent, "/a/");
    assert_eq!(leaf, "b");
}

#[test]
fn split_path_of_nothing_is_root_and_empty_leaf() {
    for path in ["", "/", "///"] {
        let (parent, leaf) = split_path(path);
        assert_eq!(parent, "/");
        assert_eq!(leaf, "");
    }
}

#[test]
fn split_path_handles_wide_characters() {
    let (parent, leaf) = split_path("/città/é/名前/");
    assert_eq!(parent, "/città/é");
    assert_eq!(leaf, "名前");
}

#[test]
fn path_validation_examples() {
    assert!(validate_document_path("/coll/123"));
    assert!(!validate_document_path("/coll"));
    assert!(!validate_document_path("/coll/123/sub"));
    assert!(validate_document_path("/coll/123/sub/456"));
    assert!(validate_document_path(""));
    assert!(validate_document_path("//"));
    assert!(validate_document_path("coll//123"));
}

#[test]
fn segment_count_counts_runs() {
    assert_eq!(segment_count(""), 0);
    assert_eq!(segment_count("/"), 0);
    assert_eq!(segment_count("a"), 1);
    assert_eq!(segment_count("/a/b/"), 2);
    assert_eq!(segment_count("a//b///c"), 3);
    assert_eq!(segment_count("/coll/123/subcol/456/col//"), 5);
}

#[test]
fn trimming_and_joining() {
    assert_eq!(trim_separators("//a/b//"), "a/b");
    assert_eq!(trim_separators("///"), "");
    assert_eq!(trim_separators("a"), "a");
    assert_eq!(join_path("/root", "users"), "/root/users");
    assert_eq!(join_path("", "users"), "/users");
}

#[test]
fn documents_path_of_a_project() {
    assert_eq!(
        firestore_snapshot::path::documents_path("demo"),
        "projects/demo/databases/(default)/documents"
    );
    assert_eq!(
        firestore_snapshot::path::documents_path(""),
        "projects//databases/(default)/documents"
    );
}
