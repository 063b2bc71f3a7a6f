//! The restore side: validation of the target path and the write plan of a
//! snapshot.

use crate::path::{
    join_path, lemma_segment_count_ignores_trailing, lemma_segment_count_of_joined,
    segment_count, spec_join, spec_proper_segments, spec_segment_count, spec_separators,
    spec_trim, spec_trim_end, spec_trim_end_matches, trim_end_matches, trim_end_separators,
    trim_separators,
};
use crate::type_mapping::{
    spec_collections, spec_documents, spec_provider_entries, spec_tagged_entries,
    spec_to_provider_fields, to_firestore_fields, CollectionData, CollectionModel, DocumentData,
    DocumentModel, ProviderDocument, WireDocument,
};
use vstd::prelude::*;

verus! {

/// Why a restore failed.
#[derive(Debug, PartialEq)]
pub enum SeedError {
    /// The target names neither the root nor a document.
    InvalidPath,
    /// The database refused a request; the text is what it reported.
    FirestoreClientError(String),
}

impl SeedError {
    /// The text of the error, as shown to a user.
    pub fn message(&self) -> (res: String)
        ensures
            match *self {
                SeedError::InvalidPath => res@
                    == "Invalid path to the parent document. Path can either be a root path('/') or path to existing document.\n"@,
                SeedError::FirestoreClientError(reported) => res@ == reported@,
            },
    {
        match self {
            SeedError::InvalidPath => String::from_str(
                "Invalid path to the parent document. Path can either be a root path('/') or path to existing document.\n",
            ),
            SeedError::FirestoreClientError(reported) => reported.clone(),
        }
    }
}

/// A path can take a new collection when it names the root or a document:
/// its non-empty segments pair up, collection and identifier in turn.
pub open spec fn spec_valid_document_path(path: Seq<char>) -> bool {
    spec_segment_count(path) % 2 == 0
}

/// Tells whether `path` names the root or a document, under which a
/// collection can be restored.
pub fn validate_document_path(path: &str) -> (res: bool)
    ensures
        res == spec_valid_document_path(path@),
{
    segment_count(path) % 2 == 0
}

/// Separators appended to a path change nothing in whether it is valid.
pub proof fn lemma_valid_path_ignores_trailing(path: Seq<char>, trailing: nat)
    ensures
        spec_valid_document_path(path + spec_separators(trailing)) == spec_valid_document_path(
            path,
        ),
{
    lemma_segment_count_ignores_trailing(path, trailing);
}

/// A path made of proper segments, with any number of separators before
/// and behind, is valid exactly when the number of its segments is even:
/// the root, which has none, and every document, but no collection.
pub proof fn lemma_valid_path_of_joined(segments: Seq<Seq<char>>, leading: nat, trailing: nat)
    requires
        spec_proper_segments(segments),
    ensures
        spec_valid_document_path(
            spec_separators(leading) + spec_join(segments) + spec_separators(trailing),
        ) == (segments.len() % 2 == 0),
{
    lemma_segment_count_of_joined(segments, leading, trailing);
}

/// The path of the child `id` under `parent`: the parent without its
/// trailing separators, one separator, the identifier.
pub open spec fn spec_child_path(parent: Seq<char>, id: Seq<char>) -> Seq<char> {
    spec_trim_end(parent) + seq!['/'] + id
}

/// The path of the child `id` under `parent`.
pub fn child_path(parent: &str, id: &str) -> (res: String)
    ensures
        res@ == spec_child_path(parent@, id@),
{
    join_path(trim_end_separators(parent), id)
}

/// The models of a list of wire documents.
pub open spec fn spec_wire_documents(documents: Seq<WireDocument>) -> Seq<ProviderDocument> {
    Seq::new(documents.len(), |i: int| documents[i]@)
}

/// The write that restores one document of a collection at
/// `collection_path`: all its fields, under the document's own path.
pub open spec fn spec_to_provider_document(
    document: DocumentModel,
    collection_path: Seq<char>,
) -> ProviderDocument {
    ProviderDocument {
        name: spec_child_path(collection_path, document.id),
        fields: spec_to_provider_fields(document.data),
    }
}

/// The writes that restore a collection under `parent_path`: those of its
/// documents, in their order, each addressed under the collection's path.
pub open spec fn spec_collection_writes(
    collection: CollectionModel,
    parent_path: Seq<char>,
) -> Seq<ProviderDocument>
    decreases collection,
{
    spec_documents_writes(collection.documents, spec_child_path(parent_path, collection.id))
}

/// The writes of the documents of one collection, one document after the
/// other.
pub open spec fn spec_documents_writes(
    documents: Seq<DocumentModel>,
    collection_path: Seq<char>,
) -> Seq<ProviderDocument>
    decreases documents,
{
    if documents.len() == 0 {
        Seq::empty()
    } else {
        spec_documents_writes(documents.drop_last(), collection_path) + spec_document_writes(
            documents.last(),
            collection_path,
        )
    }
}

/// The writes that restore a document: its own write first, then those of
/// its nested collections, in their order, addressed under its path.
pub open spec fn spec_document_writes(
    document: DocumentModel,
    collection_path: Seq<char>,
) -> Seq<ProviderDocument>
    decreases document,
{
    let own = spec_to_provider_document(document, collection_path);
    seq![own] + match document.subcollections {
        Some(collections) => spec_collections_writes(collections, own.name),
        None => Seq::empty(),
    }
}

/// The writes of the collections nested under one document, one collection
/// after the other.
pub open spec fn spec_collections_writes(
    collections: Seq<CollectionModel>,
    document_path: Seq<char>,
) -> Seq<ProviderDocument>
    decreases collections,
{
    if collections.len() == 0 {
        Seq::empty()
    } else {
        spec_collections_writes(collections.drop_last(), document_path) + spec_collection_writes(
            collections.last(),
            document_path,
        )
    }
}

/// The wire document that overwrites `document` in the collection at
/// `parent_path`.
pub fn to_firestore_document(document: &DocumentData, parent_path: &str) -> (res: WireDocument)
    ensures
        res@ == spec_to_provider_document(document@, parent_path@),
{
    let document_path = child_path(parent_path, document.id.as_str());
    let fields = to_firestore_fields(&document.data);
    WireDocument { name: document_path, fields }
}

/// The writes that restore `collection` under `parent_path`, parents
/// before children and siblings in their order.
pub fn generate_writes_for_collection(collection: &CollectionData, parent_path: &str) -> (res: Vec<
    WireDocument,
>)
    ensures
        spec_wire_documents(res@) == spec_collection_writes(collection@, parent_path@),
    decreases collection,
{
    let collection_path = child_path(parent_path, collection.id.as_str());
    let documents = &collection.documents;
    let mut out: Vec<WireDocument> = Vec::new();
    let mut i: usize = 0;
    proof {
        assert(collection@.documents =~= spec_documents(documents@));
        assert(spec_documents(documents@.subrange(0, 0)) =~= Seq::empty());
        assert(spec_wire_documents(out@) =~= Seq::empty());
    }
    while i < documents.len()
        invariant
            i <= documents.len(),
            documents == &collection.documents,
            spec_wire_documents(out@) == spec_documents_writes(
                spec_documents(documents@.subrange(0, i as int)),
                collection_path@,
            ),
        decreases documents.len() - i,
    {
        let ghost before = out@;
        proof {
            let next = spec_documents(documents@.subrange(0, i + 1));
            assert(next.drop_last() =~= spec_documents(documents@.subrange(0, i as int)));
            assert(next.last() == documents@[i as int]@);
            assert(decreases_to!(documents => documents[i as int]));
        }
        let mut writes = generate_writes_for_document(&documents[i], collection_path.as_str());
        let ghost added = writes@;
        out.append(&mut writes);
        proof {
            assert(spec_wire_documents(out@) =~= spec_wire_documents(before) + spec_wire_documents(
                added,
            ));
        }
        i += 1;
    }
    proof {
        assert(documents@.subrange(0, documents.len() as int) =~= documents@);
    }
    out
}

/// The writes that restore `document` in the collection at
/// `collection_path`: its own, then those of its nested collections.
pub fn generate_writes_for_document(document: &DocumentData, collection_path: &str) -> (res: Vec<
    WireDocument,
>)
    ensures
        spec_wire_documents(res@) == spec_document_writes(document@, collection_path@),
    decreases document,
{
    let mut updates: Vec<WireDocument> = Vec::new();
    let firestore_doc = to_firestore_document(document, collection_path);
    let document_path = firestore_doc.name.clone();
    let ghost own = firestore_doc@;
    updates.push(firestore_doc);
    proof {
        assert(spec_wire_documents(updates@) =~= seq![own]);
    }
    match &document.subcollections {
        Some(subcollections) => {
            let mut i: usize = 0;
            proof {
                assert(document@.subcollections->0 =~= spec_collections(subcollections@));
                assert(spec_collections(subcollections@.subrange(0, 0)) =~= Seq::empty());
            }
            while i < subcollections.len()
                invariant
                    i <= subcollections.len(),
                    document.subcollections == Some(*subcollections),
                    document_path@ == own.name,
                    spec_wire_documents(updates@) == seq![own] + spec_collections_writes(
                        spec_collections(subcollections@.subrange(0, i as int)),
                        own.name,
                    ),
                decreases subcollections.len() - i,
            {
                let ghost before = updates@;
                proof {
                    let next = spec_collections(subcollections@.subrange(0, i + 1));
                    assert(next.drop_last() =~= spec_collections(
                        subcollections@.subrange(0, i as int),
                    ));
                    assert(next.last() == subcollections@[i as int]@);
                    assert(decreases_to!(subcollections => subcollections[i as int]));
                    assert(decreases_to!(document.subcollections => document.subcollections->0));
                }
                let mut writes = generate_writes_for_collection(
                    &subcollections[i],
                    document_path.as_str(),
                );
                let ghost added = writes@;
                updates.append(&mut writes);
                proof {
                    assert(spec_wire_documents(updates@) =~= spec_wire_documents(before)
                        + spec_wire_documents(added));
                    let front = spec_collections_writes(
                        spec_collections(subcollections@.subrange(0, i as int)),
                        own.name,
                    );
                    assert((seq![own] + front) + spec_wire_documents(added) =~= seq![own] + (front
                        + spec_wire_documents(added)));
                }
                i += 1;
            }
            proof {
                assert(subcollections@.subrange(0, subcollections.len() as int)
                    =~= subcollections@);
            }
        },
        None => {
            proof {
                assert(seq![own] + Seq::<ProviderDocument>::empty() =~= seq![own]);
            }
        },
    }
    updates
}

/// Two write plans of one tree under one parent path are the same list of
/// writes.
pub proof fn lemma_writes_deterministic(
    collection: CollectionData,
    parent_path: Seq<char>,
    first: Seq<WireDocument>,
    second: Seq<WireDocument>,
)
    requires
        spec_wire_documents(first) == spec_collection_writes(collection@, parent_path),
        spec_wire_documents(second) == spec_collection_writes(collection@, parent_path),
    ensures
        spec_wire_documents(first) == spec_wire_documents(second),
        first.len() == second.len(),
{
    assert(spec_wire_documents(first).len() == first.len());
    assert(spec_wire_documents(second).len() == second.len());
}

/// The number of documents of a collection, those of its nested
/// collections included.
pub open spec fn spec_collection_size(collection: CollectionModel) -> nat
    decreases collection,
{
    spec_documents_size(collection.documents)
}

/// The number of documents in and under the given ones.
pub open spec fn spec_documents_size(documents: Seq<DocumentModel>) -> nat
    decreases documents,
{
    if documents.len() == 0 {
        0
    } else {
        spec_documents_size(documents.drop_last()) + spec_document_size(documents.last())
    }
}

/// One for the document, and the number of documents nested under it.
pub open spec fn spec_document_size(document: DocumentModel) -> nat
    decreases document,
{
    1 + match document.subcollections {
        Some(collections) => spec_collections_size(collections),
        None => 0,
    }
}

/// The number of documents of the given collections.
pub open spec fn spec_collections_size(collections: Seq<CollectionModel>) -> nat
    decreases collections,
{
    if collections.len() == 0 {
        0
    } else {
        spec_collections_size(collections.drop_last()) + spec_collection_size(collections.last())
    }
}

/// A collection is restored with one write for each document in it, the
/// nested ones included.
pub proof fn lemma_one_write_per_document(collection: CollectionModel, parent_path: Seq<char>)
    ensures
        spec_collection_writes(collection, parent_path).len() == spec_collection_size(collection),
    decreases collection,
{
    lemma_documents_writes_len(
        collection.documents,
        spec_child_path(parent_path, collection.id),
    );
}

/// The documents of a collection are restored with one write for each
/// document in and under them.
pub proof fn lemma_documents_writes_len(documents: Seq<DocumentModel>, collection_path: Seq<char>)
    ensures
        spec_documents_writes(documents, collection_path).len() == spec_documents_size(documents),
    decreases documents,
{
    if documents.len() > 0 {
        lemma_documents_writes_len(documents.drop_last(), collection_path);
        lemma_document_writes_len(documents.last(), collection_path);
    }
}

/// A document is restored with its own write, which comes first, and one
/// for each document under it.
pub proof fn lemma_document_writes_len(document: DocumentModel, collection_path: Seq<char>)
    ensures
        spec_document_writes(document, collection_path).len() == spec_document_size(document),
        spec_document_writes(document, collection_path)[0] == spec_to_provider_document(
            document,
            collection_path,
        ),
    decreases document,
{
    match document.subcollections {
        Some(collections) => {
            lemma_collections_writes_len(
                collections,
                spec_child_path(collection_path, document.id),
            );
        },
        None => {},
    }
}

/// The collections under a document are restored with one write for each
/// document in them.
pub proof fn lemma_collections_writes_len(
    collections: Seq<CollectionModel>,
    document_path: Seq<char>,
)
    ensures
        spec_collections_writes(collections, document_path).len() == spec_collections_size(
            collections,
        ),
    decreases collections,
{
    if collections.len() > 0 {
        lemma_collections_writes_len(collections.drop_last(), document_path);
        lemma_one_write_per_document(collections.last(), document_path);
    }
}

/// What a restore sends to the database.
#[derive(Debug, PartialEq)]
pub struct SeedPlan {
    /// The database in which the transactions are begun and committed.
    pub database_path: String,
    /// The writes, in the order in which they are committed.
    pub operations: Vec<WireDocument>,
}

/// The database that holds the documents under `base_path`: the base path
/// without the marker of the documents' root at its end.
pub open spec fn spec_database_path(base_path: Seq<char>) -> Seq<char> {
    spec_trim_end_matches(base_path, "/documents"@)
}

/// The full path of the document under which a collection is restored: the
/// base path, one separator, the target without separators around it.
pub open spec fn spec_seed_parent(base_path: Seq<char>, parent_document_path: Seq<char>) -> Seq<
    char,
> {
    base_path + seq!['/'] + spec_trim(parent_document_path)
}

/// Plans the restore of `collection` under the document at
/// `parent_document_path` of the database whose documents lie under
/// `base_path`. A target that names neither the root nor a document is
/// refused; any other gives the database's path and the writes.
pub fn seed_collection(
    base_path: &str,
    collection: &CollectionData,
    parent_document_path: &str,
) -> (res: Result<SeedPlan, SeedError>)
    ensures
        match res {
            Ok(plan) => {
                &&& spec_valid_document_path(parent_document_path@)
                &&& plan.database_path@ == spec_database_path(base_path@)
                &&& spec_wire_documents(plan.operations@) == spec_collection_writes(
                    collection@,
                    spec_seed_parent(base_path@, parent_document_path@),
                )
            },
            Err(error) => {
                &&& !spec_valid_document_path(parent_document_path@)
                &&& error == SeedError::InvalidPath
            },
        },
{
    if !validate_document_path(parent_document_path) {
        return Err(SeedError::InvalidPath);
    }
    let trimmed_parent_path = trim_separators(parent_document_path);
    let database_path = String::from_str(trim_end_matches(base_path, "/documents"));
    let parent_path = join_path(base_path, trimmed_parent_path);
    let operations = generate_writes_for_collection(collection, parent_path.as_str());
    Ok(SeedPlan { database_path, operations })
}

} // verus!
