//! Navigation of the resource hierarchy while a collection is fetched.

use crate::path::{
    join_path, last_separator, lemma_last_separator_at, lemma_last_separator_is_last,
    lemma_trim_of_joined, spec_join, spec_last_separator, spec_no_separator,
    spec_proper_segments, spec_separators, spec_trim, trim_separators,
};
use crate::type_mapping::{
    from_firestore_fields, spec_from_provider_fields, spec_provider_entries, spec_tagged_entries,
    CollectionData, DocumentData, WireDocument,
};
use crate::well_formed::{
    lemma_from_provider_fields_well_formed, spec_well_formed_collection,
    spec_well_formed_document, spec_well_formed_provider_entries,
};
use vstd::prelude::*;

verus! {

/// What splitting a path gives: the parent path and the leaf identifier.
///
/// The path is first trimmed of separators at both ends. The leaf is what
/// follows its last separator; the parent is a separator followed by what
/// precedes that one. A path of one segment has the root, a lone separator,
/// as its parent.
pub open spec fn spec_split_path(path: Seq<char>) -> (Seq<char>, Seq<char>) {
    let trimmed = spec_trim(path);
    let k = spec_last_separator(trimmed);
    if k < 0 {
        (seq!['/'], trimmed)
    } else {
        (seq!['/'] + trimmed.subrange(0, k), trimmed.subrange(k + 1, trimmed.len() as int))
    }
}

/// Splits a fully qualified path into the parent path and the leaf
/// identifier.
pub fn split_path(path: &str) -> (res: (String, String))
    ensures
        res.0@ == spec_split_path(path@).0,
        res.1@ == spec_split_path(path@).1,
        spec_no_separator(res.1@),
{
    let trimmed = trim_separators(path);
    proof {
        lemma_leaf_is_one_segment(path@);
        reveal_strlit("/");
        assert("/"@ =~= seq!['/']);
    }
    match last_separator(trimmed) {
        None => (String::from_str("/"), String::from_str(trimmed)),
        Some(k) => {
            let n: usize = trimmed.unicode_len();
            let parent = String::from_str("/").concat(trimmed.substring_char(0, k));
            let leaf = String::from_str(trimmed.substring_char(k + 1, n));
            (parent, leaf)
        },
    }
}

/// The leaf of a split path is a single segment: it holds no separator.
pub proof fn lemma_leaf_is_one_segment(path: Seq<char>)
    ensures
        spec_no_separator(spec_split_path(path).1),
{
    let trimmed = spec_trim(path);
    lemma_last_separator_is_last(trimmed);
}

/// Splitting a path made of one or more proper segments, with any number
/// of separators before and behind, gives the last segment as the leaf. The
/// parent is the root for a single segment; otherwise it is one separator
/// followed by the other segments, joined.
pub proof fn lemma_split_path_of_joined(segments: Seq<Seq<char>>, leading: nat, trailing: nat)
    requires
        segments.len() >= 1,
        spec_proper_segments(segments),
    ensures
        spec_split_path(
            spec_separators(leading) + spec_join(segments) + spec_separators(trailing),
        ) == (
            if segments.len() == 1 {
                seq!['/']
            } else {
                seq!['/'] + spec_join(segments.drop_last())
            },
            segments.last(),
        ),
{
    let joined = spec_join(segments);
    let last = segments.last();
    lemma_trim_of_joined(segments, leading, trailing);
    assert(last == segments[segments.len() - 1]);
    if segments.len() == 1 {
        lemma_last_separator_at(joined, -1);
    } else {
        let front = spec_join(segments.drop_last());
        assert(joined == front + seq!['/'] + last);
        assert forall|j: int| front.len() < j < joined.len() implies joined[j] != '/' by {
            assert(joined[j] == last[j - front.len() - 1]);
        }
        lemma_last_separator_at(joined, front.len() as int);
        assert(joined.subrange(0, front.len() as int) =~= front);
        assert(joined.subrange(front.len() as int + 1, joined.len() as int) =~= last);
    }
}

/// The number of entries asked for in one listing.
pub const PAGE_SIZE: i32 = 400;

/// What is asked of the database to list the documents of a collection.
#[derive(Debug, PartialEq)]
pub struct ListDocumentsQuery {
    /// The path of the collection's parent, without separators around it.
    pub parent: String,
    pub collection_id: String,
    pub page_size: i32,
    pub page_token: String,
    pub order_by: String,
    /// Documents that hold nothing but nested collections are listed too.
    pub show_missing: bool,
}

/// What is asked of the database to list the collections under a document.
#[derive(Debug, PartialEq)]
pub struct ListCollectionIdsQuery {
    pub parent: String,
    pub page_size: i32,
    pub page_token: String,
}

/// The listing of the first page of the collection at `full_path`.
pub fn list_documents_query(full_path: &str) -> (res: ListDocumentsQuery)
    ensures
        res.parent@ == spec_trim(spec_split_path(full_path@).0),
        res.collection_id@ == spec_split_path(full_path@).1,
        res.page_size == PAGE_SIZE,
        res.page_token@ == Seq::<char>::empty(),
        res.order_by@ == Seq::<char>::empty(),
        res.show_missing,
{
    let (parent_path, collection_id) = split_path(full_path);
    let parent = String::from_str(trim_separators(parent_path.as_str()));
    ListDocumentsQuery {
        parent,
        collection_id,
        page_size: PAGE_SIZE,
        page_token: String::new(),
        order_by: String::new(),
        show_missing: true,
    }
}

/// The listing of the first page of the collections under the document at
/// `doc_path`.
pub fn list_collection_ids_query(doc_path: &str) -> (res: ListCollectionIdsQuery)
    ensures
        res.parent@ == doc_path@,
        res.page_size == PAGE_SIZE,
        res.page_token@ == Seq::<char>::empty(),
{
    ListCollectionIdsQuery {
        parent: String::from_str(doc_path),
        page_size: PAGE_SIZE,
        page_token: String::new(),
    }
}

/// The paths of the collections `collection_ids` under the document at
/// `doc_path`, in their order.
pub fn subcollection_paths(doc_path: &str, collection_ids: &Vec<String>) -> (res: Vec<String>)
    ensures
        res.len() == collection_ids.len(),
        forall|i: int|
            0 <= i < res.len() ==> (#[trigger] res[i])@ == doc_path@ + seq!['/']
                + collection_ids[i]@,
{
    let mut out: Vec<String> = Vec::new();
    let mut i: usize = 0;
    while i < collection_ids.len()
        invariant
            i <= collection_ids.len(),
            out.len() == i,
            forall|j: int|
                0 <= j < i ==> (#[trigger] out[j])@ == doc_path@ + seq!['/'] + collection_ids[j]@,
        decreases collection_ids.len() - i,
    {
        out.push(join_path(doc_path, collection_ids[i].as_str()));
        i += 1;
    }
    out
}

/// Those of `results` that hold a value, in their order.
pub open spec fn spec_successes<T>(results: Seq<Option<T>>) -> Seq<T>
    decreases results.len(),
{
    if results.len() == 0 {
        Seq::empty()
    } else {
        let front = spec_successes(results.drop_last());
        match results.last() {
            Some(value) => front.push(value),
            None => front,
        }
    }
}

/// Every value that is kept was brought by one of the fetches, and no more
/// are kept than were fetched.
pub proof fn lemma_successes_were_fetched<T>(results: Seq<Option<T>>)
    ensures
        spec_successes(results).len() <= results.len(),
        forall|k: int|
            0 <= k < spec_successes(results).len() ==> exists|i: int|
                0 <= i < results.len() && #[trigger] results[i] == Some(
                    #[trigger] spec_successes(results)[k],
                ),
    decreases results.len(),
{
    if results.len() > 0 {
        let front = results.drop_last();
        lemma_successes_were_fetched(front);
        let kept = spec_successes(front);
        let out = spec_successes(results);
        assert forall|k: int| 0 <= k < out.len() implies exists|i: int|
            0 <= i < results.len() && #[trigger] results[i] == Some(#[trigger] out[k]) by {
            if k < kept.len() {
                let i = choose|i: int| 0 <= i < front.len() && #[trigger] front[i] == Some(kept[k]);
                assert(results[i] == front[i]);
                assert(out[k] == kept[k]);
            } else {
                assert(results[results.len() - 1] == Some(out[k]));
            }
        }
    }
}

/// Keeps the fetches that brought something, in their order, and drops the
/// others.
pub fn successes<T>(results: Vec<Option<T>>) -> (res: Vec<T>)
    ensures
        res@ == spec_successes(results@),
{
    let ghost all = results@;
    let mut out: Vec<T> = Vec::new();
    for result in iter: results
        invariant
            iter.seq() == all,
            out@ == spec_successes(all.subrange(0, iter.index() as int)),
    {
        proof {
            let next = all.subrange(0, iter.index() + 1);
            assert(next.drop_last() =~= all.subrange(0, iter.index() as int));
            assert(next.last() == result);
        }
        match result {
            Some(value) => out.push(value),
            None => {},
        }
    }
    proof {
        assert(all.subrange(0, all.len() as int) =~= all);
    }
    out
}

/// The document of a snapshot that stands for the fetched `item`: its
/// identifier is the leaf of the item's path, its fields are those of the
/// item that carry a payload, and its nested collections are those given.
pub fn firestore_doc_to_document_data(
    item: &WireDocument,
    subcollections: Option<Vec<CollectionData>>,
) -> (res: DocumentData)
    ensures
        res.id@ == spec_split_path(item.name@).1,
        spec_tagged_entries(res.data@) == spec_from_provider_fields(
            spec_provider_entries(item.fields@),
        ),
        res.subcollections == subcollections,
        ({
            &&& spec_split_path(item.name@).1.len() > 0
            &&& spec_well_formed_provider_entries(item@.fields)
            &&& match subcollections {
                Some(collections) => forall|i: int|
                    0 <= i < collections.len() ==> spec_well_formed_collection(
                        (#[trigger] collections[i])@,
                    ),
                None => true,
            }
        }) ==> spec_well_formed_document(res@),
{
    let (_, id) = split_path(item.name.as_str());
    let data = from_firestore_fields(&item.fields);
    proof {
        if spec_well_formed_provider_entries(item@.fields) {
            lemma_from_provider_fields_well_formed(item@.fields);
        }
    }
    DocumentData { id, data, subcollections }
}

/// The nested collections of a document, from the fetches of each of them.
/// A document under which no collection was listed has none at all; one
/// under which some were listed has those whose fetch brought something.
pub fn collect_document_collections(results: Vec<Option<CollectionData>>) -> (res: Option<
    Vec<CollectionData>,
>)
    ensures
        results.len() == 0 ==> res.is_none(),
        results.len() > 0 ==> res.is_some() && res.unwrap()@ == spec_successes(results@),
{
    if results.len() == 0 {
        None
    } else {
        Some(successes(results))
    }
}

/// The collection fetched at `full_path`, from the fetches of each of its
/// documents: its identifier is the leaf of the path, its documents are
/// those whose fetch brought something.
pub fn collect_collection(full_path: &str, results: Vec<Option<DocumentData>>) -> (res:
    CollectionData)
    ensures
        res.id@ == spec_split_path(full_path@).1,
        spec_no_separator(res.id@),
        res.documents@ == spec_successes(results@),
        (forall|i: int|
            0 <= i < results.len() ==> match #[trigger] results[i] {
                Some(document) => spec_well_formed_document(document@),
                None => true,
            }) ==> spec_well_formed_collection(res@),
{
    let (_, collection_id) = split_path(full_path);
    let ghost fetched = results@;
    let documents = successes(results);
    proof {
        lemma_successes_were_fetched(fetched);
        if forall|i: int|
            0 <= i < fetched.len() ==> match #[trigger] fetched[i] {
                Some(document) => spec_well_formed_document(document@),
                None => true,
            } {
            assert forall|k: int| 0 <= k < documents.len() implies spec_well_formed_document(
                (#[trigger] documents[k])@,
            ) by {
                let i = choose|i: int|
                    0 <= i < fetched.len() && #[trigger] fetched[i] == Some(documents@[k]);
                assert(spec_well_formed_document(documents@[k]@));
            }
        }
    }
    CollectionData { id: collection_id, documents }
}

} // verus!
