//! What holds of well-formed data, and what the conversions keep: a name
//! occurs once among the fields of a map or of a document, a document has
//! an identifier, a collection's identifier is a single path segment; and a
//! wire payload in which nothing can be lost survives the way there and back.

use crate::path::spec_no_separator;
use crate::type_mapping::{
    lemma_round_trip, spec_from_provider, spec_from_provider_fields, spec_from_provider_items,
    spec_to_provider, spec_to_provider_fields, spec_to_provider_items, CollectionModel,
    DocumentModel, ProviderValue, TaggedValue,
};
use vstd::prelude::*;

verus! {

/// No two entries have the same name.
pub open spec fn spec_unique_names<T>(entries: Seq<(Seq<char>, T)>) -> bool {
    forall|i: int, j: int|
        0 <= i < j < entries.len() ==> (#[trigger] entries[i]).0 != (#[trigger] entries[j]).0
}

/// Every map in the value, at any depth, has each name once.
pub open spec fn spec_well_formed_value(t: TaggedValue) -> bool
    decreases t,
{
    match t {
        TaggedValue::Array(items) => forall|i: int|
            0 <= i < items.len() ==> spec_well_formed_value(#[trigger] items[i]),
        TaggedValue::Fields(fields) => {
            &&& spec_unique_names(fields)
            &&& forall|i: int|
                0 <= i < fields.len() ==> spec_well_formed_value((#[trigger] fields[i]).1)
        },
        _ => true,
    }
}

/// Each name occurs once, and every value is well-formed.
pub open spec fn spec_well_formed_entries(fields: Seq<(Seq<char>, TaggedValue)>) -> bool {
    &&& spec_unique_names(fields)
    &&& forall|i: int|
        0 <= i < fields.len() ==> spec_well_formed_value((#[trigger] fields[i]).1)
}

/// Every map in the wire payload, at any depth, has each name once.
pub open spec fn spec_well_formed_provider(w: ProviderValue) -> bool
    decreases w,
{
    match w {
        ProviderValue::Array(items) => forall|i: int|
            0 <= i < items.len() ==> match #[trigger] items[i] {
                Some(inner) => spec_well_formed_provider(inner),
                None => true,
            },
        ProviderValue::Fields(fields) => {
            &&& spec_unique_names(fields)
            &&& forall|i: int|
                0 <= i < fields.len() ==> match (#[trigger] fields[i]).1 {
                    Some(inner) => spec_well_formed_provider(inner),
                    None => true,
                }
        },
        _ => true,
    }
}

/// Each name occurs once, and every payload is well-formed.
pub open spec fn spec_well_formed_provider_entries(
    fields: Seq<(Seq<char>, Option<ProviderValue>)>,
) -> bool {
    &&& spec_unique_names(fields)
    &&& forall|i: int|
        0 <= i < fields.len() ==> match (#[trigger] fields[i]).1 {
            Some(inner) => spec_well_formed_provider(inner),
            None => true,
        }
}

/// The document has an identifier, its fields are well-formed, and so are
/// its nested collections.
pub open spec fn spec_well_formed_document(d: DocumentModel) -> bool
    decreases d,
{
    &&& d.id.len() > 0
    &&& spec_well_formed_entries(d.data)
    &&& match d.subcollections {
        Some(collections) => forall|i: int|
            0 <= i < collections.len() ==> spec_well_formed_collection(#[trigger] collections[i]),
        None => true,
    }
}

/// The collection's identifier is a single path segment, and its documents
/// are well-formed.
pub open spec fn spec_well_formed_collection(c: CollectionModel) -> bool
    decreases c,
{
    &&& spec_no_separator(c.id)
    &&& forall|i: int|
        0 <= i < c.documents.len() ==> spec_well_formed_document(#[trigger] c.documents[i])
}

/// Converting to the wire keeps the length, the order and the names, and
/// gives every item its payload.
pub proof fn lemma_to_provider_items_each(items: Seq<TaggedValue>)
    ensures
        spec_to_provider_items(items).len() == items.len(),
        forall|i: int|
            0 <= i < items.len() ==> #[trigger] spec_to_provider_items(items)[i] == Some(
                spec_to_provider(items[i]),
            ),
    decreases items.len(),
{
    if items.len() > 0 {
        lemma_to_provider_items_each(items.drop_last());
    }
}

/// Converting fields to the wire keeps the length, the order and the
/// names, and gives every field its payload.
pub proof fn lemma_to_provider_fields_each(fields: Seq<(Seq<char>, TaggedValue)>)
    ensures
        spec_to_provider_fields(fields).len() == fields.len(),
        forall|i: int|
            0 <= i < fields.len() ==> #[trigger] spec_to_provider_fields(fields)[i] == (
                fields[i].0,
                Some(spec_to_provider(fields[i].1)),
            ),
    decreases fields.len(),
{
    if fields.len() > 0 {
        lemma_to_provider_fields_each(fields.drop_last());
    }
}

/// A well-formed tagged value converts to a well-formed wire payload.
pub proof fn lemma_to_provider_well_formed(t: TaggedValue)
    requires
        spec_well_formed_value(t),
    ensures
        spec_well_formed_provider(spec_to_provider(t)),
    decreases t,
{
    match t {
        TaggedValue::Array(items) => {
            lemma_to_provider_items_each(items);
            let out = spec_to_provider_items(items);
            assert forall|i: int| 0 <= i < out.len() implies match #[trigger] out[i] {
                Some(inner) => spec_well_formed_provider(inner),
                None => true,
            } by {
                assert(spec_well_formed_value(items[i]));
                lemma_to_provider_well_formed(items[i]);
            }
        },
        TaggedValue::Fields(fields) => {
            lemma_to_provider_fields_each(fields);
            let out = spec_to_provider_fields(fields);
            assert forall|i: int| 0 <= i < out.len() implies match (#[trigger] out[i]).1 {
                Some(inner) => spec_well_formed_provider(inner),
                None => true,
            } by {
                assert(spec_well_formed_value(fields[i].1));
                lemma_to_provider_well_formed(fields[i].1);
            }
            assert forall|i: int, j: int| 0 <= i < j < out.len() implies (#[trigger] out[i]).0 != (
            #[trigger] out[j]).0 by {
                assert(fields[i].0 != fields[j].0);
            }
        },
        _ => {},
    }
}

/// A well-formed wire payload converts to a well-formed tagged value.
pub proof fn lemma_from_provider_well_formed(w: ProviderValue)
    requires
        spec_well_formed_provider(w),
    ensures
        spec_well_formed_value(spec_from_provider(w)),
    decreases w,
{
    match w {
        ProviderValue::Array(items) => {
            lemma_from_provider_items_well_formed(items);
            let out = spec_from_provider_items(items);
            assert(spec_from_provider(w) == TaggedValue::Array(out));
            assert forall|i: int| 0 <= i < out.len() implies spec_well_formed_value(
                #[trigger] out[i],
            ) by {}
        },
        ProviderValue::Fields(fields) => {
            lemma_from_provider_fields_well_formed(fields);
            let out = spec_from_provider_fields(fields);
            assert(spec_from_provider(w) == TaggedValue::Fields(out));
            assert(spec_well_formed_entries(out));
        },
        _ => {},
    }
}

/// Well-formed wire items convert to well-formed tagged values.
pub proof fn lemma_from_provider_items_well_formed(items: Seq<Option<ProviderValue>>)
    requires
        forall|i: int|
            0 <= i < items.len() ==> match #[trigger] items[i] {
                Some(inner) => spec_well_formed_provider(inner),
                None => true,
            },
    ensures
        forall|k: int|
            0 <= k < spec_from_provider_items(items).len() ==> spec_well_formed_value(
                #[trigger] spec_from_provider_items(items)[k],
            ),
    decreases items,
{
    if items.len() > 0 {
        let front = items.drop_last();
        assert forall|i: int| 0 <= i < front.len() implies match #[trigger] front[i] {
            Some(inner) => spec_well_formed_provider(inner),
            None => true,
        } by {
            assert(front[i] == items[i]);
        }
        lemma_from_provider_items_well_formed(front);
        let kept = spec_from_provider_items(front);
        let out = spec_from_provider_items(items);
        match items.last() {
            Some(inner) => {
                assert(items[items.len() - 1] == items.last());
                lemma_from_provider_well_formed(inner);
                assert(out == kept.push(spec_from_provider(inner)));
                assert forall|k: int| 0 <= k < out.len() implies spec_well_formed_value(
                    #[trigger] out[k],
                ) by {
                    if k < kept.len() {
                        assert(out[k] == kept[k]);
                    }
                }
            },
            None => {
                assert(out == kept);
            },
        }
    }
}

/// Well-formed wire fields convert to well-formed fields: each name that is
/// left was there before, and none occurs twice.
pub proof fn lemma_from_provider_fields_well_formed(
    fields: Seq<(Seq<char>, Option<ProviderValue>)>,
)
    requires
        spec_well_formed_provider_entries(fields),
    ensures
        spec_well_formed_entries(spec_from_provider_fields(fields)),
        forall|k: int|
            0 <= k < spec_from_provider_fields(fields).len() ==> exists|i: int|
                0 <= i < fields.len() && (#[trigger] fields[i]).0 == (
                #[trigger] spec_from_provider_fields(fields)[k]).0,
    decreases fields,
{
    if fields.len() > 0 {
        let front = fields.drop_last();
        let last = fields.last();
        assert(last == fields[fields.len() - 1]);
        assert forall|i: int| 0 <= i < front.len() implies front[i] == fields[i] by {}
        assert(spec_unique_names(front)) by {
            assert forall|i: int, j: int| 0 <= i < j < front.len() implies (#[trigger] front[i]).0
                != (#[trigger] front[j]).0 by {
                assert(front[i] == fields[i] && front[j] == fields[j]);
            }
        }
        assert forall|i: int| 0 <= i < front.len() implies match (#[trigger] front[i]).1 {
            Some(inner) => spec_well_formed_provider(inner),
            None => true,
        } by {
            assert(front[i] == fields[i]);
        }
        lemma_from_provider_fields_well_formed(front);
        let kept = spec_from_provider_fields(front);
        let out = spec_from_provider_fields(fields);
        assert forall|k: int| 0 <= k < kept.len() implies exists|i: int|
            0 <= i < fields.len() && (#[trigger] fields[i]).0 == (#[trigger] kept[k]).0 by {
            let i = choose|i: int| 0 <= i < front.len() && (#[trigger] front[i]).0 == kept[k].0;
            assert(fields[i].0 == kept[k].0);
        }
        match last.1 {
            Some(inner) => {
                lemma_from_provider_well_formed(inner);
                assert(out == kept.push((last.0, spec_from_provider(inner))));
                assert forall|a: int, b: int| 0 <= a < b < out.len() implies (#[trigger] out[a]).0
                    != (#[trigger] out[b]).0 by {
                    if b == kept.len() {
                        let i = choose|i: int|
                            0 <= i < front.len() && (#[trigger] front[i]).0 == kept[a].0;
                        assert(fields[i].0 != fields[fields.len() - 1].0);
                    } else {
                        assert(kept[a].0 != kept[b].0);
                    }
                }
                assert forall|k: int| 0 <= k < out.len() implies exists|i: int|
                    0 <= i < fields.len() && (#[trigger] fields[i]).0 == (#[trigger] out[k]).0 by {
                    if k == kept.len() {
                        assert(fields[fields.len() - 1].0 == out[k].0);
                    } else {
                        assert(out[k] == kept[k]);
                    }
                }
            },
            None => {},
        }
    }
}

/// Nothing in the wire payload, at any depth, is lost on the way to a
/// tagged value: every timestamp is of whole seconds, and every child of an
/// array or a map carries its payload.
pub open spec fn spec_lossless(w: ProviderValue) -> bool
    decreases w,
{
    match w {
        ProviderValue::Timestamp(seconds, nanos) => nanos == 0,
        ProviderValue::Array(items) => forall|i: int|
            0 <= i < items.len() ==> match #[trigger] items[i] {
                Some(inner) => spec_lossless(inner),
                None => false,
            },
        ProviderValue::Fields(fields) => forall|i: int|
            0 <= i < fields.len() ==> match (#[trigger] fields[i]).1 {
                Some(inner) => spec_lossless(inner),
                None => false,
            },
        _ => true,
    }
}

/// A wire payload in which nothing can be lost comes back unchanged from
/// the way to a tagged value and back.
pub proof fn lemma_lossless_round_trip(w: ProviderValue)
    requires
        spec_lossless(w),
    ensures
        spec_to_provider(spec_from_provider(w)) == w,
    decreases w,
{
    match w {
        ProviderValue::Array(items) => {
            lemma_lossless_items_round_trip(items);
        },
        ProviderValue::Fields(fields) => {
            lemma_lossless_fields_round_trip(fields);
        },
        _ => {},
    }
}

/// Wire items in which nothing can be lost come back unchanged.
pub proof fn lemma_lossless_items_round_trip(items: Seq<Option<ProviderValue>>)
    requires
        forall|i: int|
            0 <= i < items.len() ==> match #[trigger] items[i] {
                Some(inner) => spec_lossless(inner),
                None => false,
            },
    ensures
        spec_to_provider_items(spec_from_provider_items(items)) == items,
    decreases items,
{
    if items.len() > 0 {
        let front = items.drop_last();
        assert forall|i: int| 0 <= i < front.len() implies match #[trigger] front[i] {
            Some(inner) => spec_lossless(inner),
            None => false,
        } by {
            assert(front[i] == items[i]);
        }
        lemma_lossless_items_round_trip(front);
        assert(items[items.len() - 1] == items.last());
        let inner = items.last()->0;
        lemma_lossless_round_trip(inner);
        let tagged = spec_from_provider_items(items);
        assert(tagged == spec_from_provider_items(front).push(spec_from_provider(inner)));
        assert(tagged.drop_last() =~= spec_from_provider_items(front));
        assert(front.push(items.last()) =~= items);
    } else {
        assert(items =~= Seq::empty());
    }
}

/// Wire fields in which nothing can be lost come back unchanged.
pub proof fn lemma_lossless_fields_round_trip(fields: Seq<(Seq<char>, Option<ProviderValue>)>)
    requires
        forall|i: int|
            0 <= i < fields.len() ==> match (#[trigger] fields[i]).1 {
                Some(inner) => spec_lossless(inner),
                None => false,
            },
    ensures
        spec_to_provider_fields(spec_from_provider_fields(fields)) == fields,
    decreases fields,
{
    if fields.len() > 0 {
        let front = fields.drop_last();
        assert forall|i: int| 0 <= i < front.len() implies match (#[trigger] front[i]).1 {
            Some(inner) => spec_lossless(inner),
            None => false,
        } by {
            assert(front[i] == fields[i]);
        }
        lemma_lossless_fields_round_trip(front);
        assert(fields[fields.len() - 1] == fields.last());
        let inner = fields.last().1->0;
        lemma_lossless_round_trip(inner);
        let tagged = spec_from_provider_fields(fields);
        assert(tagged == spec_from_provider_fields(front).push(
            (fields.last().0, spec_from_provider(inner)),
        ));
        assert(tagged.drop_last() =~= spec_from_provider_fields(front));
        assert(front.push(fields.last()) =~= fields);
    } else {
        assert(fields =~= Seq::empty());
    }
}

/// What a wire payload becomes on the way to a tagged value and back stays
/// as it is on every further such way.
pub proof fn lemma_round_trip_settles(w: ProviderValue)
    ensures
        spec_to_provider(spec_from_provider(spec_to_provider(spec_from_provider(w))))
            == spec_to_provider(spec_from_provider(w)),
{
    lemma_round_trip(spec_from_provider(w));
}

} // verus!
