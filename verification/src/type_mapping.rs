//! The portable tagged values of a snapshot, the values of the database's
//! wire format, and the conversions between the two.
//!
//! Floating-point payloads are carried as their IEEE-754 bit patterns, so
//! that every value can be compared exactly. Maps are lists of entries in
//! the order in which they were read; an entry's name occurs once.

use crate::well_formed::{
    lemma_from_provider_well_formed, lemma_to_provider_well_formed, spec_well_formed_provider,
    spec_well_formed_value,
};
use vstd::prelude::*;

verus! {

/// A field value of a snapshot.
#[derive(Debug, PartialEq)]
pub enum ValueType {
    NullValue,
    BooleanValue(bool),
    IntegerValue(i64),
    /// The bits of a 64-bit floating-point number.
    DoubleValue(u64),
    /// Whole seconds since the epoch.
    TimestampValue(i64),
    StringValue(String),
    BytesValue(Vec<u8>),
    /// Absolute path of another document.
    ReferenceValue(String),
    /// Latitude and longitude, each as the bits of a 64-bit floating-point
    /// number.
    GeoPointValue(u64, u64),
    ArrayValue(Vec<ValueType>),
    MapValue(Vec<(String, ValueType)>),
}

/// A document of a snapshot: its identifier, its fields and, where they
/// were fetched, its nested collections.
#[derive(Debug, PartialEq)]
pub struct DocumentData {
    pub id: String,
    pub data: Vec<(String, ValueType)>,
    pub subcollections: Option<Vec<CollectionData>>,
}

/// A collection of a snapshot: its identifier and its documents in the
/// order in which they were fetched.
#[derive(Debug, PartialEq)]
pub struct CollectionData {
    pub id: String,
    pub documents: Vec<DocumentData>,
}

/// A timestamp of the wire format.
#[derive(Debug, Clone, Copy, PartialEq)]
pub struct WireTimestamp {
    pub seconds: i64,
    pub nanos: i32,
}

/// The typed payload of a wire value.
#[derive(Debug, PartialEq)]
pub enum WireValueType {
    NullValue,
    BooleanValue(bool),
    IntegerValue(i64),
    DoubleValue(u64),
    TimestampValue(WireTimestamp),
    StringValue(String),
    BytesValue(Vec<u8>),
    ReferenceValue(String),
    GeoPointValue(u64, u64),
    ArrayValue(Vec<WireValue>),
    MapValue(Vec<(String, WireValue)>),
}

/// A value of the wire format. One without a payload carries no type at
/// all, which is not the same as a null value.
#[derive(Debug, PartialEq)]
pub struct WireValue {
    pub value_type: Option<WireValueType>,
}

/// A document of the wire format, addressed by its full path.
#[derive(Debug, PartialEq)]
pub struct WireDocument {
    pub name: String,
    pub fields: Vec<(String, WireValue)>,
}

/// What a `ValueType` stands for.
pub enum TaggedValue {
    Null,
    Boolean(bool),
    Integer(i64),
    Double(u64),
    Timestamp(i64),
    Text(Seq<char>),
    Bytes(Seq<u8>),
    Reference(Seq<char>),
    GeoPoint(u64, u64),
    Array(Seq<TaggedValue>),
    Fields(Seq<(Seq<char>, TaggedValue)>),
}

/// What a `WireValueType` stands for. A child of an array or of a map may
/// lack its payload.
pub enum ProviderValue {
    Null,
    Boolean(bool),
    Integer(i64),
    Double(u64),
    Timestamp(i64, i32),
    Text(Seq<char>),
    Bytes(Seq<u8>),
    Reference(Seq<char>),
    GeoPoint(u64, u64),
    Array(Seq<Option<ProviderValue>>),
    Fields(Seq<(Seq<char>, Option<ProviderValue>)>),
}

/// What a `DocumentData` stands for.
pub struct DocumentModel {
    pub id: Seq<char>,
    pub data: Seq<(Seq<char>, TaggedValue)>,
    pub subcollections: Option<Seq<CollectionModel>>,
}

/// What a `CollectionData` stands for.
pub struct CollectionModel {
    pub id: Seq<char>,
    pub documents: Seq<DocumentModel>,
}

/// What a `WireDocument` stands for.
pub struct ProviderDocument {
    pub name: Seq<char>,
    pub fields: Seq<(Seq<char>, Option<ProviderValue>)>,
}

/// The model of a tagged value.
pub open spec fn spec_tagged(v: ValueType) -> TaggedValue
    decreases v,
{
    match v {
        ValueType::NullValue => TaggedValue::Null,
        ValueType::BooleanValue(b) => TaggedValue::Boolean(b),
        ValueType::IntegerValue(i) => TaggedValue::Integer(i),
        ValueType::DoubleValue(bits) => TaggedValue::Double(bits),
        ValueType::TimestampValue(seconds) => TaggedValue::Timestamp(seconds),
        ValueType::StringValue(s) => TaggedValue::Text(s@),
        ValueType::BytesValue(bytes) => TaggedValue::Bytes(bytes@),
        ValueType::ReferenceValue(path) => TaggedValue::Reference(path@),
        ValueType::GeoPointValue(latitude, longitude) => TaggedValue::GeoPoint(latitude, longitude),
        ValueType::ArrayValue(items) => TaggedValue::Array(
            Seq::new(
                items@.len(),
                |i: int|
                    if 0 <= i < items@.len() {
                        proof {
                            assert(decreases_to!(items => items[i]));
                        }
                        spec_tagged(items[i])
                    } else {
                        TaggedValue::Null
                    },
            ),
        ),
        ValueType::MapValue(entries) => TaggedValue::Fields(
            Seq::new(
                entries@.len(),
                |i: int|
                    if 0 <= i < entries@.len() {
                        proof {
                            assert(decreases_to!(entries => entries[i]));
                        }
                        (entries[i].0@, spec_tagged(entries[i].1))
                    } else {
                        (Seq::empty(), TaggedValue::Null)
                    },
            ),
        ),
    }
}

impl View for ValueType {
    type V = TaggedValue;

    open spec fn view(&self) -> TaggedValue {
        spec_tagged(*self)
    }
}

/// The model of a wire payload.
pub open spec fn spec_provider(w: WireValueType) -> ProviderValue
    decreases w,
{
    match w {
        WireValueType::NullValue => ProviderValue::Null,
        WireValueType::BooleanValue(b) => ProviderValue::Boolean(b),
        WireValueType::IntegerValue(i) => ProviderValue::Integer(i),
        WireValueType::DoubleValue(bits) => ProviderValue::Double(bits),
        WireValueType::TimestampValue(t) => ProviderValue::Timestamp(t.seconds, t.nanos),
        WireValueType::StringValue(s) => ProviderValue::Text(s@),
        WireValueType::BytesValue(bytes) => ProviderValue::Bytes(bytes@),
        WireValueType::ReferenceValue(path) => ProviderValue::Reference(path@),
        WireValueType::GeoPointValue(latitude, longitude) => ProviderValue::GeoPoint(
            latitude,
            longitude,
        ),
        WireValueType::ArrayValue(items) => ProviderValue::Array(
            Seq::new(
                items@.len(),
                |i: int|
                    if 0 <= i < items@.len() {
                        proof {
                            assert(decreases_to!(items => items[i]));
                        }
                        spec_provider_child(items[i])
                    } else {
                        None
                    },
            ),
        ),
        WireValueType::MapValue(entries) => ProviderValue::Fields(
            Seq::new(
                entries@.len(),
                |i: int|
                    if 0 <= i < entries@.len() {
                        proof {
                            assert(decreases_to!(entries => entries[i]));
                        }
                        (entries[i].0@, spec_provider_child(entries[i].1))
                    } else {
                        (Seq::empty(), None)
                    },
            ),
        ),
    }
}

/// The model of a wire value: that of its payload, if it has one.
pub open spec fn spec_provider_child(w: WireValue) -> Option<ProviderValue>
    decreases w,
{
    match w.value_type {
        Some(inner) => Some(spec_provider(inner)),
        None => None,
    }
}

impl View for WireValueType {
    type V = ProviderValue;

    open spec fn view(&self) -> ProviderValue {
        spec_provider(*self)
    }
}

impl View for WireValue {
    type V = Option<ProviderValue>;

    open spec fn view(&self) -> Option<ProviderValue> {
        spec_provider_child(*self)
    }
}

/// The models of a list of tagged values.
pub open spec fn spec_tagged_items(items: Seq<ValueType>) -> Seq<TaggedValue> {
    Seq::new(items.len(), |i: int| items[i]@)
}

/// The models of a list of named tagged values.
pub open spec fn spec_tagged_entries(entries: Seq<(String, ValueType)>) -> Seq<
    (Seq<char>, TaggedValue),
> {
    Seq::new(entries.len(), |i: int| (entries[i].0@, entries[i].1@))
}

/// The models of a list of wire values.
pub open spec fn spec_provider_items(items: Seq<WireValue>) -> Seq<Option<ProviderValue>> {
    Seq::new(items.len(), |i: int| items[i]@)
}

/// The models of a list of named wire values.
pub open spec fn spec_provider_entries(entries: Seq<(String, WireValue)>) -> Seq<
    (Seq<char>, Option<ProviderValue>),
> {
    Seq::new(entries.len(), |i: int| (entries[i].0@, entries[i].1@))
}

impl View for WireDocument {
    type V = ProviderDocument;

    open spec fn view(&self) -> ProviderDocument {
        ProviderDocument { name: self.name@, fields: spec_provider_entries(self.fields@) }
    }
}

/// The model of a document of a snapshot.
pub open spec fn spec_document(d: DocumentData) -> DocumentModel
    decreases d,
{
    DocumentModel {
        id: d.id@,
        data: spec_tagged_entries(d.data@),
        subcollections: match d.subcollections {
            Some(collections) => Some(
                Seq::new(
                    collections@.len(),
                    |i: int|
                        if 0 <= i < collections@.len() {
                            proof {
                                assert(decreases_to!(collections => collections[i]));
                            }
                            spec_collection(collections[i])
                        } else {
                            CollectionModel { id: Seq::empty(), documents: Seq::empty() }
                        },
                ),
            ),
            None => None,
        },
    }
}

/// The model of a collection of a snapshot.
pub open spec fn spec_collection(c: CollectionData) -> CollectionModel
    decreases c,
{
    CollectionModel {
        id: c.id@,
        documents: Seq::new(
            c.documents@.len(),
            |i: int|
                if 0 <= i < c.documents@.len() {
                    proof {
                        assert(decreases_to!(c.documents => c.documents[i]));
                    }
                    spec_document(c.documents[i])
                } else {
                    DocumentModel { id: Seq::empty(), data: Seq::empty(), subcollections: None }
                },
        ),
    }
}

impl View for DocumentData {
    type V = DocumentModel;

    open spec fn view(&self) -> DocumentModel {
        spec_document(*self)
    }
}

impl View for CollectionData {
    type V = CollectionModel;

    open spec fn view(&self) -> CollectionModel {
        spec_collection(*self)
    }
}

/// The models of a list of documents.
pub open spec fn spec_documents(documents: Seq<DocumentData>) -> Seq<DocumentModel> {
    Seq::new(documents.len(), |i: int| documents[i]@)
}

/// The models of a list of collections.
pub open spec fn spec_collections(collections: Seq<CollectionData>) -> Seq<CollectionModel> {
    Seq::new(collections.len(), |i: int| collections[i]@)
}

/// The tagged value that a wire payload converts to. A timestamp keeps its
/// whole seconds and loses what is below a second. Children of arrays and
/// maps that carry no payload are left out.
pub open spec fn spec_from_provider(w: ProviderValue) -> TaggedValue
    decreases w,
{
    match w {
        ProviderValue::Null => TaggedValue::Null,
        ProviderValue::Boolean(b) => TaggedValue::Boolean(b),
        ProviderValue::Integer(i) => TaggedValue::Integer(i),
        ProviderValue::Double(bits) => TaggedValue::Double(bits),
        ProviderValue::Timestamp(seconds, nanos) => TaggedValue::Timestamp(seconds),
        ProviderValue::Text(s) => TaggedValue::Text(s),
        ProviderValue::Bytes(bytes) => TaggedValue::Bytes(bytes),
        ProviderValue::Reference(path) => TaggedValue::Reference(path),
        ProviderValue::GeoPoint(latitude, longitude) => TaggedValue::GeoPoint(latitude, longitude),
        ProviderValue::Array(items) => TaggedValue::Array(spec_from_provider_items(items)),
        ProviderValue::Fields(fields) => TaggedValue::Fields(spec_from_provider_fields(fields)),
    }
}

/// The conversions of those items that carry a payload, in their order.
pub open spec fn spec_from_provider_items(items: Seq<Option<ProviderValue>>) -> Seq<TaggedValue>
    decreases items,
{
    if items.len() == 0 {
        Seq::empty()
    } else {
        let front = spec_from_provider_items(items.drop_last());
        match items.last() {
            Some(w) => front.push(spec_from_provider(w)),
            None => front,
        }
    }
}

/// The conversions of those fields that carry a payload, each under its
/// name, in their order.
pub open spec fn spec_from_provider_fields(
    fields: Seq<(Seq<char>, Option<ProviderValue>)>,
) -> Seq<(Seq<char>, TaggedValue)>
    decreases fields,
{
    if fields.len() == 0 {
        Seq::empty()
    } else {
        let front = spec_from_provider_fields(fields.drop_last());
        match fields.last().1 {
            Some(w) => front.push((fields.last().0, spec_from_provider(w))),
            None => front,
        }
    }
}

/// The wire payload that a tagged value converts to. A timestamp gets zero
/// for what is below a second; every child of an array or a map carries its
/// payload.
pub open spec fn spec_to_provider(t: TaggedValue) -> ProviderValue
    decreases t,
{
    match t {
        TaggedValue::Null => ProviderValue::Null,
        TaggedValue::Boolean(b) => ProviderValue::Boolean(b),
        TaggedValue::Integer(i) => ProviderValue::Integer(i),
        TaggedValue::Double(bits) => ProviderValue::Double(bits),
        TaggedValue::Timestamp(seconds) => ProviderValue::Timestamp(seconds, 0),
        TaggedValue::Text(s) => ProviderValue::Text(s),
        TaggedValue::Bytes(bytes) => ProviderValue::Bytes(bytes),
        TaggedValue::Reference(path) => ProviderValue::Reference(path),
        TaggedValue::GeoPoint(latitude, longitude) => ProviderValue::GeoPoint(latitude, longitude),
        TaggedValue::Array(items) => ProviderValue::Array(spec_to_provider_items(items)),
        TaggedValue::Fields(fields) => ProviderValue::Fields(spec_to_provider_fields(fields)),
    }
}

/// The conversions of all the items, in their order.
pub open spec fn spec_to_provider_items(items: Seq<TaggedValue>) -> Seq<Option<ProviderValue>>
    decreases items,
{
    if items.len() == 0 {
        Seq::empty()
    } else {
        spec_to_provider_items(items.drop_last()).push(Some(spec_to_provider(items.last())))
    }
}

/// The conversions of all the fields, each under its name, in their order.
pub open spec fn spec_to_provider_fields(fields: Seq<(Seq<char>, TaggedValue)>) -> Seq<
    (Seq<char>, Option<ProviderValue>),
>
    decreases fields,
{
    if fields.len() == 0 {
        Seq::empty()
    } else {
        spec_to_provider_fields(fields.drop_last()).push(
            (fields.last().0, Some(spec_to_provider(fields.last().1))),
        )
    }
}

/// A copy of a byte string.
pub fn copy_bytes(bytes: &Vec<u8>) -> (res: Vec<u8>)
    ensures
        res@ == bytes@,
{
    let mut out: Vec<u8> = Vec::new();
    let mut i: usize = 0;
    while i < bytes.len()
        invariant
            i <= bytes.len(),
            out@ == bytes@.subrange(0, i as int),
        decreases bytes.len() - i,
    {
        out.push(bytes[i]);
        proof {
            assert(out@ =~= bytes@.subrange(0, i + 1));
        }
        i += 1;
    }
    proof {
        assert(bytes@.subrange(0, bytes.len() as int) =~= bytes@);
    }
    out
}

/// Converts a wire payload to a tagged value. The conversion is lossy in
/// one place: a timestamp keeps only its whole seconds.
pub fn from_firestore_value(raw_value: &WireValueType) -> (res: ValueType)
    ensures
        res@ == spec_from_provider(raw_value@),
        spec_well_formed_provider(raw_value@) ==> spec_well_formed_value(res@),
    decreases raw_value,
{
    proof {
        if spec_well_formed_provider(raw_value@) {
            lemma_from_provider_well_formed(raw_value@);
        }
    }
    match raw_value {
        WireValueType::NullValue => ValueType::NullValue,
        WireValueType::BooleanValue(v) => ValueType::BooleanValue(*v),
        WireValueType::IntegerValue(i) => ValueType::IntegerValue(*i),
        WireValueType::DoubleValue(d) => ValueType::DoubleValue(*d),
        WireValueType::TimestampValue(t) => ValueType::TimestampValue(t.seconds),
        WireValueType::StringValue(s) => ValueType::StringValue(s.clone()),
        WireValueType::BytesValue(val) => ValueType::BytesValue(copy_bytes(val)),
        WireValueType::ReferenceValue(path) => ValueType::ReferenceValue(path.clone()),
        WireValueType::GeoPointValue(latitude, longitude) => ValueType::GeoPointValue(
            *latitude,
            *longitude,
        ),
        WireValueType::ArrayValue(items) => {
            let converted = from_firestore_values(items);
            proof {
                assert(raw_value@ == ProviderValue::Array(spec_provider_items(items@))) by {
                    assert(raw_value@->Array_0 =~= spec_provider_items(items@));
                }
                let res = ValueType::ArrayValue(converted);
                assert(res@->Array_0 =~= spec_tagged_items(converted@));
            }
            ValueType::ArrayValue(converted)
        },
        WireValueType::MapValue(entries) => {
            let converted = from_firestore_fields(entries);
            proof {
                assert(raw_value@ == ProviderValue::Fields(spec_provider_entries(entries@))) by {
                    assert(raw_value@->Fields_0 =~= spec_provider_entries(entries@));
                }
                let res = ValueType::MapValue(converted);
                assert(res@->Fields_0 =~= spec_tagged_entries(converted@));
            }
            ValueType::MapValue(converted)
        },
    }
}

/// Converts the wire values that carry a payload, in their order, and
/// leaves the others out.
pub fn from_firestore_values(items: &Vec<WireValue>) -> (res: Vec<ValueType>)
    ensures
        spec_tagged_items(res@) == spec_from_provider_items(spec_provider_items(items@)),
    decreases items,
{
    let mut out: Vec<ValueType> = Vec::new();
    let mut i: usize = 0;
    proof {
        assert(spec_provider_items(items@.subrange(0, 0)) =~= Seq::empty());
        assert(spec_tagged_items(out@) =~= Seq::empty());
    }
    while i < items.len()
        invariant
            i <= items.len(),
            spec_tagged_items(out@) == spec_from_provider_items(
                spec_provider_items(items@.subrange(0, i as int)),
            ),
        decreases items.len() - i,
    {
        let ghost before = out@;
        proof {
            let next = spec_provider_items(items@.subrange(0, i + 1));
            assert(next.drop_last() =~= spec_provider_items(items@.subrange(0, i as int)));
            assert(next.last() == items@[i as int]@);
            assert(decreases_to!(items => items[i as int]));
        }
        match &items[i].value_type {
            Some(inner) => {
                let value = from_firestore_value(inner);
                out.push(value);
                proof {
                    assert(spec_tagged_items(out@) =~= spec_tagged_items(before).push(value@));
                }
            },
            None => {},
        }
        i += 1;
    }
    proof {
        assert(items@.subrange(0, items.len() as int) =~= items@);
    }
    out
}

/// Converts the named wire values that carry a payload, in their order,
/// each under its name, and leaves the others out.
pub fn from_firestore_fields(entries: &Vec<(String, WireValue)>) -> (res: Vec<(String, ValueType)>)
    ensures
        spec_tagged_entries(res@) == spec_from_provider_fields(spec_provider_entries(entries@)),
    decreases entries,
{
    let mut out: Vec<(String, ValueType)> = Vec::new();
    let mut i: usize = 0;
    proof {
        assert(spec_provider_entries(entries@.subrange(0, 0)) =~= Seq::empty());
        assert(spec_tagged_entries(out@) =~= Seq::empty());
    }
    while i < entries.len()
        invariant
            i <= entries.len(),
            spec_tagged_entries(out@) == spec_from_provider_fields(
                spec_provider_entries(entries@.subrange(0, i as int)),
            ),
        decreases entries.len() - i,
    {
        let ghost before = out@;
        proof {
            let next = spec_provider_entries(entries@.subrange(0, i + 1));
            assert(next.drop_last() =~= spec_provider_entries(entries@.subrange(0, i as int)));
            assert(next.last() == (entries@[i as int].0@, entries@[i as int].1@));
            assert(decreases_to!(entries => entries[i as int]));
        }
        let entry = &entries[i];
        match &entry.1.value_type {
            Some(inner) => {
                let value = from_firestore_value(inner);
                let name = entry.0.clone();
                out.push((name, value));
                proof {
                    assert(spec_tagged_entries(out@) =~= spec_tagged_entries(before).push(
                        (name@, value@),
                    ));
                }
            },
            None => {},
        }
        i += 1;
    }
    proof {
        assert(entries@.subrange(0, entries.len() as int) =~= entries@);
    }
    out
}

/// Converts a tagged value to a wire payload. A timestamp gets zero for
/// what is below a second.
pub fn to_firestore_value(value: &ValueType) -> (res: WireValueType)
    ensures
        res@ == spec_to_provider(value@),
        spec_well_formed_value(value@) ==> spec_well_formed_provider(res@),
    decreases value,
{
    proof {
        if spec_well_formed_value(value@) {
            lemma_to_provider_well_formed(value@);
        }
    }
    match value {
        ValueType::NullValue => WireValueType::NullValue,
        ValueType::BooleanValue(val) => WireValueType::BooleanValue(*val),
        ValueType::IntegerValue(val) => WireValueType::IntegerValue(*val),
        ValueType::DoubleValue(val) => WireValueType::DoubleValue(*val),
        ValueType::TimestampValue(val) => WireValueType::TimestampValue(
            WireTimestamp { seconds: *val, nanos: 0 },
        ),
        ValueType::StringValue(val) => WireValueType::StringValue(val.clone()),
        ValueType::BytesValue(val) => WireValueType::BytesValue(copy_bytes(val)),
        ValueType::ReferenceValue(val) => WireValueType::ReferenceValue(val.clone()),
        ValueType::GeoPointValue(latitude, longitude) => WireValueType::GeoPointValue(
            *latitude,
            *longitude,
        ),
        ValueType::ArrayValue(items) => {
            let converted = to_firestore_values(items);
            proof {
                assert(value@ == TaggedValue::Array(spec_tagged_items(items@))) by {
                    assert(value@->Array_0 =~= spec_tagged_items(items@));
                }
                let res = WireValueType::ArrayValue(converted);
                assert(res@->Array_0 =~= spec_provider_items(converted@));
            }
            WireValueType::ArrayValue(converted)
        },
        ValueType::MapValue(entries) => {
            let converted = to_firestore_fields(entries);
            proof {
                assert(value@ == TaggedValue::Fields(spec_tagged_entries(entries@))) by {
                    assert(value@->Fields_0 =~= spec_tagged_entries(entries@));
                }
                let res = WireValueType::MapValue(converted);
                assert(res@->Fields_0 =~= spec_provider_entries(converted@));
            }
            WireValueType::MapValue(converted)
        },
    }
}

/// Converts all the tagged values, in their order.
pub fn to_firestore_values(items: &Vec<ValueType>) -> (res: Vec<WireValue>)
    ensures
        spec_provider_items(res@) == spec_to_provider_items(spec_tagged_items(items@)),
    decreases items,
{
    let mut out: Vec<WireValue> = Vec::new();
    let mut i: usize = 0;
    proof {
        assert(spec_tagged_items(items@.subrange(0, 0)) =~= Seq::empty());
        assert(spec_provider_items(out@) =~= Seq::empty());
    }
    while i < items.len()
        invariant
            i <= items.len(),
            spec_provider_items(out@) == spec_to_provider_items(
                spec_tagged_items(items@.subrange(0, i as int)),
            ),
        decreases items.len() - i,
    {
        let ghost before = out@;
        proof {
            let next = spec_tagged_items(items@.subrange(0, i + 1));
            assert(next.drop_last() =~= spec_tagged_items(items@.subrange(0, i as int)));
            assert(next.last() == items@[i as int]@);
            assert(decreases_to!(items => items[i as int]));
        }
        let wire = WireValue { value_type: Some(to_firestore_value(&items[i])) };
        out.push(wire);
        proof {
            assert(spec_provider_items(out@) =~= spec_provider_items(before).push(wire@));
        }
        i += 1;
    }
    proof {
        assert(items@.subrange(0, items.len() as int) =~= items@);
    }
    out
}

/// Converts all the named tagged values, in their order, each under its
/// name.
pub fn to_firestore_fields(entries: &Vec<(String, ValueType)>) -> (res: Vec<(String, WireValue)>)
    ensures
        spec_provider_entries(res@) == spec_to_provider_fields(spec_tagged_entries(entries@)),
    decreases entries,
{
    let mut out: Vec<(String, WireValue)> = Vec::new();
    let mut i: usize = 0;
    proof {
        assert(spec_tagged_entries(entries@.subrange(0, 0)) =~= Seq::empty());
        assert(spec_provider_entries(out@) =~= Seq::empty());
    }
    while i < entries.len()
        invariant
            i <= entries.len(),
            spec_provider_entries(out@) == spec_to_provider_fields(
                spec_tagged_entries(entries@.subrange(0, i as int)),
            ),
        decreases entries.len() - i,
    {
        let ghost before = out@;
        proof {
            let next = spec_tagged_entries(entries@.subrange(0, i + 1));
            assert(next.drop_last() =~= spec_tagged_entries(entries@.subrange(0, i as int)));
            assert(next.last() == (entries@[i as int].0@, entries@[i as int].1@));
            assert(decreases_to!(entries => entries[i as int]));
        }
        let entry = &entries[i];
        let wire = WireValue { value_type: Some(to_firestore_value(&entry.1)) };
        let name = entry.0.clone();
        out.push((name, wire));
        proof {
            assert(spec_provider_entries(out@) =~= spec_provider_entries(before).push(
                (name@, wire@),
            ));
        }
        i += 1;
    }
    proof {
        assert(entries@.subrange(0, entries.len() as int) =~= entries@);
    }
    out
}

/// Converting a tagged value to the wire and back gives the same value,
/// whatever it holds.
pub proof fn lemma_round_trip(t: TaggedValue)
    ensures
        spec_from_provider(spec_to_provider(t)) == t,
    decreases t,
{
    match t {
        TaggedValue::Array(items) => lemma_round_trip_items(items),
        TaggedValue::Fields(fields) => lemma_round_trip_fields(fields),
        _ => {},
    }
}

/// Converting a list of tagged values to the wire and back gives the same
/// list.
pub proof fn lemma_round_trip_items(items: Seq<TaggedValue>)
    ensures
        spec_from_provider_items(spec_to_provider_items(items)) == items,
    decreases items,
{
    if items.len() > 0 {
        lemma_round_trip_items(items.drop_last());
        lemma_round_trip(items.last());
        let wire = spec_to_provider_items(items);
        assert(wire.drop_last() =~= spec_to_provider_items(items.drop_last()));
        assert(items.drop_last().push(items.last()) =~= items);
    } else {
        assert(items =~= Seq::empty());
    }
}

/// Converting a list of named tagged values to the wire and back gives the
/// same list.
pub proof fn lemma_round_trip_fields(fields: Seq<(Seq<char>, TaggedValue)>)
    ensures
        spec_from_provider_fields(spec_to_provider_fields(fields)) == fields,
    decreases fields,
{
    if fields.len() > 0 {
        lemma_round_trip_fields(fields.drop_last());
        lemma_round_trip(fields.last().1);
        let wire = spec_to_provider_fields(fields);
        assert(wire.drop_last() =~= spec_to_provider_fields(fields.drop_last()));
        assert(fields.drop_last().push(fields.last()) =~= fields);
    } else {
        assert(fields =~= Seq::empty());
    }
}

/// A wire timestamp that goes to a tagged value and back keeps its whole
/// seconds and has zero below a second.
pub proof fn lemma_timestamp_round_trip(seconds: i64, nanos: i32)
    ensures
        spec_from_provider(ProviderValue::Timestamp(seconds, nanos)) == TaggedValue::Timestamp(
            seconds,
        ),
        spec_to_provider(spec_from_provider(ProviderValue::Timestamp(seconds, nanos)))
            == ProviderValue::Timestamp(seconds, 0),
{
}

} // verus!
