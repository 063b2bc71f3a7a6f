use firestore_snapshot::type_mapping::{
    copy_bytes, from_firestore_fields, from_firestore_value, from_firestore_values,
    to_firestore_fields, to_firestore_value, to_firestore_values, ValueType, WireTimestamp,
    WireValue, WireValueType,
};

fn typed(payload: WireValueType) -> WireValue {
    WireValue { value_type: Some(payload) }
}

fn untyped() -> WireValue {
    WireValue { value_type: None }
}

fn sample_value() -> ValueType {
    ValueType::MapValue(vec![
        ("null".to_string(), ValueType::NullValue),
        ("flag".to_string(), ValueType::BooleanValue(true)),
        ("count".to_string(), ValueType::IntegerValue(-42)),
        ("ratio".to_string(), ValueType::DoubleValue(1.5f64.to_bits())),
        ("name".to_string(), ValueType::StringValue("Ann".to_string())),
        ("blob".to_string(), ValueType::BytesValue(vec![0, 1, 254, 255])),
        ("ref".to_string(), ValueType::ReferenceValue("/users/u1".to_string())),
        (
            "place".to_string(),
            ValueType::GeoPointValue(48.85f64.to_bits(), 2.35f64.to_bits()),
        ),
        (
            "list".to_string(),
            ValueType::ArrayValue(vec![
                ValueType::IntegerValue(1),
                ValueType::ArrayValue(vec![]),
                ValueType::MapValue(vec![(
                    "deep".to_string(),
                    ValueType::ArrayValue(vec![ValueType::StringValue("x".to_string())]),
                )]),
            ]),
        ),
    ])
}

#[test]
fn scalars_convert_to_the_wire() {
    assert_eq!(to_firestore_value(&ValueType::NullValue), WireValueType::NullValue);
    assert_eq!(
        to_firestore_value(&ValueType::BooleanValue(false)),
        WireValueType::BooleanValue(false)
    );
    assert_eq!(
        to_firestore_value(&ValueType::IntegerValue(i64::MIN)),
        WireValueType::IntegerValue(i64::MIN)
    );
    assert_eq!(
        to_firestore_value(&ValueType::DoubleValue(2.5f64.to_bits())),
        WireValueType::DoubleValue(2.5f64.to_bits())
    );
    assert_eq!(
        to_firestore_value(&ValueType::StringValue("Ann".to_string())),
        WireValueType::StringValue("Ann".to_string())
    );
    assert_eq!(
        to_firestore_value(&ValueType::BytesValue(vec![1, 2, 3])),
        WireValueType::BytesValue(vec![1, 2, 3])
    );
    assert_eq!(
        to_firestore_value(&ValueType::ReferenceValue("/a/b".to_string())),
        WireValueType::ReferenceValue("/a/b".to_string())
    );
    assert_eq!(
        to_firestore_value(&ValueType::GeoPointValue(7, 9)),
        WireValueType::GeoPointValue(7, 9)
    );
}

#[test]
fn timestamp_goes_out_with_zero_nanos() {
    assert_eq!(
        to_firestore_value(&ValueType::TimestampValue(1_600_000_000)),
        WireValueType::TimestampValue(WireTimestamp { seconds: 1_600_000_000, nanos: 0 })
    );
}

#[test]
fn timestamp_keeps_whole_seconds_only() {
    let wire = WireValueType::TimestampValue(WireTimestamp { seconds: 12, nanos: 999_999_999 });
    let tagged = from_firestore_value(&wire);
    assert_eq!(tagged, ValueType::TimestampValue(12));
    assert_eq!(
        to_firestore_value(&tagged),
        WireValueType::TimestampValue(WireTimestamp { seconds: 12, nanos: 0 })
    );
    let negative = WireValueType::TimestampValue(WireTimestamp { seconds: -5, nanos: 1 });
    assert_eq!(from_firestore_value(&negative), ValueType::TimestampValue(-5));
}

#[test]
fn round_trip_keeps_every_value() {
    let value = sample_value();
    let back = from_firestore_value(&to_firestore_value(&value));
    assert_eq!(back, value);
    let stamped = ValueType::ArrayValue(vec![ValueType::TimestampValue(77)]);
    assert_eq!(from_firestore_value(&to_firestore_value(&stamped)), stamped);
}

#[test]
fn array_children_without_payload_are_dropped() {
    let wire = WireValueType::ArrayValue(vec![
        typed(WireValueType::IntegerValue(1)),
        untyped(),
        typed(WireValueType::NullValue),
        untyped(),
        typed(WireValueType::StringValue("z".to_string())),
    ]);
    assert_eq!(
        from_firestore_value(&wire),
        ValueType::ArrayValue(vec![
            ValueType::IntegerValue(1),
            ValueType::NullValue,
            ValueType::StringValue("z".to_string()),
        ])
    );
}

#[test]
fn map_children_without_payload_are_dropped() {
    let wire = WireValueType::MapValue(vec![
        ("gone".to_string(), untyped()),
        ("kept".to_string(), typed(WireValueType::BooleanValue(true))),
        (
            "inner".to_string(),
            typed(WireValueType::MapValue(vec![
                ("a".to_string(), untyped()),
                ("b".to_string(), typed(WireValueType::IntegerValue(2))),
            ])),
        ),
    ]);
    assert_eq!(
        from_firestore_value(&wire),
        ValueType::MapValue(vec![
            ("kept".to_string(), ValueType::BooleanValue(true)),
            (
                "inner".to_string(),
                ValueType::MapValue(vec![("b".to_string(), ValueType::IntegerValue(2))]),
            ),
        ])
    );
}

#[test]
fn lists_convert_item_by_item() {
    let items = vec![ValueType::IntegerValue(1), ValueType::NullValue];
    let wire = to_firestore_values(&items);
    assert_eq!(
        wire,
        vec![typed(WireValueType::IntegerValue(1)), typed(WireValueType::NullValue)]
    );
    assert_eq!(from_firestore_values(&wire), items);
    assert_eq!(from_firestore_values(&vec![untyped()]), Vec::<ValueType>::new());
    assert_eq!(to_firestore_values(&vec![]), Vec::<WireValue>::new());
}

#[test]
fn fields_convert_under_their_names() {
    let fields = vec![
        ("name".to_string(), ValueType::StringValue("Ann".to_string())),
        ("age".to_string(), ValueType::IntegerValue(30)),
    ];
    let wire = to_firestore_fields(&fields);
    assert_eq!(
        wire,
        vec![
            ("name".to_string(), typed(WireValueType::StringValue("Ann".to_string()))),
            ("age".to_string(), typed(WireValueType::IntegerValue(30))),
        ]
    );
    assert_eq!(from_firestore_fields(&wire), fields);
}

#[test]
fn bytes_are_copied() {
    assert_eq!(copy_bytes(&vec![9, 8, 7]), vec![9, 8, 7]);
    assert_eq!(copy_bytes(&vec![]), Vec::<u8>::new());
}
