use arrow2_convert::{
    arrow_array_deserialize_iterator, arrow_deserialize, arrow_serialize, arrow_serialize_extend, into_arrow,
    new_array, Column, ConvertError, DataType, Field, Payload, Value,
};

fn field(t: DataType, nullable: bool) -> Field {
    Field::new(t, nullable)
}

fn list_of(inner: Field, nullable: bool) -> Field {
    Field::new(DataType::List(Box::new(inner)), nullable)
}

fn round_trip(values: Vec<Value>, f: &Field) -> Vec<Value> {
    let c = into_arrow(&values, f).expect("values have the type");
    arrow_array_deserialize_iterator(&c, f).expect("same type")
}

fn fixed(c: &Column) -> &Vec<i128> {
    match &c.payload {
        Payload::Fixed(v) => v,
        other => panic!("not a fixed-width payload: {:?}", other),
    }
}

#[test]
fn optional_int32_scenario() {
    let f = field(DataType::Int32, true);
    let values = vec![Value::Int32(1), Value::Null, Value::Int32(3)];
    let c = into_arrow(&values, &f).unwrap();
    assert_eq!(c.len(), 3);
    assert_eq!(c.validity, vec![true, false, true]);
    let slots = fixed(&c);
    assert_eq!(slots[0], 1);
    assert_eq!(slots[2], 3);
    assert!(c.is_valid(0));
    assert!(!c.is_valid(1));
    let back = arrow_array_deserialize_iterator(&c, &f).unwrap();
    assert_eq!(back, vec![Value::Int32(1), Value::Null, Value::Int32(3)]);
}

#[test]
fn list_of_bytes_scenario() {
    let f = list_of(field(DataType::UInt8, false), false);
    let values = vec![
        Value::List(vec![Value::UInt8(1), Value::UInt8(2), Value::UInt8(3)]),
        Value::List(vec![]),
    ];
    let c = into_arrow(&values, &f).unwrap();
    assert_eq!(c.len(), 2);
    match &c.payload {
        Payload::List(offsets, child) => {
            assert_eq!(offsets, &vec![0usize, 3, 3]);
            assert_eq!(child.len(), 3);
            assert_eq!(fixed(child), &vec![1i128, 2, 3]);
        }
        other => panic!("not a list payload: {:?}", other),
    }
    let back = arrow_array_deserialize_iterator(&c, &f).unwrap();
    assert_eq!(
        back,
        vec![Value::List(vec![Value::UInt8(1), Value::UInt8(2), Value::UInt8(3)]), Value::List(vec![])]
    );
}

#[test]
fn byte_buffers_round_trip() {
    let f = field(DataType::Binary, false);
    let values = vec![Value::Binary(vec![1, 2, 3]), Value::Binary(vec![])];
    let c = into_arrow(&values, &f).unwrap();
    assert_eq!(c.len(), 2);
    assert_eq!(
        round_trip(values, &f),
        vec![Value::Binary(vec![1, 2, 3]), Value::Binary(vec![])]
    );
}

#[test]
fn scalars_round_trip() {
    let cases: Vec<(DataType, Value, Value)> = vec![
        (DataType::Boolean, Value::Boolean(true), Value::Boolean(true)),
        (DataType::Boolean, Value::Boolean(false), Value::Boolean(false)),
        (DataType::Int8, Value::Int8(i8::MIN), Value::Int8(i8::MIN)),
        (DataType::Int16, Value::Int16(-300), Value::Int16(-300)),
        (DataType::Int32, Value::Int32(i32::MAX), Value::Int32(i32::MAX)),
        (DataType::Int64, Value::Int64(i64::MIN), Value::Int64(i64::MIN)),
        (DataType::UInt8, Value::UInt8(u8::MAX), Value::UInt8(u8::MAX)),
        (DataType::UInt16, Value::UInt16(65535), Value::UInt16(65535)),
        (DataType::UInt32, Value::UInt32(u32::MAX), Value::UInt32(u32::MAX)),
        (DataType::UInt64, Value::UInt64(u64::MAX), Value::UInt64(u64::MAX)),
        (DataType::Date32, Value::Date32(-719162), Value::Date32(-719162)),
        (DataType::Timestamp, Value::Timestamp(1_000_000_007), Value::Timestamp(1_000_000_007)),
    ];
    for (t, v, expected) in cases {
        let f = field(t, false);
        assert_eq!(round_trip(vec![v], &f), vec![expected]);
    }
}

#[test]
fn wide_unsigned_slot_value() {
    let f = field(DataType::UInt64, false);
    let c = into_arrow(&vec![Value::UInt64(u64::MAX)], &f).unwrap();
    assert_eq!(fixed(&c), &vec![18446744073709551615i128]);
}

#[test]
fn text_round_trip() {
    let f = field(DataType::Utf8, true);
    let values = vec![Value::Utf8("héllo".to_string()), Value::Null, Value::Utf8(String::new())];
    assert_eq!(
        round_trip(values, &f),
        vec![Value::Utf8("héllo".to_string()), Value::Null, Value::Utf8(String::new())]
    );
}

#[test]
fn nested_round_trip_with_empty_and_absent() {
    let inner = list_of(field(DataType::Int64, true), true);
    let f = list_of(inner, true);
    let values = vec![
        Value::List(vec![Value::List(vec![Value::Int64(1), Value::Null]), Value::List(vec![]), Value::Null]),
        Value::Null,
        Value::List(vec![]),
        Value::List(vec![Value::List(vec![Value::Int64(-5)])]),
    ];
    let expected = vec![
        Value::List(vec![Value::List(vec![Value::Int64(1), Value::Null]), Value::List(vec![]), Value::Null]),
        Value::Null,
        Value::List(vec![]),
        Value::List(vec![Value::List(vec![Value::Int64(-5)])]),
    ];
    assert_eq!(round_trip(values, &f), expected);
}

#[test]
fn null_is_stored_invalid() {
    let f = field(DataType::Utf8, false).optional();
    assert!(f.is_nullable());
    let c = into_arrow(&vec![Value::Null], &f).unwrap();
    assert_eq!(c.validity, vec![false]);
    assert_eq!(arrow_deserialize(&c, 0), Value::Null);
    assert_eq!(arrow_array_deserialize_iterator(&c, &f).unwrap(), vec![Value::Null]);
}

#[test]
fn int32_column_is_not_text() {
    let c = into_arrow(&vec![Value::Int32(7)], &field(DataType::Int32, false)).unwrap();
    let err = arrow_array_deserialize_iterator(&c, &field(DataType::Utf8, false)).unwrap_err();
    assert_eq!(err, ConvertError::TypeMismatch { expected: DataType::Utf8, actual: DataType::Int32 });
}

#[test]
fn large_text_needs_large_decoder() {
    let large = field(DataType::LargeUtf8, false);
    let values = vec![Value::Utf8("a".to_string()), Value::Utf8("bc".to_string())];
    let c = into_arrow(&values, &large).unwrap();
    let err = arrow_array_deserialize_iterator(&c, &field(DataType::Utf8, false)).unwrap_err();
    assert_eq!(err, ConvertError::TypeMismatch { expected: DataType::Utf8, actual: DataType::LargeUtf8 });
    assert_eq!(
        arrow_array_deserialize_iterator(&c, &large).unwrap(),
        vec![Value::Utf8("a".to_string()), Value::Utf8("bc".to_string())]
    );
}

#[test]
fn large_list_differs_from_list() {
    let item = field(DataType::UInt8, false);
    let large = Field::new(DataType::LargeList(Box::new(item)), false);
    let c = into_arrow(&vec![Value::List(vec![Value::UInt8(4)])], &large).unwrap();
    let small = list_of(field(DataType::UInt8, false), false);
    assert!(arrow_array_deserialize_iterator(&c, &small).is_err());
    assert_eq!(
        arrow_array_deserialize_iterator(&c, &large).unwrap(),
        vec![Value::List(vec![Value::UInt8(4)])]
    );
}

#[test]
fn value_of_wrong_type_is_reported_by_row() {
    let f = field(DataType::Int32, false);
    let values = vec![Value::Int32(1), Value::Utf8("x".to_string()), Value::Int64(2)];
    assert_eq!(into_arrow(&values, &f).unwrap_err(), ConvertError::ValueNotOfType { row: 1 });
}

#[test]
fn null_in_required_field_is_rejected() {
    let f = field(DataType::Int32, false);
    assert_eq!(
        into_arrow(&vec![Value::Null], &f).unwrap_err(),
        ConvertError::ValueNotOfType { row: 0 }
    );
}

#[test]
fn nested_element_of_wrong_type_is_rejected() {
    let f = list_of(field(DataType::Int8, false), false);
    let values = vec![Value::List(vec![Value::Int8(1)]), Value::List(vec![Value::Int8(2), Value::Int16(3)])];
    assert_eq!(into_arrow(&values, &f).unwrap_err(), ConvertError::ValueNotOfType { row: 1 });
}

#[test]
fn serialize_one_value_at_a_time() {
    let f = field(DataType::Boolean, true);
    let mut c = new_array(&f);
    assert_eq!(c.len(), 0);
    assert_eq!(arrow_serialize(&Value::Boolean(true), &f, &mut c), Ok(()));
    assert_eq!(arrow_serialize(&Value::Null, &f, &mut c), Ok(()));
    assert_eq!(
        arrow_serialize(&Value::Int8(1), &f, &mut c),
        Err(ConvertError::ValueNotOfType { row: 2 })
    );
    assert_eq!(c.len(), 2);
    assert_eq!(
        arrow_array_deserialize_iterator(&c, &f).unwrap(),
        vec![Value::Boolean(true), Value::Null]
    );
}

#[test]
fn extend_stops_at_first_bad_value() {
    let f = field(DataType::UInt16, false);
    let mut c = into_arrow(&vec![Value::UInt16(9)], &f).unwrap();
    let more = vec![Value::UInt16(10), Value::Null, Value::UInt16(11)];
    assert_eq!(arrow_serialize_extend(&more, &f, &mut c), Err(ConvertError::ValueNotOfType { row: 1 }));
    assert_eq!(
        arrow_array_deserialize_iterator(&c, &f).unwrap(),
        vec![Value::UInt16(9), Value::UInt16(10)]
    );
}

#[test]
fn empty_input_gives_empty_column() {
    let f = list_of(field(DataType::Utf8, true), true);
    let c = into_arrow(&vec![], &f).unwrap();
    assert_eq!(c.len(), 0);
    assert_eq!(arrow_array_deserialize_iterator(&c, &f).unwrap(), vec![]);
}

#[test]
fn field_descriptor_comparisons() {
    let a = list_of(field(DataType::Int32, true), false);
    let b = list_of(field(DataType::Int32, true), false);
    let c = list_of(field(DataType::Int32, false), false);
    assert!(a.same_as(&b));
    assert!(!a.same_as(&c));
    assert!(a.data_type.same_as(&b.data_type));
    assert!(!a.data_type.same_as(&c.data_type));
    assert_eq!(a.duplicate(), b);
    assert!(a.optional().nullable);
}

#[test]
fn list_append_keeps_child_and_offsets() {
    let f = list_of(field(DataType::Int16, false), true);
    let mut c = into_arrow(&vec![Value::List(vec![Value::Int16(1), Value::Int16(2)])], &f).unwrap();
    assert_eq!(arrow_serialize(&Value::List(vec![]), &f, &mut c), Ok(()));
    assert_eq!(arrow_serialize(&Value::Null, &f, &mut c), Ok(()));
    assert_eq!(
        arrow_serialize(&Value::List(vec![Value::Int16(3), Value::Int16(4), Value::Int16(5)]), &f, &mut c),
        Ok(())
    );
    assert_eq!(c.validity, vec![true, true, false, true]);
    match &c.payload {
        Payload::List(offsets, child) => {
            assert_eq!(offsets, &vec![0usize, 2, 2, 2, 5]);
            assert_eq!(fixed(child), &vec![1i128, 2, 3, 4, 5]);
            assert_eq!(child.validity, vec![true; 5]);
        }
        other => panic!("not a list payload: {:?}", other),
    }
}

#[test]
fn well_formedness_check() {
    let f = list_of(field(DataType::UInt8, false), false);
    let c = into_arrow(&vec![Value::List(vec![Value::UInt8(7)])], &f).unwrap();
    assert!(c.is_well_formed());
    let shifted = Column {
        data_type: DataType::List(Box::new(field(DataType::UInt8, false))),
        validity: vec![true],
        payload: Payload::List(
            vec![1, 2],
            Box::new(Column { data_type: DataType::UInt8, validity: vec![true, true], payload: Payload::Fixed(vec![1, 2]) }),
        ),
    };
    assert!(!shifted.is_well_formed());
    let too_wide = Column { data_type: DataType::UInt8, validity: vec![true], payload: Payload::Fixed(vec![256]) };
    assert!(!too_wide.is_well_formed());
}
