use my_little_db::name_map::NameMap;
use my_little_db::text::IntErrorKind;
use my_little_db::types::{
    Buffer, FieldDefinition, FieldValue, FloatReading, PrimaryKey, Record, Schema, TypesError,
    Value, ValueType,
};

fn reading(text: &str) -> FloatReading {
    FloatReading {
        as_f32: text.parse::<f32>().ok().map(f32::to_bits),
        as_f64: text.parse::<f64>().ok().map(f64::to_bits),
    }
}

fn readings(values: &[(&str, &str)]) -> Vec<FloatReading> {
    values.iter().map(|(_, t)| reading(t)).collect()
}

fn schema() -> Schema {
    Schema::new(
        vec!["id", "part"],
        vec![
            ("id", ValueType::Long),
            ("part", ValueType::Short),
            ("count", ValueType::Int),
            ("ratio", ValueType::Float),
            ("weight", ValueType::Double),
            ("label", ValueType::String),
            ("nothing", ValueType::Null),
        ],
    )
    .unwrap()
}

#[test]
fn schema_rejects_empty_field_name() {
    let err = Schema::new(vec![], vec![("a", ValueType::Int), ("", ValueType::Int)]).unwrap_err();
    assert!(matches!(err, TypesError::FieldNameMissing));
    assert_eq!(err.message(), "Field name is missing");
}

#[test]
fn schema_rejects_unknown_primary_key() {
    let err = Schema::new(vec!["a", "b", "c"], vec![("a", ValueType::Int)]).unwrap_err();
    match &err {
        TypesError::PrimaryKeyFieldNotFound(k) => assert_eq!(k, "b"),
        other => panic!("unexpected {:?}", other),
    }
    assert_eq!(err.message(), "primary key field b not found in fields");
}

#[test]
fn empty_name_is_reported_before_unknown_key() {
    let err = Schema::new(vec!["zzz"], vec![("", ValueType::Int)]).unwrap_err();
    assert!(matches!(err, TypesError::FieldNameMissing));
}

#[test]
fn field_definition_from_pair_and_default() {
    let d = FieldDefinition::from(("x", ValueType::Double));
    assert_eq!(d.name, "x");
    assert_eq!(d.kind, ValueType::Double);
    let e = FieldDefinition::default();
    assert_eq!(e.name, "");
    assert_eq!(e.kind, ValueType::Null);
    assert_eq!(ValueType::default(), ValueType::Null);
}

#[test]
fn parse_each_kind() {
    let v = FieldValue::parse(ValueType::Short, ("p", "-12"), reading("-12")).unwrap();
    assert_eq!(v.field, "p");
    assert!(matches!(v.value, Value::Short(-12)));
    let v = FieldValue::parse(ValueType::Int, ("p", "70000"), reading("70000")).unwrap();
    assert!(matches!(v.value, Value::Int(70000)));
    let v = FieldValue::parse(ValueType::Long, ("p", "+5"), reading("+5")).unwrap();
    assert!(matches!(v.value, Value::Long(5)));
    let v = FieldValue::parse(ValueType::String, ("p", "hi"), reading("hi")).unwrap();
    assert!(matches!(v.value, Value::String(ref s) if s == "hi"));
    let v = FieldValue::parse(ValueType::Float, ("p", "1.5"), reading("1.5")).unwrap();
    assert!(matches!(v.value, Value::Float(b) if b == 1.5f32.to_bits()));
    let v = FieldValue::parse(ValueType::Double, ("p", "2.25"), reading("2.25")).unwrap();
    assert!(matches!(v.value, Value::Double(b) if b == 2.25f64.to_bits()));
    let v = FieldValue::parse(ValueType::Null, ("p", "whatever"), reading("whatever")).unwrap();
    assert!(matches!(v.value, Value::Null));
}

#[test]
fn parse_errors() {
    let e = FieldValue::parse(ValueType::Short, ("p", "40000"), reading("40000")).unwrap_err();
    assert!(matches!(e, TypesError::InvalidInteger(IntErrorKind::PosOverflow)));
    let e = FieldValue::parse(ValueType::Int, ("p", ""), reading("")).unwrap_err();
    assert!(matches!(e, TypesError::InvalidInteger(IntErrorKind::Empty)));
    let e = FieldValue::parse(ValueType::Long, ("p", "1.0"), reading("1.0")).unwrap_err();
    assert!(matches!(e, TypesError::InvalidInteger(IntErrorKind::InvalidDigit)));
    assert_eq!(e.message(), "1.0".parse::<i64>().unwrap_err().to_string());
    let e = FieldValue::parse(ValueType::Float, ("p", "abc"), reading("abc")).unwrap_err();
    assert!(matches!(e, TypesError::InvalidFloat { empty_text: false }));
    let e = FieldValue::parse(ValueType::Double, ("p", "1.0.0"), reading("1.0.0")).unwrap_err();
    assert!(matches!(e, TypesError::InvalidFloat { empty_text: false }));
}

#[test]
fn new_record_fills_fields_and_key() {
    let s = schema();
    let values = vec![("id", "7"), ("count", "3"), ("label", "x"), ("part", "2")];
    let r = s.new_record(values.clone(), readings(&values)).unwrap();
    assert_eq!(r.fields.len(), 4);
    assert_eq!(r.primary_key.value.len(), 2);
    assert!(matches!(r.primary_key.value.get("id"), Some(Value::Long(7))));
    assert!(matches!(r.primary_key.value.get("part"), Some(Value::Short(2))));
    assert!(matches!(r.fields.get("count").unwrap().value, Value::Int(3)));
    assert!(!r.primary_key.value.contains_key("count"));
}

#[test]
fn new_record_unknown_field_fails() {
    let s = schema();
    let values = vec![("id", "7"), ("foo", "bar"), ("count", "x")];
    let err = s.new_record(values.clone(), readings(&values)).unwrap_err();
    match &err {
        TypesError::FieldNotFound(k) => assert_eq!(k, "foo"),
        other => panic!("unexpected {:?}", other),
    }
    assert_eq!(err.message(), "Field not found: foo");
}

#[test]
fn new_record_bad_text_fails() {
    let s = schema();
    let values = vec![("id", "7"), ("count", "x"), ("foo", "bar")];
    let err = s.new_record(values.clone(), readings(&values)).unwrap_err();
    assert!(matches!(err, TypesError::InvalidInteger(IntErrorKind::InvalidDigit)));
}

#[test]
fn primary_key_encoding_is_postcard() {
    let key = PrimaryKey {
        value: NameMap::from_pairs(vec![
            ("id".to_string(), Value::Long(-5)),
            ("part".to_string(), Value::Short(300)),
            ("w".to_string(), Value::Double(2.5f64.to_bits())),
            ("r".to_string(), Value::Float(0.5f32.to_bits())),
            ("n".to_string(), Value::Null),
            ("s".to_string(), Value::String("ab".to_string())),
            ("i".to_string(), Value::Int(-70000)),
        ]),
    };
    let mut expected = postcard::to_allocvec(&7u64).unwrap();
    expected.extend(postcard::to_allocvec(&("id", 4u32, -5i64)).unwrap());
    expected.extend(postcard::to_allocvec(&("part", 2u32, 300i16)).unwrap());
    expected.extend(postcard::to_allocvec(&("w", 6u32, 2.5f64)).unwrap());
    expected.extend(postcard::to_allocvec(&("r", 5u32, 0.5f32)).unwrap());
    expected.extend(postcard::to_allocvec(&("n", 0u32)).unwrap());
    expected.extend(postcard::to_allocvec(&("s", 1u32, "ab")).unwrap());
    expected.extend(postcard::to_allocvec(&("i", 3u32, -70000i32)).unwrap());
    let encoded = key.encoded().unwrap();
    assert_eq!(encoded, expected);
    assert_eq!(key.hash().unwrap(), xxhash_rust::xxh3::xxh3_64(&expected));
}

#[test]
fn one_entry_key_matches_postcard_map() {
    // postcard writes a map as its length followed by its entries
    let mut map = std::collections::HashMap::new();
    map.insert("id".to_string(), (4u32, 9i64));
    let expected = postcard::to_allocvec(&map).unwrap();
    let key = PrimaryKey { value: NameMap::from_pairs(vec![("id".to_string(), Value::Long(9))]) };
    assert_eq!(key.encoded().unwrap(), expected);
}

#[test]
fn buffer_keeps_records_by_key_hash() {
    let s = schema();
    let mut buffer = Buffer::new(&s);
    let values = vec![("id", "1"), ("part", "1")];
    let r1: Record = s.new_record(values.clone(), readings(&values)).unwrap();
    let h1 = r1.primary_key.hash().unwrap();
    assert!(buffer.append(r1.clone()).is_ok());
    assert!(buffer.append(r1).is_ok());
    let shown = format!("{:?}", buffer);
    assert!(shown.contains(&h1.to_string()));
    assert_eq!(shown.matches("PrimaryKey {").count(), 1);
}

#[test]
fn parse_error_messages_match_std() {
    let cases: [(ValueType, &str); 8] = [
        (ValueType::Short, ""),
        (ValueType::Short, "1x"),
        (ValueType::Short, "32768"),
        (ValueType::Short, "-32769"),
        (ValueType::Int, "+"),
        (ValueType::Long, "99999999999999999999"),
        (ValueType::Float, ""),
        (ValueType::Double, "x.5"),
    ];
    for (kind, text) in cases {
        let e = FieldValue::parse(kind, ("f", text), reading(text)).unwrap_err();
        let expected = match kind {
            ValueType::Short => text.parse::<i16>().unwrap_err().to_string(),
            ValueType::Int => text.parse::<i32>().unwrap_err().to_string(),
            ValueType::Long => text.parse::<i64>().unwrap_err().to_string(),
            ValueType::Float => text.parse::<f32>().unwrap_err().to_string(),
            _ => text.parse::<f64>().unwrap_err().to_string(),
        };
        assert_eq!(e.message(), expected, "{:?} {:?}", kind, text);
    }
    let e = FieldValue::parse(ValueType::Float, ("f", ""), reading("")).unwrap_err();
    assert!(matches!(e, TypesError::InvalidFloat { empty_text: true }));
    assert_eq!(TypesError::Serialize.message(), "can't serialize primary key");
}

#[test]
fn appending_a_copy_again_keeps_one_record() {
    let s = schema();
    let values = vec![("id", "3"), ("part", "4"), ("label", "x")];
    let r = s.new_record(values.clone(), readings(&values)).unwrap();
    let mut once = Buffer::new(&s);
    once.append(r.clone()).unwrap();
    let mut twice = Buffer::new(&s);
    twice.append(r.clone()).unwrap();
    twice.append(r.clone()).unwrap();
    assert_eq!(format!("{:?}", once), format!("{:?}", twice));
    assert_eq!(r.clone().primary_key.hash().unwrap(), r.primary_key.hash().unwrap());
}

#[test]
fn encoding_counts_utf8_bytes_of_names() {
    let key = PrimaryKey {
        value: NameMap::from_pairs(vec![("é".to_string(), Value::String("ü€".to_string()))]),
    };
    let mut map = std::collections::HashMap::new();
    map.insert("é".to_string(), (1u32, "ü€".to_string()));
    assert_eq!(key.encoded().unwrap(), postcard::to_allocvec(&map).unwrap());
}
