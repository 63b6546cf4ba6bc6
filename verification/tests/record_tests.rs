use core::hash::{Hash, Hasher};
use my_little_db::name_map::NameMap;
use my_little_db::record::{DisplayText, Field, PrimaryKey, Value, ValueType};
use rustc_hash::FxHasher;

/// What `Display` writes for a value: the library's text, or the `Debug`
/// text of the `f64` that it hands back for a float.
fn shown(v: &Value) -> String {
    match v.display_text() {
        DisplayText::Text(t) => t,
        DisplayText::Float(bits) => format!("{:?}", f64::from_bits(bits)),
    }
}

#[test]
fn test_value_display() {
    assert_eq!(shown(&Value::Null), "");
    assert_eq!(shown(&Value::String("1".to_string())), "1");
    assert_eq!(shown(&Value::Integer(1)), "1");
    assert_eq!(shown(&Value::Float(1.0f64.to_bits())), "1.0");
    assert_eq!(shown(&Value::Bool(true)), "true");
}

#[test]
fn float_display_hands_back_its_bits() {
    let bits = 2.75f64.to_bits();
    assert_eq!(Value::Float(bits).display_text(), DisplayText::Float(bits));
    assert_eq!(Value::Integer(3).display_text(), DisplayText::Text("3".to_string()));
}

#[test]
fn test_new_primary_key() {
    let values: NameMap<Field> = NameMap::from_pairs(vec![
        ("id".to_string(), Field { name: "id".to_string(), value: Value::Integer(1) }),
        ("sub_id".to_string(), Field { name: "sub_id".to_string(), value: Value::Integer(1) }),
    ]);

    let pk = PrimaryKey::new(values);

    assert_eq!(pk.hash, 7011865262788786561);
    assert_eq!(pk.fields.len(), 2);
    assert_eq!(
        pk.fields.get("id").unwrap(),
        &Field { name: "id".to_string(), value: Value::Integer(1) }
    );
}

#[test]
fn value_display_of_other_values() {
    fn text(v: Value) -> String {
        match v.display_text() {
            DisplayText::Text(t) => t,
            DisplayText::Float(_) => panic!("not a text"),
        }
    }
    assert_eq!(text(Value::Integer(-42)), "-42");
    assert_eq!(text(Value::Integer(i64::MIN)), "-9223372036854775808");
    assert_eq!(text(Value::Integer(i64::MAX)), "9223372036854775807");
    assert_eq!(text(Value::Bool(false)), "false");
    assert_eq!(text(Value::String("a b".to_string())), "a b");
}

#[test]
fn defaults_by_kind() {
    assert_eq!(Value::get_default(ValueType::Null), Value::Null);
    assert_eq!(Value::get_default(ValueType::String), Value::String(String::new()));
    assert_eq!(Value::get_default(ValueType::Integer), Value::Integer(0));
    assert_eq!(Value::get_default(ValueType::Float), Value::Float(0.0f64.to_bits()));
    assert_eq!(Value::get_default(ValueType::Bool), Value::Bool(false));
}

#[test]
fn kinds_of_values() {
    assert!(Value::String("x".to_string()).has_kind(ValueType::String));
    assert!(Value::Integer(3).has_kind(ValueType::Integer));
    assert!(Value::Float(0).has_kind(ValueType::Float));
    assert!(Value::Bool(true).has_kind(ValueType::Bool));
    assert!(!Value::Integer(3).has_kind(ValueType::String));
    assert!(!Value::Null.has_kind(ValueType::Null));
    assert!(!Value::Integer(3).has_kind(ValueType::Null));
}

#[test]
fn field_new_keeps_name_and_value() {
    let f = Field::new("status", Value::Integer(7));
    assert_eq!(f.name, "status");
    assert_eq!(f.value, Value::Integer(7));
}

#[test]
fn primary_key_hash_follows_values_in_order() {
    let bits = 2.5f64.to_bits();
    let fields: NameMap<Field> = NameMap::from_pairs(vec![
        ("a".to_string(), Field::new("a", Value::String("abc".to_string()))),
        ("b".to_string(), Field::new("b", Value::Bool(true))),
        ("c".to_string(), Field::new("c", Value::Float(bits))),
        ("d".to_string(), Field::new("d", Value::Null)),
        ("e".to_string(), Field::new("e", Value::Integer(-3))),
    ]);
    let pk = PrimaryKey::new(fields);

    let mut h = FxHasher::default();
    1u8.hash(&mut h);
    "abc".hash(&mut h);
    4u8.hash(&mut h);
    true.hash(&mut h);
    3u8.hash(&mut h);
    bits.hash(&mut h);
    0u8.hash(&mut h);
    2u8.hash(&mut h);
    (-3i64).hash(&mut h);
    assert_eq!(pk.hash, h.finish());
    assert_eq!(pk.fields.len(), 5);
}

#[test]
fn primary_key_hash_ignores_names() {
    let a = PrimaryKey::new(NameMap::from_pairs(vec![(
        "x".to_string(),
        Field::new("x", Value::Integer(9)),
    )]));
    let b = PrimaryKey::new(NameMap::from_pairs(vec![(
        "y".to_string(),
        Field::new("y", Value::Integer(9)),
    )]));
    assert_eq!(a.hash, b.hash);
    let c = PrimaryKey::new(NameMap::from_pairs(vec![(
        "x".to_string(),
        Field::new("x", Value::Integer(10)),
    )]));
    assert_ne!(a.hash, c.hash);
}

#[test]
fn empty_primary_key_hash_is_fresh_digest() {
    let pk = PrimaryKey::new(NameMap::new());
    assert_eq!(pk.hash, FxHasher::default().finish());
}

#[test]
fn floats_compare_as_f64() {
    let samples = [0.0f64, -0.0, 1.5, -1.5, f64::NAN, -f64::NAN, f64::INFINITY, f64::NEG_INFINITY,
        f64::MIN_POSITIVE, 5e-324, f64::MAX];
    for a in samples {
        for b in samples {
            assert_eq!(
                Value::Float(a.to_bits()) == Value::Float(b.to_bits()),
                a == b,
                "{:?} {:?}",
                a,
                b
            );
        }
    }
    let nan_bits = f64::from_bits(0x7ff0_0000_0000_0001);
    assert!(Value::Float(nan_bits.to_bits()) != Value::Float(nan_bits.to_bits()));
    assert_eq!(Value::Float(0.0f64.to_bits()), Value::Float((-0.0f64).to_bits()));
    assert!(Value::Integer(1) != Value::Bool(true));
    assert_eq!(Value::String("a".to_string()), Value::String("a".to_string()));
}
