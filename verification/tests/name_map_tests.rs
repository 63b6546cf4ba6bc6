use my_little_db::name_map::NameMap;

#[test]
fn insert_then_get() {
    let mut m: NameMap<my_little_db::record::Value> = NameMap::new();
    assert_eq!(m.len(), 0);
    assert!(!m.contains_key("a"));
    m.insert("a".to_string(), my_little_db::record::Value::Integer(1));
    m.insert("b".to_string(), my_little_db::record::Value::Integer(2));
    assert_eq!(m.len(), 2);
    assert_eq!(m.get("a"), Some(&my_little_db::record::Value::Integer(1)));
    m.insert("a".to_string(), my_little_db::record::Value::Integer(3));
    assert_eq!(m.len(), 2);
    assert_eq!(m.get("a"), Some(&my_little_db::record::Value::Integer(3)));
    assert_eq!(m.key_at(0), "a");
    assert_eq!(m.key_at(1), "b");
    assert_eq!(m.value_at(1), &my_little_db::record::Value::Integer(2));
    assert_eq!(m.get("c"), None);
}

#[test]
fn from_pairs_later_pair_wins() {
    let m = NameMap::from_pairs(vec![
        ("k".to_string(), my_little_db::record::Value::Bool(false)),
        ("j".to_string(), my_little_db::record::Value::Null),
        ("k".to_string(), my_little_db::record::Value::Bool(true)),
    ]);
    assert_eq!(m.len(), 2);
    assert_eq!(m.get("k"), Some(&my_little_db::record::Value::Bool(true)));
    assert!(m.contains_key("j"));
    // the name keeps the place of its first pair
    assert_eq!(m.key_at(0), "k");
    assert_eq!(m.value_at(0), &my_little_db::record::Value::Bool(true));
    assert_eq!(m.key_at(1), "j");
}

#[test]
fn clone_keeps_entries() {
    let m = NameMap::from_pairs(vec![
        ("k".to_string(), my_little_db::record::Value::Integer(5)),
        ("j".to_string(), my_little_db::record::Value::String("s".to_string())),
    ]);
    let c = m.clone();
    assert_eq!(c.len(), 2);
    assert_eq!(c.key_at(0), "k");
    assert_eq!(c.get("j"), Some(&my_little_db::record::Value::String("s".to_string())));
}
