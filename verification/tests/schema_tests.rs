use my_little_db::record::{Field, Value, ValueType};
use my_little_db::schema::{FieldDefinition, Schema, SchemaError};

fn test_schema() -> Schema {
    Schema::new(
        vec!["id", "timestamp"],
        vec![
            FieldDefinition::new("id", ValueType::Integer),
            FieldDefinition::new("timestamp", ValueType::Integer),
            FieldDefinition::new("duration", ValueType::Float),
            FieldDefinition::new("filename", ValueType::String),
            FieldDefinition::new("status", ValueType::Integer),
        ],
    )
}

#[test]
fn test_new_record_correct_fields() {
    let schema = test_schema();

    let record = schema
        .new_record(vec![
            Field::new("id", Value::Integer(2)),
            Field::new("timestamp", Value::Integer(3)),
            Field::new("duration", Value::Float(3.5f64.to_bits())),
            Field::new("filename", Value::String(String::from("filename"))),
            Field::new("status", Value::Integer(1)),
        ])
        .unwrap();

    assert_eq!(record.primary_key.len(), 2);
    assert!(record.values.contains_key("id"));
    assert_eq!(record.values.get("id").unwrap().value, Value::Integer(2));
    assert!(record.values.contains_key("timestamp"));
    assert_eq!(record.values.get("timestamp").unwrap().value, Value::Integer(3));
    assert!(record.values.contains_key("duration"));
    assert_eq!(record.values.get("duration").unwrap().value, Value::Float(3.5f64.to_bits()));
    assert!(record.values.contains_key("filename"));
    assert_eq!(
        record.values.get("filename").unwrap().value,
        Value::String("filename".to_string())
    );
    assert!(record.values.contains_key("status"));
    assert_eq!(record.values.get("status").unwrap().value, Value::Integer(1));
}

#[test]
fn test_new_record_default_fields() {
    let schema = test_schema();

    let record = schema
        .new_record(vec![
            Field::new("id", Value::Integer(2)),
            Field::new("timestamp", Value::Integer(3)),
            Field::new("duration", Value::Float(3.5f64.to_bits())),
        ])
        .unwrap();

    assert!(record.values.contains_key("filename"));
    assert_eq!(record.values.get("filename").unwrap().value, Value::String("".to_string()));
    assert!(record.values.contains_key("status"));
    assert_eq!(record.values.get("status").unwrap().value, Value::Integer(0));
}

#[test]
fn test_new_record_unrecognized_fields() {
    let schema = test_schema();

    let record = schema
        .new_record(vec![
            Field::new("id", Value::Integer(2)),
            Field::new("timestamp", Value::Integer(3)),
            Field::new("duration", Value::Float(3.5f64.to_bits())),
            Field::new("filename", Value::String(String::from("filename"))),
            Field::new("status", Value::Integer(1)),
            Field::new("foo", Value::String(String::from("bar"))),
        ])
        .unwrap();

    assert!(!record.values.contains_key("foo"));
}

#[test]
fn new_record_without_values_holds_defaults() {
    let schema = test_schema();
    let record = schema.new_record(vec![]).unwrap();
    assert_eq!(record.values.len(), 5);
    assert_eq!(record.primary_key.len(), 0);
    assert_eq!(record.values.get("id").unwrap().value, Value::Integer(0));
    assert_eq!(record.values.get("id").unwrap().name, "id");
    assert_eq!(record.values.get("duration").unwrap().value, Value::Float(0));
}

#[test]
fn new_record_wrong_kind_names_first_bad_field() {
    let schema = test_schema();
    let err = schema
        .new_record(vec![
            Field::new("id", Value::Integer(2)),
            Field::new("filename", Value::Integer(5)),
            Field::new("status", Value::Bool(true)),
        ])
        .unwrap_err();
    match &err {
        SchemaError::InvalidValueType { field } => assert_eq!(field, "filename"),
    }
    assert_eq!(err.message(), "invalid value type for filename");
}

#[test]
fn new_record_null_kind_always_fails() {
    let schema = Schema::new(vec![], vec![FieldDefinition::new("n", ValueType::Null)]);
    let err = schema.new_record(vec![Field::new("n", Value::Null)]).unwrap_err();
    assert_eq!(err.message(), "invalid value type for n");
    // not given, it holds no value and the record is built
    let record = schema.new_record(vec![]).unwrap();
    assert_eq!(record.values.get("n").unwrap().value, Value::Null);
}

#[test]
fn new_record_later_value_wins_and_key_follows() {
    let schema = test_schema();
    let record = schema
        .new_record(vec![
            Field::new("id", Value::Integer(2)),
            Field::new("status", Value::Integer(4)),
            Field::new("id", Value::Integer(8)),
        ])
        .unwrap();
    assert_eq!(record.values.get("id").unwrap().value, Value::Integer(8));
    assert_eq!(record.primary_key.len(), 1);
    assert_eq!(record.primary_key.get("id").unwrap().value, Value::Integer(8));
    assert!(!record.primary_key.contains_key("status"));
}

#[test]
fn schema_later_definition_wins() {
    let schema = Schema::new(
        vec!["a"],
        vec![
            FieldDefinition::new("a", ValueType::Integer),
            FieldDefinition::new("a", ValueType::String),
        ],
    );
    assert_eq!(schema.fields().len(), 1);
    assert!(schema.new_record(vec![Field::new("a", Value::String("x".to_string()))]).is_ok());
    assert!(schema.new_record(vec![Field::new("a", Value::Integer(1))]).is_err());
}

#[test]
fn primary_key_name_not_defined_is_never_in_key() {
    let schema = Schema::new(vec!["ghost"], vec![FieldDefinition::new("a", ValueType::Bool)]);
    let record = schema
        .new_record(vec![Field::new("ghost", Value::Bool(true)), Field::new("a", Value::Bool(true))])
        .unwrap();
    assert_eq!(record.primary_key.len(), 0);
    assert!(!record.values.contains_key("ghost"));
    assert_eq!(record.values.get("a").unwrap().value, Value::Bool(true));
}

#[test]
fn schema_clone_keeps_fields() {
    let schema = test_schema();
    let copy = schema.clone();
    assert_eq!(copy.fields().len(), 5);
    assert!(copy.fields().contains_key("status"));
}
