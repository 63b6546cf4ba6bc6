use my_little_db::buffer::Buffer;
use my_little_db::record::ValueType;
use my_little_db::schema::{FieldDefinition, Schema};
use my_little_db::store::{Chunk, GlobalMetadata, Store};

#[test]
fn chunk_new_names_id_and_file() {
    let c = Chunk::new("duration".to_string(), 0);
    assert_eq!(c.id, "chunk-duration-0");
    assert_eq!(c.path, "chunk-duration-0.d");
    assert_eq!(c.column, "duration");
    assert_eq!(c.seq, 0);
    assert_eq!((c.start_hash, c.end_hash, c.records, c.size), (0, 0, 0, 0));
    let d = Chunk::new("x".to_string(), 1234567890123);
    assert_eq!(d.id, "chunk-x-1234567890123");
    assert_eq!(d.path, "chunk-x-1234567890123.d");
    let e = Chunk::new("y".to_string(), u64::MAX);
    assert_eq!(e.id, format!("chunk-y-{}", u64::MAX));
}

#[test]
fn metadata_has_one_chunk_per_field() {
    let schema = Schema::new(
        vec!["id"],
        vec![
            FieldDefinition::new("id", ValueType::Integer),
            FieldDefinition::new("name", ValueType::String),
        ],
    );
    let meta = GlobalMetadata::new("./store", &schema);
    assert_eq!(std::path::PathBuf::from(&meta.path), std::path::PathBuf::from("./store/metadata.json"));
    assert_eq!(meta.path, "./store/metadata.json");
    assert_eq!(meta.chunks.len(), 2);
    let c = meta.chunks.get("chunk-id-0").unwrap();
    assert_eq!(c.column, "id");
    assert_eq!(c.path, "chunk-id-0.d");
    assert!(meta.chunks.contains_key("chunk-name-0"));
}

#[test]
fn metadata_path_joins_like_path_push() {
    let schema = Schema::new(vec![], vec![]);
    for dir in ["./store", "./store/", "", "/", "a/b", "/tmp/x"] {
        let mut expected = std::path::PathBuf::from(dir);
        expected.push("metadata.json");
        let meta = GlobalMetadata::new(dir, &schema);
        assert_eq!(std::path::PathBuf::from(&meta.path), expected, "{:?}", dir);
        assert_eq!(meta.path, expected.to_str().unwrap(), "{:?}", dir);
    }
}

#[test]
fn new_store_is_empty() {
    let schema = Schema::new(vec![], vec![FieldDefinition::new("a", ValueType::Bool)]);
    let store = Store::new("/tmp/somewhere", &schema);
    let shown = format!("{:?}", store);
    assert!(shown.contains("/tmp/somewhere"));
    assert!(shown.contains("records: []"));
    let b = Buffer::default();
    assert_eq!(format!("{:?}", b), "Buffer { records: [] }");
}

#[test]
fn chunk_ids_differ_across_columns_and_numbers() {
    let pairs = [("a", 12u64), ("a-1", 2), ("a", 1), ("a-", 12), ("a-1", 12)];
    for (i, (c1, s1)) in pairs.iter().enumerate() {
        for (j, (c2, s2)) in pairs.iter().enumerate() {
            let same = Chunk::new(c1.to_string(), *s1).id == Chunk::new(c2.to_string(), *s2).id;
            assert_eq!(same, i == j, "{:?} {:?}", pairs[i], pairs[j]);
        }
    }
}
