//! A small columnar record store: schemas, the records built against them,
//! primary keys with their hashes, and the metadata of the chunks that hold
//! each column.
pub mod name_map;
pub mod fx;
pub mod text;
pub mod record;
pub mod schema;
pub mod buffer;
pub mod store;
pub mod wire;
pub mod types;
