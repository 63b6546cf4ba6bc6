//! The store: the chunks that hold each column, their metadata, and the
//! store value itself.  Reading and writing files is left to the caller.
use crate::buffer::Buffer;
use crate::name_map::{
    NameMap, entries_to_map, keys_distinct, lemma_entry_in_map, lemma_map_key_has_entry,
    lemma_map_len,
};
use crate::record::Record;
use crate::schema::{FieldDefinitionModel, Schema};
use crate::text::{decimal, is_digit, lemma_decimal_digits, lemma_decimal_injective, u64_text};
use vstd::prelude::*;
use vstd::string::*;

verus! {

/// The identifier of the chunk of sequence number `seq` of a column.
pub open spec fn chunk_id(column: Seq<char>, seq: u64) -> Seq<char> {
    "chunk-"@ + column + "-"@ + decimal(seq as nat)
}

/// The name of the file of a chunk, relative to the store's directory.
pub open spec fn chunk_file(id: Seq<char>) -> Seq<char> {
    id + ".d"@
}

/// A chunk: a piece of one column, with the range of hashes and the
/// number and size of the records it holds.
#[derive(Clone, Debug)]
pub struct Chunk {
    pub id: String,
    pub column: String,
    pub seq: u64,
    pub path: String,
    pub start_hash: u64,
    pub end_hash: u64,
    pub records: u64,
    pub size: u64,
}

/// What a chunk is.
pub struct ChunkModel {
    pub id: Seq<char>,
    pub column: Seq<char>,
    pub seq: u64,
    pub path: Seq<char>,
    pub start_hash: u64,
    pub end_hash: u64,
    pub records: u64,
    pub size: u64,
}

impl View for Chunk {
    type V = ChunkModel;

    open spec fn view(&self) -> ChunkModel {
        ChunkModel {
            id: self.id@,
            column: self.column@,
            seq: self.seq,
            path: self.path@,
            start_hash: self.start_hash,
            end_hash: self.end_hash,
            records: self.records,
            size: self.size,
        }
    }
}

/// A new, empty chunk of a column.
pub open spec fn new_chunk(column: Seq<char>, seq: u64) -> ChunkModel {
    ChunkModel {
        id: chunk_id(column, seq),
        column,
        seq,
        path: chunk_file(chunk_id(column, seq)),
        start_hash: 0,
        end_hash: 0,
        records: 0,
        size: 0,
    }
}

impl Chunk {
    /// A new, empty chunk of sequence number `seq` of the column `column`.
    pub fn new(column: String, seq: u64) -> (c: Chunk)
        ensures
            c@ == new_chunk(column@, seq),
    {
        proof {
            reveal_strlit("chunk-");
            reveal_strlit("-");
            reveal_strlit(".d");
        }
        let number = u64_text(seq);
        let id = String::from_str("chunk-").concat(column.as_str()).concat("-").concat(
            number.as_str(),
        );
        let path = id.clone().concat(".d");
        Chunk { id, column, seq, path, start_hash: 0, end_hash: 0, records: 0, size: 0 }
    }
}

/// Law: chunk identifiers are distinct: two chunks have the same
/// identifier only when they have the same column and sequence number.
pub proof fn lemma_chunk_id_injective(a: Seq<char>, s1: u64, b: Seq<char>, s2: u64)
    requires
        chunk_id(a, s1) == chunk_id(b, s2),
    ensures
        a == b,
        s1 == s2,
{
    let p = "chunk-"@;
    let d1 = decimal(s1 as nat);
    let d2 = decimal(s2 as nat);
    let x = chunk_id(a, s1);
    assert(x =~= p + a + seq!['-'] + d1) by {
        reveal_strlit("-");
    }
    assert(x =~= p + b + seq!['-'] + d2) by {
        reveal_strlit("-");
    }
    lemma_decimal_digits(s1 as nat);
    lemma_decimal_digits(s2 as nat);
    let l = x.len();
    if d1.len() < d2.len() {
        let k = l - d1.len() - 1;
        assert(x[k] == '-');
        assert(x[k] == d2[k - (l - d2.len())]);
        assert(is_digit(d2[k - (l - d2.len())]));
    } else if d2.len() < d1.len() {
        let k = l - d2.len() - 1;
        assert(x[k] == '-');
        assert(x[k] == d1[k - (l - d1.len())]);
        assert(is_digit(d1[k - (l - d1.len())]));
    }
    assert(d1 =~= x.subrange(l - d1.len(), l as int));
    assert(d2 =~= x.subrange(l - d2.len(), l as int));
    assert(a.len() == b.len());
    assert(a =~= x.subrange(p.len() as int, (p.len() + a.len()) as int));
    assert(b =~= x.subrange(p.len() as int, (p.len() + b.len()) as int));
    lemma_decimal_injective(s1 as nat, s2 as nat);
}

/// The path of the file `name` in the directory `dir`, as `PathBuf::push`
/// joins a relative name on Unix: a `/` goes between them unless `dir` is
/// empty or already ends with one.
pub open spec fn joined_path(dir: Seq<char>, name: Seq<char>) -> Seq<char> {
    if dir.len() == 0 || dir.last() == '/' {
        dir + name
    } else {
        dir + seq!['/'] + name
    }
}

/// The path of the metadata file of the store in the directory `dir`.
fn metadata_file_path(dir: &str) -> (p: String)
    ensures
        p@ == joined_path(dir@, "metadata.json"@),
{
    let n = dir.unicode_len();
    let base = String::from_str(dir);
    proof {
        reveal_strlit("/");
    }
    let joined = if n == 0 || dir.get_char(n - 1) == '/' {
        base
    } else {
        base.concat("/")
    };
    joined.concat("metadata.json")
}

/// The chunks of the store, by identifier, and the path of the store's
/// metadata file.
#[derive(Debug)]
pub struct GlobalMetadata {
    pub path: String,
    pub chunks: NameMap<Chunk>,
}

impl GlobalMetadata {
    /// The metadata of a new store in the directory `path`: its file is
    /// `metadata.json` in that directory, and it has one empty chunk of
    /// sequence number 0 for each field that `schema` defines, held under
    /// the chunk's identifier.
    pub fn new(path: &str, schema: &Schema) -> (m: GlobalMetadata)
        ensures
            m.path@ == joined_path(path@, "metadata.json"@),
            forall|k: Seq<char>| #[trigger]
                schema.definitions().contains_key(k) ==> m.chunks@.contains_key(chunk_id(k, 0))
                    && m.chunks@[chunk_id(k, 0)] == new_chunk(k, 0),
            forall|id: Seq<char>| #[trigger]
                m.chunks@.contains_key(id) ==> exists|k: Seq<char>|
                    schema.definitions().contains_key(k) && id == chunk_id(k, 0),
            m.chunks@.len() == schema.definitions().len(),
    {
        let fields = schema.fields();
        let n = fields.len();
        let ghost entries = fields.entries();
        let ghost to_chunk = |e: (Seq<char>, FieldDefinitionModel)|
            (chunk_id(e.0, 0), new_chunk(e.0, 0));
        let ghost planned = entries.map_values(to_chunk);
        let mut chunks: NameMap<Chunk> = NameMap::new();
        proof {
            assert(entries_to_map(planned.take(0)) =~= Map::<Seq<char>, ChunkModel>::empty());
        }
        let mut i: usize = 0;
        while i < n
            invariant
                n == entries.len(),
                entries == fields.entries(),
                planned == entries.map_values(to_chunk),
                to_chunk == (|e: (Seq<char>, FieldDefinitionModel)|
                    (chunk_id(e.0, 0), new_chunk(e.0, 0))),
                i <= n,
                chunks@ == entries_to_map(planned.take(i as int)),
            decreases n - i,
        {
            let name = fields.key_at(i);
            let chunk = Chunk::new(name.clone(), 0);
            proof {
                assert(planned.take(i + 1).drop_last() =~= planned.take(i as int));
                assert(planned.take(i + 1).last() == planned[i as int]);
            }
            chunks.insert(chunk.id.clone(), chunk);
            i = i + 1;
        }
        proof {
            assert(planned.take(n as int) =~= planned);
            assert(keys_distinct(planned)) by {
                assert forall|a: int, b: int|
                    0 <= a < planned.len() && 0 <= b < planned.len() && a
                        != b implies #[trigger] planned[a].0 != #[trigger] planned[b].0 by {
                    if planned[a].0 == planned[b].0 {
                        lemma_chunk_id_injective(entries[a].0, 0, entries[b].0, 0);
                    }
                }
            }
            lemma_map_len(planned);
            assert forall|k: Seq<char>| #[trigger]
                schema.definitions().contains_key(k) implies chunks@.contains_key(chunk_id(k, 0))
                && chunks@[chunk_id(k, 0)] == new_chunk(k, 0) by {
                lemma_map_key_has_entry(entries, k);
                let a = choose|a: int| 0 <= a < entries.len() && #[trigger] entries[a].0 == k;
                lemma_entry_in_map(planned, a);
            }
            assert forall|id: Seq<char>| #[trigger]
                chunks@.contains_key(id) implies exists|k: Seq<char>|
                schema.definitions().contains_key(k) && id == chunk_id(k, 0) by {
                lemma_map_key_has_entry(planned, id);
                let a = choose|a: int| 0 <= a < planned.len() && #[trigger] planned[a].0 == id;
                lemma_entry_in_map(entries, a);
                assert(schema.definitions().contains_key(entries[a].0));
            }
        }
        GlobalMetadata { path: metadata_file_path(path), chunks }
    }
}

/// An open store: its directory, the records waiting to be written, and its
/// schema.
#[derive(Debug)]
pub struct Store {
    path: String,
    buffer: Buffer,
    schema: Schema,
}

impl Store {
    /// The directory of the store.
    pub closed spec fn directory(&self) -> Seq<char> {
        self.path@
    }

    /// The records waiting to be written.
    pub closed spec fn pending(&self) -> Seq<Record> {
        self.buffer.records()
    }

    /// The schema of the store.
    pub closed spec fn store_schema(&self) -> Schema {
        self.schema
    }

    /// The store in the directory `path` with schema `schema`, once its
    /// directory, metadata and chunk files are in place: nothing is
    /// buffered yet.
    pub fn new(path: &str, schema: &Schema) -> (s: Store)
        ensures
            s.directory() == path@,
            s.pending() == Seq::<Record>::empty(),
            s.store_schema().definitions() == schema.definitions(),
            s.store_schema().primary_key_names() == schema.primary_key_names(),
    {
        Store { path: String::from_str(path), buffer: Buffer::default(), schema: schema.clone() }
    }
}

} // verus!
