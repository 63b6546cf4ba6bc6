//! The typed model of records: values read from text against a schema, a
//! primary key hashed from its postcard encoding with xxh3, and a buffer of
//! records keyed by that hash.
use crate::name_map::{Duplicate, NameMap, entries_to_map, lemma_key_in_map};
use crate::text::{
    IntErrorKind, contains_text, lemma_parse_range, lemma_text_reads_back, parse_integer,
    read_integer, signed_decimal, texts,
};
use crate::wire::{
    encode_i16, encode_i32, encode_i64, encode_str, encode_u32, encode_u64, le_bytes_u32,
    le_bytes_u64, lemma_le_bytes_u32_injective, lemma_le_bytes_u64_injective,
    lemma_str_prefix_free, lemma_varint_prefix_free, lemma_zigzag_injective, postcard_i16,
    postcard_i32, postcard_i64, postcard_str, postcard_u32, postcard_u64, varint, xxh3_64,
    xxh3_64_digest, zigzag,
};
use std::collections::HashMap;
use vstd::prelude::*;
use vstd::string::*;

verus! {

broadcast use vstd::std_specs::hash::group_hash_axioms;

/// A value read from text.  A float is held as the bit pattern of its `f32`
/// or `f64`.
#[derive(Debug, Clone)]
pub enum Value {
    Null,
    String(String),
    Short(i16),
    Int(i32),
    Long(i64),
    Float(u32),
    Double(u64),
}

/// What a value is, with its text as a sequence of characters.
pub enum ValueModel {
    Null,
    String(Seq<char>),
    Short(i16),
    Int(i32),
    Long(i64),
    Float(u32),
    Double(u64),
}

impl View for Value {
    type V = ValueModel;

    open spec fn view(&self) -> ValueModel {
        match self {
            Value::Null => ValueModel::Null,
            Value::String(s) => ValueModel::String(s@),
            Value::Short(x) => ValueModel::Short(*x),
            Value::Int(x) => ValueModel::Int(*x),
            Value::Long(x) => ValueModel::Long(*x),
            Value::Float(b) => ValueModel::Float(*b),
            Value::Double(b) => ValueModel::Double(*b),
        }
    }
}

impl Duplicate for Value {
    fn duplicate(&self) -> (r: Value) {
        match self {
            Value::Null => Value::Null,
            Value::String(s) => Value::String(s.clone()),
            Value::Short(x) => Value::Short(*x),
            Value::Int(x) => Value::Int(*x),
            Value::Long(x) => Value::Long(*x),
            Value::Float(b) => Value::Float(*b),
            Value::Double(b) => Value::Double(*b),
        }
    }
}

/// The kind of value that a field holds.
#[derive(Debug, Clone, Copy, PartialEq, Eq, Structural)]
pub enum ValueType {
    Null,
    String,
    Short,
    Int,
    Long,
    Float,
    Double,
}

impl Default for ValueType {
    /// The kind of a field that holds no value.
    fn default() -> (t: Self)
        ensures
            t == ValueType::Null,
    {
        ValueType::Null
    }
}

/// The definition of a field: its name and the kind of value it holds.
#[derive(Debug, Clone)]
pub struct FieldDefinition {
    pub name: String,
    pub kind: ValueType,
}

/// What a field definition is.
pub struct FieldDefinitionModel {
    pub name: Seq<char>,
    pub kind: ValueType,
}

impl View for FieldDefinition {
    type V = FieldDefinitionModel;

    open spec fn view(&self) -> FieldDefinitionModel {
        FieldDefinitionModel { name: self.name@, kind: self.kind }
    }
}

impl Duplicate for FieldDefinition {
    fn duplicate(&self) -> (r: FieldDefinition) {
        FieldDefinition { name: self.name.clone(), kind: self.kind }
    }
}

impl Default for FieldDefinition {
    /// The definition with an empty name and no kind.
    fn default() -> (d: Self)
        ensures
            d@ == (FieldDefinitionModel { name: Seq::empty(), kind: ValueType::Null }),
    {
        FieldDefinition { name: String::new(), kind: ValueType::Null }
    }
}

impl FieldDefinition {
    /// The definition of the field named by the text, of the given kind.
    pub fn from(tuple: (&str, ValueType)) -> (d: FieldDefinition)
        ensures
            d@ == (FieldDefinitionModel { name: tuple.0@, kind: tuple.1 }),
    {
        let (name, kind) = tuple;
        FieldDefinition { name: String::from_str(name), kind }
    }
}

/// Why a schema, a value or a record cannot be made.
#[derive(Debug)]
pub enum TypesError {
    /// A field definition has an empty name.
    FieldNameMissing,
    /// A primary-key name is not the name of a field.
    PrimaryKeyFieldNotFound(String),
    /// A value is given for a field that the schema does not define.
    FieldNotFound(String),
    /// The text of a value is not an integer of the field's kind.
    InvalidInteger(IntErrorKind),
    /// The text of a value is not a float literal; `empty_text` tells
    /// whether the text was empty.
    InvalidFloat { empty_text: bool },
    /// A primary key cannot be encoded.
    Serialize,
}

/// What an error is, with its texts as sequences of characters.
pub enum TypesErrorModel {
    FieldNameMissing,
    PrimaryKeyFieldNotFound(Seq<char>),
    FieldNotFound(Seq<char>),
    InvalidInteger(IntErrorKind),
    InvalidFloat { empty_text: bool },
    Serialize,
}

impl View for TypesError {
    type V = TypesErrorModel;

    open spec fn view(&self) -> TypesErrorModel {
        match self {
            TypesError::FieldNameMissing => TypesErrorModel::FieldNameMissing,
            TypesError::PrimaryKeyFieldNotFound(k) => TypesErrorModel::PrimaryKeyFieldNotFound(k@),
            TypesError::FieldNotFound(k) => TypesErrorModel::FieldNotFound(k@),
            TypesError::InvalidInteger(e) => TypesErrorModel::InvalidInteger(*e),
            TypesError::InvalidFloat { empty_text } => TypesErrorModel::InvalidFloat {
                empty_text: *empty_text,
            },
            TypesError::Serialize => TypesErrorModel::Serialize,
        }
    }
}

/// The message of an error.  A parse error is worded as the standard
/// library's parse errors word themselves.
pub open spec fn error_message(e: TypesErrorModel) -> Seq<char> {
    match e {
        TypesErrorModel::FieldNameMissing => "Field name is missing"@,
        TypesErrorModel::PrimaryKeyFieldNotFound(k) => "primary key field "@ + k
            + " not found in fields"@,
        TypesErrorModel::FieldNotFound(k) => "Field not found: "@ + k,
        TypesErrorModel::InvalidInteger(kind) => match kind {
            IntErrorKind::Empty => "cannot parse integer from empty string"@,
            IntErrorKind::InvalidDigit => "invalid digit found in string"@,
            IntErrorKind::PosOverflow => "number too large to fit in target type"@,
            IntErrorKind::NegOverflow => "number too small to fit in target type"@,
        },
        TypesErrorModel::InvalidFloat { empty_text } => if empty_text {
            "cannot parse float from empty string"@
        } else {
            "invalid float literal"@
        },
        TypesErrorModel::Serialize => "can't serialize primary key"@,
    }
}

impl TypesError {
    /// The message of the error.
    pub fn message(&self) -> (m: String)
        ensures
            m@ == error_message(self@),
    {
        match self {
            TypesError::FieldNameMissing => String::from_str("Field name is missing"),
            TypesError::PrimaryKeyFieldNotFound(k) => String::from_str(
                "primary key field ",
            ).concat(k.as_str()).concat(" not found in fields"),
            TypesError::FieldNotFound(k) => String::from_str("Field not found: ").concat(
                k.as_str(),
            ),
            TypesError::InvalidInteger(kind) => match kind {
                IntErrorKind::Empty => String::from_str("cannot parse integer from empty string"),
                IntErrorKind::InvalidDigit => String::from_str("invalid digit found in string"),
                IntErrorKind::PosOverflow => String::from_str(
                    "number too large to fit in target type",
                ),
                IntErrorKind::NegOverflow => String::from_str(
                    "number too small to fit in target type",
                ),
            },
            TypesError::InvalidFloat { empty_text } => {
                if *empty_text {
                    String::from_str("cannot parse float from empty string")
                } else {
                    String::from_str("invalid float literal")
                }
            },
            TypesError::Serialize => String::from_str("can't serialize primary key"),
        }
    }
}

/// The texts of the given string slices.
pub open spec fn str_texts(v: Seq<&str>) -> Seq<Seq<char>> {
    v.map_values(|s: &str| s@)
}

/// The names and kinds given to `Schema::new`, as texts.
pub open spec fn named_kinds(fields: Seq<(&str, ValueType)>) -> Seq<(Seq<char>, ValueType)> {
    fields.map_values(|p: (&str, ValueType)| (p.0@, p.1))
}

/// The definitions that the given names and kinds make, by name; a later
/// one replaces an earlier one of the same name.
pub open spec fn definitions_of(fields: Seq<(Seq<char>, ValueType)>) -> Map<
    Seq<char>,
    FieldDefinitionModel,
> {
    entries_to_map(
        fields.map_values(
            |e: (Seq<char>, ValueType)| (e.0, FieldDefinitionModel { name: e.0, kind: e.1 }),
        ),
    )
}

/// Whether one of the given names is empty.
pub open spec fn has_empty_name(fields: Seq<(Seq<char>, ValueType)>) -> bool {
    exists|i: int| 0 <= i < fields.len() && (#[trigger] fields[i]).0.len() == 0
}

/// Whether the primary-key name at position `j` is not among the names.
pub open spec fn key_missing_at(
    fields: Seq<(Seq<char>, ValueType)>,
    keys: Seq<Seq<char>>,
    j: int,
) -> bool {
    forall|i: int| 0 <= i < fields.len() ==> (#[trigger] fields[i]).0 != keys[j]
}

/// Law: the primary-key names of a schema that `Schema::new` accepts are
/// all names of its fields.
pub proof fn lemma_schema_keys_are_fields(
    fields: Seq<(Seq<char>, ValueType)>,
    keys: Seq<Seq<char>>,
)
    requires
        forall|j: int| 0 <= j < keys.len() ==> !key_missing_at(fields, keys, j),
    ensures
        forall|j: int| 0 <= j < keys.len() ==> definitions_of(fields).contains_key(#[trigger] keys[j]),
{
    let keyed = fields.map_values(
        |e: (Seq<char>, ValueType)| (e.0, FieldDefinitionModel { name: e.0, kind: e.1 }),
    );
    assert forall|j: int| 0 <= j < keys.len() implies definitions_of(fields).contains_key(
        #[trigger] keys[j],
    ) by {
        assert(!key_missing_at(fields, keys, j));
        let i = choose|i: int| 0 <= i < fields.len() && (#[trigger] fields[i]).0 == keys[j];
        assert(keyed[i].0 == keys[j]);
        lemma_key_in_map(keyed, i);
    }
}

/// The names of the primary-key fields and the definitions of all fields.
#[derive(Debug)]
pub struct Schema {
    primary_key: Vec<String>,
    fields: NameMap<FieldDefinition>,
}

impl Schema {
    /// Each definition is held under its own name.
    #[verifier::type_invariant]
    closed spec fn definitions_under_their_names(self) -> bool {
        forall|k: Seq<char>| #[trigger]
            self.fields@.contains_key(k) ==> self.fields@[k].name == k
    }

    /// The names of the primary-key fields, in the order given.
    pub closed spec fn primary_key_names(&self) -> Seq<Seq<char>> {
        texts(self.primary_key@)
    }

    /// The definitions of the fields, by name.
    pub closed spec fn definitions(&self) -> Map<Seq<char>, FieldDefinitionModel> {
        self.fields@
    }

    /// The schema with the given primary-key fields and fields.  It fails
    /// when a field's name is empty, and otherwise when a primary-key name
    /// is not the name of a field, naming the first such key.
    pub fn new(primary_key: Vec<&str>, fields: Vec<(&str, ValueType)>) -> (r: Result<
        Schema,
        TypesError,
    >)
        ensures
            ({
                let given = named_kinds(fields@);
                let keys = str_texts(primary_key@);
                match r {
                    Ok(s) => {
                        &&& !has_empty_name(given)
                        &&& forall|j: int| 0 <= j < keys.len() ==> !key_missing_at(given, keys, j)
                        &&& s.definitions() == definitions_of(given)
                        &&& s.primary_key_names() == keys
                    },
                    Err(e) => if has_empty_name(given) {
                        e@ == TypesErrorModel::FieldNameMissing
                    } else {
                        exists|j: int|
                            0 <= j < keys.len() && key_missing_at(given, keys, j) && (forall|l: int|
                                0 <= l < j ==> !key_missing_at(given, keys, l)) && e@
                                == TypesErrorModel::PrimaryKeyFieldNotFound(keys[j])
                    },
                }
            }),
    {
        let ghost given = named_kinds(fields@);
        let ghost keys = str_texts(primary_key@);
        let ghost keyed = given.map_values(
            |e: (Seq<char>, ValueType)| (e.0, FieldDefinitionModel { name: e.0, kind: e.1 }),
        );
        let mut existing_fields: Vec<String> = Vec::new();
        let mut field_definitions: NameMap<FieldDefinition> = NameMap::new();
        proof {
            assert(entries_to_map(keyed.take(0)) =~= Map::<
                Seq<char>,
                FieldDefinitionModel,
            >::empty());
        }
        let mut i: usize = 0;
        while i < fields.len()
            invariant
                i <= fields@.len(),
                given == named_kinds(fields@),
                keyed == given.map_values(
                    |e: (Seq<char>, ValueType)| (e.0, FieldDefinitionModel { name: e.0, kind: e.1 }),
                ),
                forall|j: int| 0 <= j < i ==> (#[trigger] given[j]).0.len() != 0,
                existing_fields@.len() == i,
                forall|j: int| 0 <= j < i ==> (#[trigger] existing_fields@[j])@ == given[j].0,
                field_definitions@ == entries_to_map(keyed.take(i as int)),
                forall|k: Seq<char>| #[trigger]
                    field_definitions@.contains_key(k) ==> field_definitions@[k].name == k,
            decreases fields@.len() - i,
        {
            let (name, kind) = fields[i];
            let field_definition = FieldDefinition::from((name, kind));
            if field_definition.name.unicode_len() == 0 {
                proof {
                    assert(given[i as int].0.len() == 0);
                }
                return Err(TypesError::FieldNameMissing);
            }
            existing_fields.push(String::from_str(name));
            proof {
                assert(keyed.take(i + 1).drop_last() =~= keyed.take(i as int));
                assert(keyed.take(i + 1).last() == keyed[i as int]);
            }
            field_definitions.insert(String::from_str(name), field_definition);
            i = i + 1;
        }
        proof {
            assert(keyed.take(i as int) =~= keyed);
            assert(!has_empty_name(given));
        }
        let mut primary_keys: Vec<String> = Vec::new();
        let mut j: usize = 0;
        while j < primary_key.len()
            invariant
                j <= primary_key@.len(),
                keys == str_texts(primary_key@),
                given == named_kinds(fields@),
                !has_empty_name(given),
                existing_fields@.len() == given.len(),
                forall|a: int| 0 <= a < given.len() ==> (#[trigger] existing_fields@[a])@ == given[a].0,
                forall|l: int| 0 <= l < j ==> !key_missing_at(given, keys, l),
                texts(primary_keys@) =~= keys.take(j as int),
            decreases primary_key@.len() - j,
        {
            let key = primary_key[j];
            if !contains_text(&existing_fields, key) {
                proof {
                    assert(keys[j as int] == key@);
                    assert forall|a: int| 0 <= a < given.len() implies (#[trigger] given[a]).0
                        != keys[j as int] by {
                        assert(existing_fields@[a]@ == given[a].0);
                        assert(texts(existing_fields@)[a] == existing_fields@[a]@);
                    }
                    assert(key_missing_at(given, keys, j as int));
                }
                let e = TypesError::PrimaryKeyFieldNotFound(String::from_str(key));
                return Err(e);
            }
            proof {
                let a = choose|a: int|
                    0 <= a < existing_fields@.len() && #[trigger] texts(existing_fields@)[a] == key@;
                assert(existing_fields@[a]@ == key@);
                assert(given[a].0 == keys[j as int]);
            }
            let ghost before = primary_keys@;
            let text = String::from_str(key);
            primary_keys.push(text);
            proof {
                assert(texts(primary_keys@) =~= texts(before).push(text@));
            }
            j = j + 1;
        }
        proof {
            assert(keys.take(j as int) =~= keys);
        }
        Ok(Schema { primary_key: primary_keys, fields: field_definitions })
    }
}

impl Clone for Schema {
    fn clone(&self) -> (s: Schema)
        ensures
            s.definitions() == self.definitions(),
            s.primary_key_names() == self.primary_key_names(),
    {
        proof {
            use_type_invariant(self);
        }
        let mut keys: Vec<String> = Vec::new();
        let mut i: usize = 0;
        while i < self.primary_key.len()
            invariant
                i <= self.primary_key@.len(),
                texts(keys@) =~= self.primary_key_names().take(i as int),
            decreases self.primary_key@.len() - i,
        {
            let key = self.primary_key[i].clone();
            let ghost before = keys@;
            keys.push(key);
            proof {
                assert(texts(keys@) =~= texts(before).push(key@));
            }
            i = i + 1;
        }
        proof {
            assert(self.primary_key_names().take(i as int) =~= self.primary_key_names());
        }
        Schema { primary_key: keys, fields: self.fields.clone() }
    }
}

/// What a text reads as, as each float type: the bit pattern of the `f32`
/// and of the `f64` that `str::parse` gives for it, or `None` where the text
/// is not a float literal.
#[derive(Debug, Clone, Copy)]
pub struct FloatReading {
    pub as_f32: Option<u32>,
    pub as_f64: Option<u64>,
}

/// What the text of a value of kind `kind` reads as.
pub open spec fn parse_value(kind: ValueType, text: Seq<char>, reading: FloatReading) -> Result<
    ValueModel,
    TypesErrorModel,
> {
    match kind {
        ValueType::Null => Ok(ValueModel::Null),
        ValueType::String => Ok(ValueModel::String(text)),
        ValueType::Short => match parse_integer(text, i16::MIN as int, i16::MAX as int) {
            Ok(v) => Ok(ValueModel::Short(v as i16)),
            Err(e) => Err(TypesErrorModel::InvalidInteger(e)),
        },
        ValueType::Int => match parse_integer(text, i32::MIN as int, i32::MAX as int) {
            Ok(v) => Ok(ValueModel::Int(v as i32)),
            Err(e) => Err(TypesErrorModel::InvalidInteger(e)),
        },
        ValueType::Long => match parse_integer(text, i64::MIN as int, i64::MAX as int) {
            Ok(v) => Ok(ValueModel::Long(v as i64)),
            Err(e) => Err(TypesErrorModel::InvalidInteger(e)),
        },
        ValueType::Float => match reading.as_f32 {
            Some(b) => Ok(ValueModel::Float(b)),
            None => Err(TypesErrorModel::InvalidFloat { empty_text: text.len() == 0 }),
        },
        ValueType::Double => match reading.as_f64 {
            Some(b) => Ok(ValueModel::Double(b)),
            None => Err(TypesErrorModel::InvalidFloat { empty_text: text.len() == 0 }),
        },
    }
}

/// Law: a value of an integer kind is read from exactly the texts of the
/// numbers of its type.  The decimal text of every number of the type reads
/// as that number.  A text reads as a value of the kind only when it reads,
/// as a 64-bit integer, as that same number; and a text that reads as a
/// 64-bit integer outside the type's range, or not at all, is an error.
pub proof fn lemma_integer_kinds_read_their_range(text: Seq<char>, x: int, r: FloatReading)
    ensures
        i16::MIN <= x <= i16::MAX ==> parse_value(ValueType::Short, signed_decimal(x), r) == Ok::<
            ValueModel,
            TypesErrorModel,
        >(ValueModel::Short(x as i16)),
        i32::MIN <= x <= i32::MAX ==> parse_value(ValueType::Int, signed_decimal(x), r) == Ok::<
            ValueModel,
            TypesErrorModel,
        >(ValueModel::Int(x as i32)),
        i64::MIN <= x <= i64::MAX ==> parse_value(ValueType::Long, signed_decimal(x), r) == Ok::<
            ValueModel,
            TypesErrorModel,
        >(ValueModel::Long(x as i64)),
        parse_value(ValueType::Short, text, r) is Ok ==> (parse_value(ValueType::Short, text, r) matches Ok(
            ValueModel::Short(y),
        ) && parse_integer(text, i64::MIN as int, i64::MAX as int) == Ok::<int, IntErrorKind>(
            y as int,
        )),
        parse_value(ValueType::Int, text, r) is Ok ==> (parse_value(ValueType::Int, text, r) matches Ok(
            ValueModel::Int(y),
        ) && parse_integer(text, i64::MIN as int, i64::MAX as int) == Ok::<int, IntErrorKind>(
            y as int,
        )),
        parse_value(ValueType::Long, text, r) is Ok ==> (parse_value(ValueType::Long, text, r) matches Ok(
            ValueModel::Long(y),
        ) && parse_integer(text, i64::MIN as int, i64::MAX as int) == Ok::<int, IntErrorKind>(
            y as int,
        )),
        parse_integer(text, i64::MIN as int, i64::MAX as int) is Err ==> parse_value(
            ValueType::Short,
            text,
            r,
        ) is Err && parse_value(ValueType::Int, text, r) is Err && parse_value(
            ValueType::Long,
            text,
            r,
        ) is Err,
        parse_integer(text, i64::MIN as int, i64::MAX as int) matches Ok(y) ==> ((i16::MIN <= y
            <= i16::MAX <==> parse_value(ValueType::Short, text, r) is Ok) && (i32::MIN <= y
            <= i32::MAX <==> parse_value(ValueType::Int, text, r) is Ok) && parse_value(
            ValueType::Long,
            text,
            r,
        ) is Ok),
{
    let wide_min = i64::MIN as int;
    let wide_max = i64::MAX as int;
    lemma_parse_range(text, i16::MIN as int, i16::MAX as int, wide_min, wide_max);
    lemma_parse_range(text, i32::MIN as int, i32::MAX as int, wide_min, wide_max);
    lemma_parse_range(text, wide_min, wide_max, wide_min, wide_max);
    if i16::MIN <= x <= i16::MAX {
        lemma_text_reads_back(x, i16::MIN as int, i16::MAX as int);
    }
    if i32::MIN <= x <= i32::MAX {
        lemma_text_reads_back(x, i32::MIN as int, i32::MAX as int);
    }
    if i64::MIN <= x <= i64::MAX {
        lemma_text_reads_back(x, wide_min, wide_max);
    }
}

/// The value of a named field.
#[derive(Debug, Clone)]
pub struct FieldValue {
    pub field: String,
    pub value: Value,
}

/// What a field value is.
pub struct FieldValueModel {
    pub field: Seq<char>,
    pub value: ValueModel,
}

impl View for FieldValue {
    type V = FieldValueModel;

    open spec fn view(&self) -> FieldValueModel {
        FieldValueModel { field: self.field@, value: self.value@ }
    }
}

impl Duplicate for FieldValue {
    fn duplicate(&self) -> (r: FieldValue) {
        FieldValue { field: self.field.clone(), value: self.value.duplicate() }
    }
}

impl FieldValue {
    /// Reads the value of the field `value.0` of kind `kind` from the text
    /// `value.1`.  An integer is read as `str::parse` reads one of its type;
    /// a float is what `reading` gives for the text.
    pub fn parse(kind: ValueType, value: (&str, &str), reading: FloatReading) -> (r: Result<
        FieldValue,
        TypesError,
    >)
        ensures
            match (r, parse_value(kind, value.1@, reading)) {
                (Ok(fv), Ok(v)) => fv@ == (FieldValueModel { field: value.0@, value: v }),
                (Err(e), Err(m)) => e@ == m,
                _ => false,
            },
    {
        let (field, text) = value;
        let v = match kind {
            ValueType::String => Value::String(String::from_str(text)),
            ValueType::Short => match read_integer(text, -0x8000, 0x7fff) {
                Ok(x) => Value::Short(x as i16),
                Err(e) => {
                    return Err(TypesError::InvalidInteger(e));
                },
            },
            ValueType::Int => match read_integer(text, -0x8000_0000, 0x7fff_ffff) {
                Ok(x) => Value::Int(x as i32),
                Err(e) => {
                    return Err(TypesError::InvalidInteger(e));
                },
            },
            ValueType::Long => match read_integer(text, i64::MIN, i64::MAX) {
                Ok(x) => Value::Long(x),
                Err(e) => {
                    return Err(TypesError::InvalidInteger(e));
                },
            },
            ValueType::Float => match reading.as_f32 {
                Some(b) => Value::Float(b),
                None => {
                    return Err(TypesError::InvalidFloat { empty_text: text.is_empty() });
                },
            },
            ValueType::Double => match reading.as_f64 {
                Some(b) => Value::Double(b),
                None => {
                    return Err(TypesError::InvalidFloat { empty_text: text.is_empty() });
                },
            },
            ValueType::Null => Value::Null,
        };
        Ok(FieldValue { field: String::from_str(field), value: v })
    }
}

/// The postcard encoding of a value, as serde's derived `Serialize` writes
/// an enum: the index of its variant as a `u32`, then its content; a float
/// is written as the bytes of its bit pattern, least significant first.
pub open spec fn value_encoding(v: ValueModel) -> Seq<u8> {
    match v {
        ValueModel::Null => postcard_u32(0),
        ValueModel::String(s) => postcard_u32(1) + postcard_str(s),
        ValueModel::Short(x) => postcard_u32(2) + postcard_i16(x),
        ValueModel::Int(x) => postcard_u32(3) + postcard_i32(x),
        ValueModel::Long(x) => postcard_u32(4) + postcard_i64(x),
        ValueModel::Float(b) => postcard_u32(5) + le_bytes_u32(b),
        ValueModel::Double(b) => postcard_u32(6) + le_bytes_u64(b),
    }
}

/// The postcard encoding of the entries of a map, one after the other: each
/// name, then its value.
pub open spec fn entries_encoding(s: Seq<(Seq<char>, ValueModel)>) -> Seq<u8>
    decreases s.len(),
{
    if s.len() == 0 {
        Seq::empty()
    } else {
        entries_encoding(s.drop_last()) + postcard_str(s.last().0) + value_encoding(s.last().1)
    }
}

/// The postcard encoding of a primary key with the given entries: the
/// number of entries, written as postcard writes a length, then the entries.
pub open spec fn key_encoding(s: Seq<(Seq<char>, ValueModel)>) -> Seq<u8> {
    postcard_u64(s.len() as u64) + entries_encoding(s)
}

/// The variant index that a value's encoding starts with.
spec fn variant_index(v: ValueModel) -> nat {
    match v {
        ValueModel::Null => 0,
        ValueModel::String(_) => 1,
        ValueModel::Short(_) => 2,
        ValueModel::Int(_) => 3,
        ValueModel::Long(_) => 4,
        ValueModel::Float(_) => 5,
        ValueModel::Double(_) => 6,
    }
}

/// The bytes of a value's encoding after its variant index.
spec fn content_encoding(v: ValueModel) -> Seq<u8> {
    match v {
        ValueModel::Null => Seq::empty(),
        ValueModel::String(s) => postcard_str(s),
        ValueModel::Short(x) => postcard_i16(x),
        ValueModel::Int(x) => postcard_i32(x),
        ValueModel::Long(x) => postcard_i64(x),
        ValueModel::Float(b) => le_bytes_u32(b),
        ValueModel::Double(b) => le_bytes_u64(b),
    }
}

/// Two integers with the same zigzag varint before some bytes are equal,
/// and so are the bytes.
proof fn lemma_zigzag_varint_prefix_free(x: int, y: int, rx: Seq<u8>, ry: Seq<u8>)
    requires
        varint(zigzag(x)) + rx == varint(zigzag(y)) + ry,
    ensures
        x == y,
        rx == ry,
{
    lemma_varint_prefix_free(zigzag(x), zigzag(y), rx, ry);
    lemma_zigzag_injective(x, y);
}

/// Fixed-width bytes before some bytes: equal totals mean equal parts.
proof fn lemma_fixed_prefix(a: Seq<u8>, b: Seq<u8>, ra: Seq<u8>, rb: Seq<u8>)
    requires
        a.len() == b.len(),
        a + ra == b + rb,
    ensures
        a == b,
        ra == rb,
{
    assert(a =~= (a + ra).subrange(0, a.len() as int));
    assert(b =~= (b + rb).subrange(0, b.len() as int));
    assert(ra =~= (a + ra).skip(a.len() as int));
    assert(rb =~= (b + rb).skip(b.len() as int));
}

/// Law: the postcard encoding of a value tells where it ends and which
/// value it is.  A value's encoding followed by some bytes equals another
/// value's encoding followed by some bytes only when the two values, and the
/// bytes after them, are the same; in particular, different values always
/// have different encodings (`Int(3)` and `Int(-2)` among them).
pub proof fn lemma_value_encoding_prefix_free(
    v: ValueModel,
    w: ValueModel,
    rv: Seq<u8>,
    rw: Seq<u8>,
)
    requires
        value_encoding(v) + rv == value_encoding(w) + rw,
    ensures
        v == w,
        rv == rw,
{
    let cv = content_encoding(v);
    let cw = content_encoding(w);
    assert(value_encoding(v) + rv =~= varint(variant_index(v)) + (cv + rv));
    assert(value_encoding(w) + rw =~= varint(variant_index(w)) + (cw + rw));
    lemma_varint_prefix_free(variant_index(v), variant_index(w), cv + rv, cw + rw);
    match (v, w) {
        (ValueModel::Null, ValueModel::Null) => {
            assert(rv =~= cv + rv);
            assert(rw =~= cw + rw);
        },
        (ValueModel::String(a), ValueModel::String(b)) => {
            lemma_str_prefix_free(a, b, rv, rw);
        },
        (ValueModel::Short(a), ValueModel::Short(b)) => {
            lemma_zigzag_varint_prefix_free(a as int, b as int, rv, rw);
        },
        (ValueModel::Int(a), ValueModel::Int(b)) => {
            lemma_zigzag_varint_prefix_free(a as int, b as int, rv, rw);
        },
        (ValueModel::Long(a), ValueModel::Long(b)) => {
            lemma_zigzag_varint_prefix_free(a as int, b as int, rv, rw);
        },
        (ValueModel::Float(a), ValueModel::Float(b)) => {
            lemma_fixed_prefix(cv, cw, rv, rw);
            lemma_le_bytes_u32_injective(a, b);
        },
        (ValueModel::Double(a), ValueModel::Double(b)) => {
            lemma_fixed_prefix(cv, cw, rv, rw);
            lemma_le_bytes_u64_injective(a, b);
        },
        _ => {},
    }
}

/// The encoding of entries, read from the front: the first entry, then the
/// rest.
proof fn lemma_entries_encoding_front(s: Seq<(Seq<char>, ValueModel)>)
    requires
        s.len() > 0,
    ensures
        entries_encoding(s) == postcard_str(s[0].0) + value_encoding(s[0].1) + entries_encoding(
            s.skip(1),
        ),
    decreases s.len(),
{
    if s.len() == 1 {
        assert(s.drop_last() =~= Seq::<(Seq<char>, ValueModel)>::empty());
        assert(s.skip(1) =~= Seq::<(Seq<char>, ValueModel)>::empty());
        assert(entries_encoding(s) =~= postcard_str(s[0].0) + value_encoding(s[0].1)
            + entries_encoding(s.skip(1)));
    } else {
        lemma_entries_encoding_front(s.drop_last());
        assert(s.drop_last().skip(1) =~= s.skip(1).drop_last());
        assert(s.drop_last()[0] == s[0]);
        assert(s.skip(1).last() == s.last());
        assert(entries_encoding(s) =~= postcard_str(s[0].0) + value_encoding(s[0].1)
            + entries_encoding(s.skip(1)));
    }
}

/// The encodings of equally many entries, each followed by some bytes, are
/// equal only when the entries and the bytes after them are.
proof fn lemma_entries_encoding_prefix_free(
    s: Seq<(Seq<char>, ValueModel)>,
    t: Seq<(Seq<char>, ValueModel)>,
    rs: Seq<u8>,
    rt: Seq<u8>,
)
    requires
        s.len() == t.len(),
        entries_encoding(s) + rs == entries_encoding(t) + rt,
    ensures
        s == t,
        rs == rt,
    decreases s.len(),
{
    if s.len() == 0 {
        assert(s =~= t);
    } else {
        lemma_entries_encoding_front(s);
        lemma_entries_encoding_front(t);
        let ns = postcard_str(s[0].0);
        let nt = postcard_str(t[0].0);
        let vs = value_encoding(s[0].1);
        let vt = value_encoding(t[0].1);
        let es = entries_encoding(s.skip(1));
        let et = entries_encoding(t.skip(1));
        assert(ns + (vs + (es + rs)) =~= entries_encoding(s) + rs);
        assert(nt + (vt + (et + rt)) =~= entries_encoding(t) + rt);
        lemma_str_prefix_free(s[0].0, t[0].0, vs + (es + rs), vt + (et + rt));
        lemma_value_encoding_prefix_free(s[0].1, t[0].1, es + rs, et + rt);
        lemma_entries_encoding_prefix_free(s.skip(1), t.skip(1), rs, rt);
        assert(s =~= seq![s[0]] + s.skip(1));
        assert(t =~= seq![t[0]] + t.skip(1));
    }
}

/// Law: different primary keys have different encodings: two keys encode
/// alike only when they hold the same names with the same values in the
/// same order.
pub proof fn lemma_key_encoding_injective(
    s: Seq<(Seq<char>, ValueModel)>,
    t: Seq<(Seq<char>, ValueModel)>,
)
    requires
        s.len() <= u64::MAX,
        t.len() <= u64::MAX,
        key_encoding(s) == key_encoding(t),
    ensures
        s == t,
{
    lemma_varint_prefix_free(s.len(), t.len(), entries_encoding(s), entries_encoding(t));
    assert(entries_encoding(s) + Seq::<u8>::empty() =~= entries_encoding(s));
    assert(entries_encoding(t) + Seq::<u8>::empty() =~= entries_encoding(t));
    lemma_entries_encoding_prefix_free(s, t, Seq::empty(), Seq::empty());
}

/// The bytes of `x`, least significant first.
fn le_bytes_of_u32(x: u32) -> (b: Vec<u8>)
    ensures
        b@ == le_bytes_u32(x),
{
    let b = vec![
        (x % 0x100) as u8,
        ((x / 0x100) % 0x100) as u8,
        ((x / 0x1_0000) % 0x100) as u8,
        ((x / 0x100_0000) % 0x100) as u8,
    ];
    assert(b@ =~= le_bytes_u32(x));
    b
}

/// The bytes of `x`, least significant first.
fn le_bytes_of_u64(x: u64) -> (b: Vec<u8>)
    ensures
        b@ == le_bytes_u64(x),
{
    let mut low = le_bytes_of_u32((x % 0x1_0000_0000) as u32);
    let mut high = le_bytes_of_u32((x / 0x1_0000_0000) as u32);
    low.append(&mut high);
    low
}

/// The fields of a record that identify it, with their values.
#[derive(Debug)]
pub struct PrimaryKey {
    pub value: NameMap<Value>,
}

impl PrimaryKey {
    /// The postcard encoding of a value.
    fn encode_value(v: &Value) -> (r: Result<Vec<u8>, TypesError>)
        ensures
            r matches Ok(b) && b@ == value_encoding(v@),
    {
        let (index, mut content): (u32, Vec<u8>) = match v {
            Value::Null => (0, Vec::new()),
            Value::String(s) => match encode_str(s.as_str()) {
                Ok(b) => (1, b),
                Err(_) => {
                    return Err(TypesError::Serialize);
                },
            },
            Value::Short(x) => match encode_i16(*x) {
                Ok(b) => (2, b),
                Err(_) => {
                    return Err(TypesError::Serialize);
                },
            },
            Value::Int(x) => match encode_i32(*x) {
                Ok(b) => (3, b),
                Err(_) => {
                    return Err(TypesError::Serialize);
                },
            },
            Value::Long(x) => match encode_i64(*x) {
                Ok(b) => (4, b),
                Err(_) => {
                    return Err(TypesError::Serialize);
                },
            },
            Value::Float(b) => (5, le_bytes_of_u32(*b)),
            Value::Double(b) => (6, le_bytes_of_u64(*b)),
        };
        let mut out = match encode_u32(index) {
            Ok(b) => b,
            Err(_) => {
                return Err(TypesError::Serialize);
            },
        };
        let ghost tag = out@;
        let ghost body = content@;
        out.append(&mut content);
        proof {
            assert(out@ == tag + body);
            match v@ {
                ValueModel::Null => {
                    assert(out@ =~= value_encoding(v@));
                },
                _ => {},
            }
        }
        Ok(out)
    }

    /// The postcard encoding of the key, as `postcard::to_allocvec` writes a
    /// struct holding the map: the number of entries, then each name and its
    /// value, in the order of the map's entries.
    pub fn encoded(&self) -> (r: Result<Vec<u8>, TypesError>)
        ensures
            r matches Ok(b) && b@ == key_encoding(self.value.entries()),
    {
        let n = self.value.len();
        let ghost entries = self.value.entries();
        let mut out = match encode_u64(n as u64) {
            Ok(b) => b,
            Err(_) => {
                return Err(TypesError::Serialize);
            },
        };
        let ghost head = out@;
        assert(head + entries_encoding(entries.take(0)) =~= head);
        let mut i: usize = 0;
        while i < n
            invariant
                n == entries.len(),
                entries == self.value.entries(),
                i <= n,
                head == postcard_u64(n as u64),
                out@ == head + entries_encoding(entries.take(i as int)),
            decreases n - i,
        {
            let mut name = match encode_str(self.value.key_at(i).as_str()) {
                Ok(b) => b,
                Err(_) => {
                    return Err(TypesError::Serialize);
                },
            };
            let mut content = match Self::encode_value(self.value.value_at(i)) {
                Ok(b) => b,
                Err(_) => {
                    return Err(TypesError::Serialize);
                },
            };
            let ghost before = out@;
            let ghost nb = name@;
            let ghost cb = content@;
            out.append(&mut name);
            out.append(&mut content);
            proof {
                assert(entries.take(i + 1).drop_last() =~= entries.take(i as int));
                assert(entries.take(i + 1).last() == entries[i as int]);
                assert(out@ =~= before + nb + cb);
            }
            i = i + 1;
        }
        proof {
            assert(entries.take(n as int) =~= entries);
        }
        Ok(out)
    }

    /// The hash of the key: xxh3 of its postcard encoding.
    pub fn hash(&self) -> (r: Result<u64, TypesError>)
        ensures
            r matches Ok(h) && h == xxh3_64_digest(key_encoding(self.value.entries())),
    {
        let serialized = match self.encoded() {
            Ok(b) => b,
            Err(_) => {
                return Err(TypesError::Serialize);
            },
        };
        let hash = xxh3_64(serialized.as_slice());
        Ok(hash)
    }
}

impl Clone for PrimaryKey {
    /// A copy of the key, entry by entry.
    fn clone(&self) -> (r: Self)
        ensures
            r.value.entries() == self.value.entries(),
            r.value@ == self.value@,
    {
        PrimaryKey { value: self.value.clone() }
    }
}

/// A record: its primary key and the values of its fields.
#[derive(Debug)]
pub struct Record {
    pub primary_key: PrimaryKey,
    pub fields: NameMap<FieldValue>,
}

impl Clone for Record {
    /// A copy of the record, entry by entry.
    fn clone(&self) -> (r: Self)
        ensures
            r.primary_key.value.entries() == self.primary_key.value.entries(),
            r.fields.entries() == self.fields.entries(),
            r.fields@ == self.fields@,
    {
        Record { primary_key: self.primary_key.clone(), fields: self.fields.clone() }
    }
}

/// The hash under which a buffer holds a record: xxh3 of the postcard
/// encoding of its primary key.
pub open spec fn record_key_hash(r: Record) -> u64 {
    xxh3_64_digest(key_encoding(r.primary_key.value.entries()))
}

/// The names and texts given to `Schema::new_record`, as texts.
pub open spec fn named_texts(values: Seq<(&str, &str)>) -> Seq<(Seq<char>, Seq<char>)> {
    values.map_values(|p: (&str, &str)| (p.0@, p.1@))
}

/// What the `i`-th given value reads as: an error when the schema does not
/// define its field, else the value read from its text.
pub open spec fn step_at(
    defs: Map<Seq<char>, FieldDefinitionModel>,
    given: Seq<(Seq<char>, Seq<char>)>,
    readings: Seq<FloatReading>,
    i: int,
) -> Result<ValueModel, TypesErrorModel> {
    let name = given[i].0;
    if defs.contains_key(name) {
        parse_value(defs[name].kind, given[i].1, readings[i])
    } else {
        Err(TypesErrorModel::FieldNotFound(name))
    }
}

/// The fields of a record after the first `n` given values, each held
/// under its name; a later one replaces an earlier one.
pub open spec fn record_fields(
    defs: Map<Seq<char>, FieldDefinitionModel>,
    given: Seq<(Seq<char>, Seq<char>)>,
    readings: Seq<FloatReading>,
    n: nat,
) -> Map<Seq<char>, FieldValueModel>
    decreases n,
{
    if n == 0 {
        Map::empty()
    } else {
        let m = record_fields(defs, given, readings, (n - 1) as nat);
        match step_at(defs, given, readings, n - 1) {
            Ok(v) => m.insert(given[n - 1].0, FieldValueModel { field: given[n - 1].0, value: v }),
            Err(_) => m,
        }
    }
}

/// The primary-key values of a record after the first `n` given values:
/// those whose name is a primary-key name.
pub open spec fn record_key(
    defs: Map<Seq<char>, FieldDefinitionModel>,
    keys: Seq<Seq<char>>,
    given: Seq<(Seq<char>, Seq<char>)>,
    readings: Seq<FloatReading>,
    n: nat,
) -> Map<Seq<char>, ValueModel>
    decreases n,
{
    if n == 0 {
        Map::empty()
    } else {
        let m = record_key(defs, keys, given, readings, (n - 1) as nat);
        match step_at(defs, given, readings, n - 1) {
            Ok(v) => if keys.contains(given[n - 1].0) {
                m.insert(given[n - 1].0, v)
            } else {
                m
            },
            Err(_) => m,
        }
    }
}

/// Law: the primary key of a record holds, for each of its names, the
/// value of that field of the record, and only names that are primary-key
/// names; every field of the record is defined by the schema.
pub proof fn lemma_key_values_are_field_values(
    defs: Map<Seq<char>, FieldDefinitionModel>,
    keys: Seq<Seq<char>>,
    given: Seq<(Seq<char>, Seq<char>)>,
    readings: Seq<FloatReading>,
    n: nat,
)
    requires
        n <= given.len(),
    ensures
        forall|k: Seq<char>| #[trigger]
            record_key(defs, keys, given, readings, n).contains_key(k) ==> keys.contains(k)
                && record_fields(defs, given, readings, n).contains_key(k) && record_key(
                defs,
                keys,
                given,
                readings,
                n,
            )[k] == record_fields(defs, given, readings, n)[k].value,
        forall|k: Seq<char>| #[trigger]
            record_fields(defs, given, readings, n).contains_key(k) ==> defs.contains_key(k),
    decreases n,
{
    if n > 0 {
        lemma_key_values_are_field_values(defs, keys, given, readings, (n - 1) as nat);
    }
}

/// Whether the `i`-th of the first `n` given values is the last one given
/// under its name.
pub open spec fn last_of_name(given: Seq<(Seq<char>, Seq<char>)>, n: int, i: int) -> bool {
    forall|j: int| i < j < n ==> given[j].0 != given[i].0
}

/// Law: when every given value reads without error, each given name is a
/// field of the record, holding the value read from the last text given
/// under that name, and the record has no other field.  The primary key
/// holds exactly the given names that are primary-key names, each with the
/// value of the last text given under it.  No value read is ever left out.
pub proof fn lemma_record_holds_every_value(
    defs: Map<Seq<char>, FieldDefinitionModel>,
    keys: Seq<Seq<char>>,
    given: Seq<(Seq<char>, Seq<char>)>,
    readings: Seq<FloatReading>,
    n: nat,
)
    requires
        n <= given.len(),
        forall|i: int| 0 <= i < n ==> (#[trigger] step_at(defs, given, readings, i)) is Ok,
    ensures
        forall|i: int|
            0 <= i < n ==> record_fields(defs, given, readings, n).contains_key(
                (#[trigger] given[i]).0,
            ),
        forall|i: int|
            0 <= i < n && last_of_name(given, n as int, i) ==> ((#[trigger] step_at(
                defs,
                given,
                readings,
                i,
            )) matches Ok(v) && record_fields(defs, given, readings, n)[given[i].0] == (
            FieldValueModel { field: given[i].0, value: v })),
        forall|k: Seq<char>| #[trigger]
            record_fields(defs, given, readings, n).contains_key(k) ==> exists|i: int|
                0 <= i < n && (#[trigger] given[i]).0 == k,
        forall|i: int|
            0 <= i < n ==> (record_key(defs, keys, given, readings, n).contains_key(
                (#[trigger] given[i]).0,
            ) <==> keys.contains(given[i].0)),
        forall|i: int|
            0 <= i < n && last_of_name(given, n as int, i) && keys.contains(given[i].0) ==> ((
            #[trigger] step_at(defs, given, readings, i)) matches Ok(v) && record_key(
                defs,
                keys,
                given,
                readings,
                n,
            )[given[i].0] == v),
        forall|k: Seq<char>| #[trigger]
            record_key(defs, keys, given, readings, n).contains_key(k) ==> keys.contains(k),
    decreases n,
{
    if n > 0 {
        let m = (n - 1) as nat;
        lemma_record_holds_every_value(defs, keys, given, readings, m);
        let last = m as int;
        assert(step_at(defs, given, readings, last) is Ok);
        assert forall|i: int|
            0 <= i < n && last_of_name(given, n as int, i) implies ((#[trigger] step_at(
            defs,
            given,
            readings,
            i,
        )) matches Ok(v) && record_fields(defs, given, readings, n)[given[i].0] == (
        FieldValueModel { field: given[i].0, value: v })) by {
            if i < last {
                assert(given[last].0 != given[i].0);
                assert(last_of_name(given, m as int, i));
            }
        }
        assert forall|i: int|
            0 <= i < n && last_of_name(given, n as int, i) && keys.contains(
                given[i].0,
            ) implies ((#[trigger] step_at(defs, given, readings, i)) matches Ok(v) && record_key(
            defs,
            keys,
            given,
            readings,
            n,
        )[given[i].0] == v) by {
            if i < last {
                assert(given[last].0 != given[i].0);
                assert(last_of_name(given, m as int, i));
            }
        }
        assert forall|k: Seq<char>| #[trigger]
            record_fields(defs, given, readings, n).contains_key(k) implies exists|i: int|
            0 <= i < n && (#[trigger] given[i]).0 == k by {
            if k != given[last].0 {
                assert(record_fields(defs, given, readings, m).contains_key(k));
            }
        }
    }
}

impl Schema {
    /// Builds a record from the given names and texts, in order.  Each
    /// name must be that of a defined field, and each text must read as a
    /// value of the field's kind; `readings[i]` is what the `i`-th text
    /// reads as as a float.  The first value that fails makes the whole
    /// call fail with its error.  A value whose name is a primary-key name
    /// is also a value of the primary key.
    pub fn new_record(&self, values: Vec<(&str, &str)>, readings: Vec<FloatReading>) -> (r:
        Result<Record, TypesError>)
        requires
            readings@.len() == values@.len(),
        ensures
            ({
                let defs = self.definitions();
                let given = named_texts(values@);
                let n = given.len();
                match r {
                    Ok(record) => {
                        &&& forall|i: int|
                            0 <= i < n ==> (#[trigger] step_at(defs, given, readings@, i)) is Ok
                        &&& record.fields@ == record_fields(defs, given, readings@, n)
                        &&& record.primary_key.value@ == record_key(
                            defs,
                            self.primary_key_names(),
                            given,
                            readings@,
                            n,
                        )
                    },
                    Err(e) => exists|i: int|
                        0 <= i < n && (forall|j: int|
                            0 <= j < i ==> (#[trigger] step_at(defs, given, readings@, j)) is Ok)
                            && step_at(defs, given, readings@, i) == Err::<
                            ValueModel,
                            TypesErrorModel,
                        >(e@),
                }
            }),
    {
        proof {
            use_type_invariant(self);
        }
        let ghost defs = self.definitions();
        let ghost given = named_texts(values@);
        let ghost keys = self.primary_key_names();
        let mut fields: NameMap<FieldValue> = NameMap::new();
        let mut primary_key = PrimaryKey { value: NameMap::new() };
        let mut i: usize = 0;
        while i < values.len()
            invariant
                i <= values@.len(),
                readings@.len() == values@.len(),
                defs == self.definitions(),
                keys == self.primary_key_names(),
                given == named_texts(values@),
                forall|j: int| 0 <= j < i ==> (#[trigger] step_at(defs, given, readings@, j)) is Ok,
                fields@ == record_fields(defs, given, readings@, i as nat),
                primary_key.value@ == record_key(defs, keys, given, readings@, i as nat),
            decreases values@.len() - i,
        {
            let (field_name, field_value) = values[i];
            proof {
                assert(given[i as int] == (field_name@, field_value@));
            }
            let field_def = match self.fields.get(field_name) {
                None => {
                    let e = TypesError::FieldNotFound(String::from_str(field_name));
                    proof {
                        assert(step_at(defs, given, readings@, i as int) == Err::<
                            ValueModel,
                            TypesErrorModel,
                        >(e@));
                    }
                    return Err(e);
                },
                Some(field) => field,
            };
            let val = match FieldValue::parse(field_def.kind, (field_name, field_value), readings[i]) {
                Ok(v) => v,
                Err(e) => {
                    proof {
                        assert(step_at(defs, given, readings@, i as int) == Err::<
                            ValueModel,
                            TypesErrorModel,
                        >(e@));
                    }
                    return Err(e);
                },
            };
            if contains_text(&self.primary_key, field_name) {
                primary_key.value.insert(String::from_str(field_name), val.value.duplicate());
            }
            fields.insert(String::from_str(field_name), val);
            i = i + 1;
        }
        Ok(Record { primary_key, fields })
    }
}

/// Law: appending a record whose primary key has the entries of the one
/// appended just before it (a copy of it, say) holds the same keys as
/// appending it alone: the later record replaces the earlier one.
pub proof fn lemma_append_again(records: Map<u64, Record>, first: Record, second: Record)
    requires
        first.primary_key.value.entries() == second.primary_key.value.entries(),
    ensures
        record_key_hash(first) == record_key_hash(second),
        records.insert(record_key_hash(first), first).insert(record_key_hash(second), second)
            == records.insert(record_key_hash(second), second),
{
    assert(records.insert(record_key_hash(first), first).insert(record_key_hash(second), second)
        =~= records.insert(record_key_hash(second), second));
}

/// The records of a schema, each held under the hash of its primary key.
#[derive(Debug)]
pub struct Buffer {
    schema: Schema,
    records: HashMap<u64, Record>,
}

impl Buffer {
    /// The records, by the hash of their primary key.
    pub closed spec fn records(&self) -> Map<u64, Record> {
        self.records@
    }

    /// The schema of the records.
    pub closed spec fn schema(&self) -> Schema {
        self.schema
    }

    /// An empty buffer for records of `schema`.
    pub fn new(schema: &Schema) -> (b: Buffer)
        ensures
            b.records() == Map::<u64, Record>::empty(),
            b.schema().definitions() == schema.definitions(),
            b.schema().primary_key_names() == schema.primary_key_names(),
    {
        Buffer { schema: schema.clone(), records: HashMap::new() }
    }

    /// Adds `record` under the hash of its primary key, replacing a record
    /// already held under that hash.
    pub fn append(&mut self, record: Record) -> (r: Result<(), TypesError>)
        ensures
            r is Ok,
            final(self).records() == old(self).records().insert(record_key_hash(record), record),
            final(self).schema() == old(self).schema(),
    {
        let key = match record.primary_key.hash() {
            Ok(h) => h,
            Err(e) => {
                return Err(e);
            },
        };
        self.records.insert(key, record);
        Ok(())
    }
}

} // verus!
