//! Schemas, and the records built against them.
use crate::name_map::{
    Duplicate, NameMap, entries_to_map, keys_distinct, lemma_entry_in_map, lemma_map_entries,
};
use crate::record::{
    Field, FieldModel, Record, Value, ValueModel, ValueType, default_value, lemma_kind_is_variant,
    value_has_kind,
};
use crate::text::{contains_text, texts};
use vstd::prelude::*;
use vstd::string::*;

verus! {

/// The definition of a field: its name and the kind of value it holds.
#[derive(Clone, Debug)]
pub struct FieldDefinition {
    name: String,
    kind: ValueType,
}

/// What a field definition is.
pub struct FieldDefinitionModel {
    pub name: Seq<char>,
    pub kind: ValueType,
}

impl View for FieldDefinition {
    type V = FieldDefinitionModel;

    closed spec fn view(&self) -> FieldDefinitionModel {
        FieldDefinitionModel { name: self.name@, kind: self.kind }
    }
}

impl Duplicate for FieldDefinition {
    fn duplicate(&self) -> (r: FieldDefinition) {
        FieldDefinition { name: self.name.clone(), kind: self.kind }
    }
}

impl FieldDefinition {
    /// The definition of a field named `name` of kind `kind`.
    pub fn new(name: &str, kind: ValueType) -> (d: FieldDefinition)
        ensures
            d@ == (FieldDefinitionModel { name: name@, kind }),
    {
        FieldDefinition { name: String::from_str(name), kind }
    }
}

/// The map from names to definitions that inserting the definitions one
/// after the other, each under its own name, gives.
pub open spec fn definitions_map(defs: Seq<FieldDefinitionModel>) -> Map<
    Seq<char>,
    FieldDefinitionModel,
> {
    entries_to_map(defs.map_values(|d: FieldDefinitionModel| (d.name, d)))
}

/// The fields of a record built against the definitions `defs` before any
/// value is given: each defined field holds the default value of its kind.
pub open spec fn default_fields(defs: Map<Seq<char>, FieldDefinitionModel>) -> Map<
    Seq<char>,
    FieldModel,
> {
    defs.map_entries(
        |k: Seq<char>, d: FieldDefinitionModel|
            FieldModel { name: d.name, value: default_value(d.kind) },
    )
}

/// `base` with the given fields inserted one after the other under their
/// names, skipping those whose name is not in `names`.
pub open spec fn insert_fields(
    base: Map<Seq<char>, FieldModel>,
    fields: Seq<FieldModel>,
    names: Set<Seq<char>>,
) -> Map<Seq<char>, FieldModel>
    decreases fields.len(),
{
    if fields.len() == 0 {
        base
    } else {
        let m = insert_fields(base, fields.drop_last(), names);
        let f = fields.last();
        if names.contains(f.name) {
            m.insert(f.name, f)
        } else {
            m
        }
    }
}

/// Whether the field at position `i` is defined with a kind that its value
/// is not of.
pub open spec fn kind_mismatch_at(
    defs: Map<Seq<char>, FieldDefinitionModel>,
    fields: Seq<FieldModel>,
    i: int,
) -> bool {
    &&& defs.contains_key(fields[i].name)
    &&& !value_has_kind(fields[i].value, defs[fields[i].name].kind)
}

/// Law: inserting fields under names the map already holds keeps its names.
/// With the defaults of a schema as base, the fields of a record built
/// against the schema are exactly the schema's fields: a given field that
/// the schema does not define never appears.
pub proof fn lemma_record_has_schema_fields(
    base: Map<Seq<char>, FieldModel>,
    fields: Seq<FieldModel>,
)
    ensures
        insert_fields(base, fields, base.dom()).dom() == base.dom(),
    decreases fields.len(),
{
    if fields.len() > 0 {
        lemma_record_has_schema_fields(base, fields.drop_last());
        assert(insert_fields(base, fields, base.dom()).dom() =~= base.dom());
    }
}

/// Law: a field holds the last value given for it, among the given fields
/// whose name is kept; a field given no such value keeps its first value.
pub proof fn lemma_record_field_value(
    base: Map<Seq<char>, FieldModel>,
    fields: Seq<FieldModel>,
    names: Set<Seq<char>>,
    k: Seq<char>,
)
    requires
        names.contains(k),
    ensures
        (forall|i: int| 0 <= i < fields.len() ==> (#[trigger] fields[i]).name != k) ==> (
        insert_fields(base, fields, names).contains_key(k) == base.contains_key(k)
            && insert_fields(base, fields, names)[k] == base[k]),
        forall|i: int|
            0 <= i < fields.len() && (#[trigger] fields[i]).name == k && (forall|j: int|
                i < j < fields.len() ==> fields[j].name != k) ==> insert_fields(
                base,
                fields,
                names,
            ).contains_key(k) && insert_fields(base, fields, names)[k] == fields[i],
    decreases fields.len(),
{
    if fields.len() > 0 {
        let t = fields.drop_last();
        lemma_record_field_value(base, t, names, k);
        assert forall|i: int|
            0 <= i < fields.len() && (#[trigger] fields[i]).name == k && (forall|j: int|
                i < j < fields.len() ==> fields[j].name != k) implies insert_fields(
            base,
            fields,
            names,
        ).contains_key(k) && insert_fields(base, fields, names)[k] == fields[i] by {
            if i < fields.len() - 1 {
                assert(t[i] == fields[i]);
                assert forall|j: int| i < j < t.len() implies t[j].name != k by {
                    assert(t[j] == fields[j]);
                }
            }
        }
        if forall|i: int| 0 <= i < fields.len() ==> (#[trigger] fields[i]).name != k {
            assert forall|i: int| 0 <= i < t.len() implies (#[trigger] t[i]).name != k by {
                assert(t[i] == fields[i]);
            }
            assert(fields[fields.len() - 1].name != k);
        }
    }
}

/// Law: every field of the primary key is a field of the schema whose name
/// is a primary-key name, and holds the same field as the record's values.
pub proof fn lemma_primary_key_agrees_with_values(
    defs: Map<Seq<char>, FieldDefinitionModel>,
    keys: Seq<Seq<char>>,
    fields: Seq<FieldModel>,
)
    ensures
        ({
            let pk = insert_fields(Map::empty(), fields, defs.dom().intersect(keys.to_set()));
            let values = insert_fields(default_fields(defs), fields, defs.dom());
            forall|k: Seq<char>| #[trigger]
                pk.contains_key(k) ==> defs.contains_key(k) && keys.contains(k)
                    && values.contains_key(k) && pk[k] == values[k]
        }),
    decreases fields.len(),
{
    let names = defs.dom().intersect(keys.to_set());
    if fields.len() > 0 {
        let t = fields.drop_last();
        let f = fields.last();
        lemma_primary_key_agrees_with_values(defs, keys, t);
        let pk_t = insert_fields(Map::empty(), t, names);
        let values_t = insert_fields(default_fields(defs), t, defs.dom());
        let pk = insert_fields(Map::empty(), fields, names);
        let values = insert_fields(default_fields(defs), fields, defs.dom());
        assert forall|k: Seq<char>| #[trigger]
            pk.contains_key(k) implies defs.contains_key(k) && keys.contains(k)
            && values.contains_key(k) && pk[k] == values[k] by {
            if names.contains(f.name) && k == f.name {
                assert(keys.to_set().contains(k));
            } else {
                assert(pk_t.contains_key(k));
                if defs.dom().contains(f.name) {
                    assert(k != f.name);
                }
            }
        }
    }
}

/// Law: in a record built without error, every field holds a value of the
/// kind that the schema gives it; a field of kind `Null` holds no value.
pub proof fn lemma_built_fields_have_their_kinds(
    defs: Map<Seq<char>, FieldDefinitionModel>,
    fields: Seq<FieldModel>,
)
    requires
        forall|i: int| 0 <= i < fields.len() ==> !kind_mismatch_at(defs, fields, i),
    ensures
        forall|k: Seq<char>| #[trigger]
            insert_fields(default_fields(defs), fields, defs.dom()).contains_key(k) ==> {
                let v = insert_fields(default_fields(defs), fields, defs.dom())[k].value;
                &&& defs.contains_key(k)
                &&& defs[k].kind != ValueType::Null ==> value_has_kind(v, defs[k].kind)
                &&& defs[k].kind == ValueType::Null ==> v == ValueModel::Null
            },
    decreases fields.len(),
{
    if fields.len() == 0 {
        assert forall|k: Seq<char>| #[trigger] default_fields(defs).contains_key(k) implies {
            let v = default_fields(defs)[k].value;
            &&& defs.contains_key(k)
            &&& defs[k].kind != ValueType::Null ==> value_has_kind(v, defs[k].kind)
            &&& defs[k].kind == ValueType::Null ==> v == ValueModel::Null
        } by {
            lemma_kind_is_variant(default_value(defs[k].kind), defs[k].kind, defs[k].kind);
        }
    } else {
        let t = fields.drop_last();
        assert forall|i: int| 0 <= i < t.len() implies !kind_mismatch_at(defs, t, i) by {
            assert(t[i] == fields[i]);
            assert(!kind_mismatch_at(defs, fields, i));
        }
        lemma_built_fields_have_their_kinds(defs, t);
        let f = fields.last();
        assert(!kind_mismatch_at(defs, fields, fields.len() - 1));
        if defs.contains_key(f.name) {
            lemma_kind_is_variant(f.value, defs[f.name].kind, defs[f.name].kind);
        }
    }
}

/// Why a record cannot be built against a schema.
#[derive(Debug)]
pub enum SchemaError {
    /// The value given for a field is not of the field's kind.
    InvalidValueType { field: String },
}

impl SchemaError {
    /// The message of the error.
    pub fn message(&self) -> (m: String)
        ensures
            match self {
                SchemaError::InvalidValueType { field } => m@ == "invalid value type for "@
                    + field@,
            },
    {
        match self {
            SchemaError::InvalidValueType { field } => {
                String::from_str("invalid value type for ").concat(field.as_str())
            },
        }
    }
}

/// The names of the primary-key fields and the definitions of all fields.
#[derive(Debug)]
pub struct Schema {
    primary_key_fields: Vec<String>,
    fields: NameMap<FieldDefinition>,
}

impl Schema {
    /// Each definition is held under its own name.
    #[verifier::type_invariant]
    closed spec fn definitions_under_their_names(self) -> bool {
        forall|k: Seq<char>| #[trigger]
            self.fields@.contains_key(k) ==> self.fields@[k].name == k
    }

    /// The names of the primary-key fields, in the order given.
    pub closed spec fn primary_key_names(&self) -> Seq<Seq<char>> {
        texts(self.primary_key_fields@)
    }

    /// The definitions of the fields, by name.
    pub closed spec fn definitions(&self) -> Map<Seq<char>, FieldDefinitionModel> {
        self.fields@
    }

    /// The schema with the given primary-key fields and field definitions;
    /// a later definition replaces an earlier one of the same name.
    pub fn new(primary_key_fields: Vec<&str>, fields: Vec<FieldDefinition>) -> (s: Schema)
        ensures
            s.definitions() == definitions_map(fields@.map_values(|d: FieldDefinition| d@)),
            s.primary_key_names() == primary_key_fields@.map_values(|k: &str| k@),
    {
        let ghost defs = fields@.map_values(|d: FieldDefinition| d@);
        let ghost keyed = defs.map_values(|d: FieldDefinitionModel| (d.name, d));
        let total: usize = fields.len();
        let mut schema_fields: NameMap<FieldDefinition> = NameMap::new();
        let mut rest = fields;
        let mut taken: usize = 0;
        proof {
            assert(entries_to_map(keyed.take(0)) =~= Map::<
                Seq<char>,
                FieldDefinitionModel,
            >::empty());
        }
        while rest.len() > 0
            invariant
                defs == fields@.map_values(|d: FieldDefinition| d@),
                keyed == defs.map_values(|d: FieldDefinitionModel| (d.name, d)),
                total == fields@.len(),
                taken + rest@.len() == total,
                rest@ == fields@.skip(taken as int),
                schema_fields@ == entries_to_map(keyed.take(taken as int)),
                forall|k: Seq<char>| #[trigger]
                    schema_fields@.contains_key(k) ==> schema_fields@[k].name == k,
            decreases rest@.len(),
        {
            proof {
                assert(rest@[0] == fields@[taken as int]);
                assert(keyed.take(taken + 1).drop_last() =~= keyed.take(taken as int));
                assert(keyed.take(taken + 1).last() == keyed[taken as int]);
            }
            let field = rest.remove(0);
            let name = field.name.clone();
            schema_fields.insert(name, field);
            taken = taken + 1;
            proof {
                assert(rest@ =~= fields@.skip(taken as int));
            }
        }
        proof {
            assert(keyed.take(total as int) =~= keyed);
        }
        let mut pk_fields: Vec<String> = Vec::new();
        let mut i: usize = 0;
        while i < primary_key_fields.len()
            invariant
                i <= primary_key_fields@.len(),
                texts(pk_fields@) =~= primary_key_fields@.map_values(|k: &str| k@).take(i as int),
            decreases primary_key_fields@.len() - i,
        {
            let key = String::from_str(primary_key_fields[i]);
            let ghost before = pk_fields@;
            pk_fields.push(key);
            proof {
                assert(pk_fields@ == before.push(key));
                assert(texts(pk_fields@) =~= texts(before).push(key@));
                assert(texts(pk_fields@) =~= primary_key_fields@.map_values(|k: &str| k@).take(
                    i + 1,
                ));
            }
            i = i + 1;
        }
        proof {
            assert(primary_key_fields@.map_values(|k: &str| k@).take(i as int)
                =~= primary_key_fields@.map_values(|k: &str| k@));
        }
        Schema { primary_key_fields: pk_fields, fields: schema_fields }
    }

    /// The definitions of the fields, by name; each is held under its own
    /// name.
    pub fn fields(&self) -> (f: &NameMap<FieldDefinition>)
        ensures
            f@ == self.definitions(),
            forall|k: Seq<char>| #[trigger] f@.contains_key(k) ==> f@[k].name == k,
    {
        proof {
            use_type_invariant(self);
        }
        &self.fields
    }

    /// Builds a record from the given fields.
    ///
    /// Every defined field first holds the default value of its kind.  Then
    /// the given fields are taken in order: one that is not defined is
    /// ignored; one that is defined replaces the value of its name, and is
    /// also a field of the primary key when its name is a primary-key name.
    /// The first defined field whose value is not of its kind (no value is
    /// of kind `Null`) makes the whole call fail.
    pub fn new_record(&self, values: Vec<Field>) -> (r: Result<Record, SchemaError>)
        ensures
            ({
                let defs = self.definitions();
                let given = values@.map_values(|f: Field| f@);
                match r {
                    Ok(record) => {
                        &&& forall|i: int| 0 <= i < given.len() ==> !kind_mismatch_at(defs, given, i)
                        &&& record.values@ == insert_fields(default_fields(defs), given, defs.dom())
                        &&& record.primary_key@ == insert_fields(
                            Map::empty(),
                            given,
                            defs.dom().intersect(self.primary_key_names().to_set()),
                        )
                    },
                    Err(SchemaError::InvalidValueType { field }) => exists|i: int|
                        0 <= i < given.len() && kind_mismatch_at(defs, given, i) && (forall|j: int|
                            0 <= j < i ==> !kind_mismatch_at(defs, given, j)) && field@
                            == given[i].name,
                }
            }),
    {
        proof {
            use_type_invariant(self);
        }
        let ghost defs = self.definitions();
        let ghost given = values@.map_values(|f: Field| f@);
        let ghost pk_names = defs.dom().intersect(self.primary_key_names().to_set());
        let mut primary_key: NameMap<Field> = NameMap::new();
        let mut record_values: NameMap<Field> = NameMap::new();

        // every defined field starts with the default value of its kind
        let n = self.fields.len();
        let ghost entries = self.fields.entries();
        let ghost to_default = |k: Seq<char>, d: FieldDefinitionModel|
            FieldModel { name: d.name, value: default_value(d.kind) };
        let ghost defaulted = entries.map_values(
            |e: (Seq<char>, FieldDefinitionModel)| (e.0, to_default(e.0, e.1)),
        );
        proof {
            assert(entries_to_map(defaulted.take(0)) =~= Map::<Seq<char>, FieldModel>::empty());
        }
        let mut i: usize = 0;
        while i < n
            invariant
                n == entries.len(),
                entries == self.fields.entries(),
                keys_distinct(entries),
                defs == entries_to_map(entries),
                defs == self.definitions(),
                forall|k: Seq<char>| #[trigger] defs.contains_key(k) ==> defs[k].name == k,
                defaulted == entries.map_values(
                    |e: (Seq<char>, FieldDefinitionModel)| (e.0, to_default(e.0, e.1)),
                ),
                to_default == (|k: Seq<char>, d: FieldDefinitionModel|
                    FieldModel { name: d.name, value: default_value(d.kind) }),
                i <= n,
                record_values@ == entries_to_map(defaulted.take(i as int)),
            decreases n - i,
        {
            let def = self.fields.value_at(i);
            proof {
                lemma_entry_in_map(entries, i as int);
                assert(def@.name == entries[i as int].0);
                assert(defaulted.take(i + 1).drop_last() =~= defaulted.take(i as int));
                assert(defaulted.take(i + 1).last() == defaulted[i as int]);
            }
            let field = Field::new(def.name.as_str(), Value::get_default(def.kind));
            record_values.insert(def.name.clone(), field);
            i = i + 1;
        }
        proof {
            assert(defaulted.take(n as int) =~= defaulted);
            lemma_map_entries(entries, to_default);
            assert(default_fields(defs) =~= defs.map_entries(to_default));
        }

        // then the given fields, in order
        let mut j: usize = 0;
        while j < values.len()
            invariant
                j <= values@.len(),
                given == values@.map_values(|f: Field| f@),
                defs == self.definitions(),
                pk_names == defs.dom().intersect(self.primary_key_names().to_set()),
                forall|k: int| 0 <= k < j ==> !kind_mismatch_at(defs, given, k),
                record_values@ == insert_fields(
                    default_fields(defs),
                    given.take(j as int),
                    defs.dom(),
                ),
                primary_key@ == insert_fields(Map::empty(), given.take(j as int), pk_names),
            decreases values@.len() - j,
        {
            let field = &values[j];
            proof {
                assert(given.take(j + 1).drop_last() =~= given.take(j as int));
                assert(given.take(j + 1).last() == given[j as int]);
                assert(given[j as int] == field@);
            }
            let defined = self.fields.contains_key(field.name.as_str());
            if defined && contains_text(&self.primary_key_fields, field.name.as_str()) {
                primary_key.insert(field.name.clone(), field.duplicate());
            } else {
                proof {
                    if pk_names.contains(field@.name) {
                        assert(self.primary_key_names().to_set().contains(field@.name));
                        assert(self.primary_key_names().contains(field@.name));
                    }
                }
            }
            match self.fields.get(field.name.as_str()) {
                Some(def) => {
                    if !field.value.has_kind(def.kind) {
                        proof {
                            assert(kind_mismatch_at(defs, given, j as int));
                        }
                        return Err(SchemaError::InvalidValueType { field: field.name.clone() });
                    }
                    record_values.insert(field.name.clone(), field.duplicate());
                },
                None => {},
            }
            j = j + 1;
        }
        proof {
            assert(given.take(j as int) =~= given);
        }
        Ok(Record { primary_key, values: record_values })
    }
}

impl Clone for Schema {
    fn clone(&self) -> (s: Schema)
        ensures
            s.definitions() == self.definitions(),
            s.primary_key_names() == self.primary_key_names(),
    {
        proof {
            use_type_invariant(self);
        }
        let mut pk_fields: Vec<String> = Vec::new();
        let mut i: usize = 0;
        while i < self.primary_key_fields.len()
            invariant
                i <= self.primary_key_fields@.len(),
                texts(pk_fields@) =~= self.primary_key_names().take(i as int),
            decreases self.primary_key_fields@.len() - i,
        {
            let key = self.primary_key_fields[i].clone();
            let ghost before = pk_fields@;
            pk_fields.push(key);
            proof {
                assert(pk_fields@ == before.push(key));
                assert(texts(pk_fields@) =~= texts(before).push(key@));
                assert(texts(pk_fields@) =~= self.primary_key_names().take(i + 1));
            }
            i = i + 1;
        }
        proof {
            assert(self.primary_key_names().take(i as int) =~= self.primary_key_names());
        }
        Schema { primary_key_fields: pk_fields, fields: self.fields.clone() }
    }
}

} // verus!
