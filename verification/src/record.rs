//! Values, fields, primary keys and records.
use crate::fx::{
    bool_call, fx_absorbed, fx_digest, fx_finish, fx_hash_bool, fx_hash_i64, fx_hash_str,
    fx_hash_u64, fx_hash_u8, fx_new, i64_call, str_call, u64_call, u8_call,
};
use crate::name_map::{Duplicate, NameMap};
use crate::text::{i64_text, signed_decimal};
use rustc_hash::FxHasher;
use vstd::prelude::*;
use vstd::std_specs::cmp::PartialEqSpecImpl;
use vstd::string::*;

verus! {

/// A value held by a field.  A float is held as the bit pattern of its
/// `f64` (`f64::to_bits`), which is also what its hash is made of.
#[derive(Clone, Debug)]
pub enum Value {
    Null,
    String(String),
    Integer(i64),
    Float(u64),
    Bool(bool),
}

/// What a value is, with its text as a sequence of characters.
pub enum ValueModel {
    Null,
    String(Seq<char>),
    Integer(i64),
    Float(u64),
    Bool(bool),
}

impl View for Value {
    type V = ValueModel;

    open spec fn view(&self) -> ValueModel {
        match self {
            Value::Null => ValueModel::Null,
            Value::String(s) => ValueModel::String(s@),
            Value::Integer(i) => ValueModel::Integer(*i),
            Value::Float(b) => ValueModel::Float(*b),
            Value::Bool(b) => ValueModel::Bool(*b),
        }
    }
}

/// The kind of value that a field of a schema holds.
#[derive(Clone, Copy, Debug, PartialEq, Eq, Structural)]
pub enum ValueType {
    Null,
    String,
    Integer,
    Float,
    Bool,
}

/// The value a record holds for a field of the given kind that it was not
/// given: the empty string, zero, `false`, or no value.
pub open spec fn default_value(kind: ValueType) -> ValueModel {
    match kind {
        ValueType::Null => ValueModel::Null,
        ValueType::String => ValueModel::String(Seq::empty()),
        ValueType::Integer => ValueModel::Integer(0),
        ValueType::Float => ValueModel::Float(0),
        ValueType::Bool => ValueModel::Bool(false),
    }
}

/// Whether a value is of the given kind.  No value is of kind `Null`.
pub open spec fn value_has_kind(v: ValueModel, kind: ValueType) -> bool {
    match kind {
        ValueType::String => v is String,
        ValueType::Integer => v is Integer,
        ValueType::Float => v is Float,
        ValueType::Bool => v is Bool,
        ValueType::Null => false,
    }
}

/// The calls with which a value is hashed: a tag byte for its variant, then
/// its content.
pub open spec fn value_hash_calls(v: ValueModel) -> Seq<(u8, int, Seq<char>)> {
    match v {
        ValueModel::Null => seq![u8_call(0)],
        ValueModel::String(s) => seq![u8_call(1), str_call(s)],
        ValueModel::Integer(i) => seq![u8_call(2), i64_call(i)],
        ValueModel::Float(b) => seq![u8_call(3), u64_call(b)],
        ValueModel::Bool(b) => seq![u8_call(4), bool_call(b)],
    }
}

/// The text that `Display` writes for a value other than a float.
pub open spec fn value_text(v: ValueModel) -> Seq<char> {
    match v {
        ValueModel::Null => Seq::empty(),
        ValueModel::String(s) => s,
        ValueModel::Integer(i) => signed_decimal(i as int),
        ValueModel::Float(_) => Seq::empty(),
        ValueModel::Bool(b) => if b {
            seq!['t', 'r', 'u', 'e']
        } else {
            seq!['f', 'a', 'l', 's', 'e']
        },
    }
}

impl Value {
    /// The value that a record holds for a field of kind `kind` that it was
    /// not given.
    pub fn get_default(kind: ValueType) -> (v: Value)
        ensures
            v@ == default_value(kind),
    {
        match kind {
            ValueType::Null => Value::Null,
            ValueType::String => Value::String(String::new()),
            ValueType::Integer => Value::Integer(0),
            ValueType::Float => Value::Float(0),
            ValueType::Bool => Value::Bool(false),
        }
    }

    /// Whether the value is of the given kind.
    pub fn has_kind(&self, kind: ValueType) -> (b: bool)
        ensures
            b == value_has_kind(self@, kind),
    {
        match kind {
            ValueType::String => matches!(self, Value::String(_)),
            ValueType::Integer => matches!(self, Value::Integer(_)),
            ValueType::Float => matches!(self, Value::Float(_)),
            ValueType::Bool => matches!(self, Value::Bool(_)),
            ValueType::Null => false,
        }
    }

    /// Hashes the value into `state`: first a tag byte for its variant
    /// (0 to 4, in the order of the variants), then its content; a float
    /// is hashed as its bit pattern.
    pub fn hash(&self, state: &mut FxHasher)
        ensures
            fx_absorbed(*final(state)) == fx_absorbed(*old(state)) + value_hash_calls(self@),
    {
        let ghost before = fx_absorbed(*state);
        match self {
            Value::Null => {
                fx_hash_u8(state, 0);
            },
            Value::String(s) => {
                fx_hash_u8(state, 1);
                fx_hash_str(state, s.as_str());
            },
            Value::Integer(i) => {
                fx_hash_u8(state, 2);
                fx_hash_i64(state, *i);
            },
            Value::Float(b) => {
                fx_hash_u8(state, 3);
                fx_hash_u64(state, *b);
            },
            Value::Bool(b) => {
                fx_hash_u8(state, 4);
                fx_hash_bool(state, *b);
            },
        }
        assert(fx_absorbed(*state) =~= before + value_hash_calls(self@));
    }

    /// What `Display` writes for the value: its text, or, for a float, the
    /// bit pattern of the `f64` whose `Debug` text is written.
    pub fn display_text(&self) -> (t: DisplayText)
        ensures
            match t {
                DisplayText::Text(s) => !(self@ is Float) && s@ == value_text(self@),
                DisplayText::Float(b) => self@ == ValueModel::Float(b),
            },
    {
        match self {
            Value::Null => DisplayText::Text(String::new()),
            Value::String(s) => DisplayText::Text(s.clone()),
            Value::Integer(i) => DisplayText::Text(i64_text(*i)),
            Value::Float(b) => DisplayText::Float(*b),
            Value::Bool(b) => {
                if *b {
                    proof {
                        reveal_strlit("true");
                    }
                    DisplayText::Text(String::from_str("true"))
                } else {
                    proof {
                        reveal_strlit("false");
                    }
                    DisplayText::Text(String::from_str("false"))
                }
            },
        }
    }
}

/// What `Display` writes for a value: a text, or the bit pattern of an `f64`
/// whose `Debug` text is written.
#[derive(Debug, PartialEq)]
pub enum DisplayText {
    Text(String),
    Float(u64),
}

/// Whether the bit pattern is that of an `f64` NaN: all exponent bits set
/// and a fraction that is not zero.
pub open spec fn f64_bits_nan(b: u64) -> bool {
    (b / 0x10_0000_0000_0000) % 0x800 == 0x7ff && b % 0x10_0000_0000_0000 != 0
}

/// Whether the bit pattern is that of `0.0` or `-0.0`.
pub open spec fn f64_bits_zero(b: u64) -> bool {
    b % 0x8000_0000_0000_0000 == 0
}

/// Whether the `f64`s of two bit patterns compare equal: a NaN equals
/// nothing, the two zeros are equal, and otherwise equal bits are equal.
pub open spec fn f64_bits_eq(a: u64, b: u64) -> bool {
    &&& !f64_bits_nan(a)
    &&& !f64_bits_nan(b)
    &&& (a == b || (f64_bits_zero(a) && f64_bits_zero(b)))
}

/// Whether two values are equal: of the same variant with equal contents,
/// floats compared as `f64`s.
pub open spec fn value_eq(a: ValueModel, b: ValueModel) -> bool {
    match (a, b) {
        (ValueModel::Null, ValueModel::Null) => true,
        (ValueModel::String(x), ValueModel::String(y)) => x == y,
        (ValueModel::Integer(x), ValueModel::Integer(y)) => x == y,
        (ValueModel::Float(x), ValueModel::Float(y)) => f64_bits_eq(x, y),
        (ValueModel::Bool(x), ValueModel::Bool(y)) => x == y,
        _ => false,
    }
}

/// Whether the `f64`s of two bit patterns compare equal.
fn float_bits_eq(a: u64, b: u64) -> (r: bool)
    ensures
        r == f64_bits_eq(a, b),
{
    let a_nan = (a / 0x10_0000_0000_0000) % 0x800 == 0x7ff && a % 0x10_0000_0000_0000 != 0;
    let b_nan = (b / 0x10_0000_0000_0000) % 0x800 == 0x7ff && b % 0x10_0000_0000_0000 != 0;
    let both_zero = a % 0x8000_0000_0000_0000 == 0 && b % 0x8000_0000_0000_0000 == 0;
    !a_nan && !b_nan && (a == b || both_zero)
}

impl PartialEq for Value {
    fn eq(&self, other: &Value) -> (r: bool) {
        match (self, other) {
            (Value::Null, Value::Null) => true,
            (Value::String(x), Value::String(y)) => *x == *y,
            (Value::Integer(x), Value::Integer(y)) => *x == *y,
            (Value::Float(x), Value::Float(y)) => float_bits_eq(*x, *y),
            (Value::Bool(x), Value::Bool(y)) => *x == *y,
            _ => false,
        }
    }
}

impl PartialEqSpecImpl for Value {
    open spec fn obeys_eq_spec() -> bool {
        true
    }

    open spec fn eq_spec(&self, other: &Value) -> bool {
        value_eq(self@, other@)
    }
}

impl Duplicate for Value {
    fn duplicate(&self) -> (r: Value) {
        match self {
            Value::Null => Value::Null,
            Value::String(s) => Value::String(s.clone()),
            Value::Integer(i) => Value::Integer(*i),
            Value::Float(b) => Value::Float(*b),
            Value::Bool(b) => Value::Bool(*b),
        }
    }
}

/// A named value.
#[derive(Clone, Debug, PartialEq)]
pub struct Field {
    pub name: String,
    pub value: Value,
}

/// What a field is.
pub struct FieldModel {
    pub name: Seq<char>,
    pub value: ValueModel,
}

impl View for Field {
    type V = FieldModel;

    open spec fn view(&self) -> FieldModel {
        FieldModel { name: self.name@, value: self.value@ }
    }
}

impl Duplicate for Field {
    fn duplicate(&self) -> (r: Field) {
        Field { name: self.name.clone(), value: self.value.duplicate() }
    }
}

impl Field {
    /// The field named `name` holding `value`.
    pub fn new(name: &str, value: Value) -> (f: Field)
        ensures
            f@ == (FieldModel { name: name@, value: value@ }),
    {
        Field { name: String::from_str(name), value }
    }
}

/// The calls with which the values of the given entries are hashed, one
/// entry after the other.
pub open spec fn fields_hash_calls(s: Seq<(Seq<char>, FieldModel)>) -> Seq<(u8, int, Seq<char>)>
    decreases s.len(),
{
    if s.len() == 0 {
        Seq::empty()
    } else {
        fields_hash_calls(s.drop_last()) + value_hash_calls(s.last().1.value)
    }
}

/// Law: the hash of a primary key depends on the values of its fields, in
/// order, and on nothing else: keys whose fields hold the same values in the
/// same order have the same hash, whatever the names.
pub proof fn lemma_hash_depends_on_values_only(
    a: Seq<(Seq<char>, FieldModel)>,
    b: Seq<(Seq<char>, FieldModel)>,
)
    requires
        a.len() == b.len(),
        forall|i: int| 0 <= i < a.len() ==> (#[trigger] a[i]).1.value == b[i].1.value,
    ensures
        fields_hash_calls(a) == fields_hash_calls(b),
        fx_digest(fields_hash_calls(a)) == fx_digest(fields_hash_calls(b)),
    decreases a.len(),
{
    if a.len() > 0 {
        assert forall|i: int| 0 <= i < a.drop_last().len() implies (#[trigger] a.drop_last()[i]).1.value
            == b.drop_last()[i].1.value by {
            assert(a.drop_last()[i] == a[i]);
            assert(b.drop_last()[i] == b[i]);
        }
        lemma_hash_depends_on_values_only(a.drop_last(), b.drop_last());
        assert(a.last().1.value == b.last().1.value);
    }
}

/// The last call with which a value is hashed tells the value apart: two
/// values whose hash calls end alike are the same value.
proof fn lemma_last_call_determines_value(v: ValueModel, w: ValueModel)
    requires
        value_hash_calls(v).last() == value_hash_calls(w).last(),
    ensures
        v == w,
{
    match v {
        ValueModel::Null => {},
        ValueModel::String(s) => {},
        ValueModel::Integer(i) => {},
        ValueModel::Float(b) => {},
        ValueModel::Bool(b) => {},
    }
}

/// Law: the hash calls of a primary key's values, in order, determine
/// those values: keys whose values differ (in any field, or in number) are
/// hashed from different call sequences.  So a key holding `Bool(true)` and
/// one holding `Bool(false)` never share their calls.
pub proof fn lemma_hash_calls_determine_values(
    a: Seq<(Seq<char>, FieldModel)>,
    b: Seq<(Seq<char>, FieldModel)>,
)
    requires
        fields_hash_calls(a) == fields_hash_calls(b),
    ensures
        a.len() == b.len(),
        forall|i: int| 0 <= i < a.len() ==> (#[trigger] a[i]).1.value == b[i].1.value,
    decreases a.len(),
{
    if a.len() == 0 {
        if b.len() > 0 {
            assert(fields_hash_calls(b).len() >= value_hash_calls(b.last().1.value).len());
        }
    } else {
        if b.len() == 0 {
            assert(fields_hash_calls(a).len() >= value_hash_calls(a.last().1.value).len());
        }
        let va = a.last().1.value;
        let vb = b.last().1.value;
        let x = fields_hash_calls(a);
        assert(x == fields_hash_calls(a.drop_last()) + value_hash_calls(va));
        assert(x == fields_hash_calls(b.drop_last()) + value_hash_calls(vb));
        assert(value_hash_calls(va).last() == x.last());
        assert(value_hash_calls(vb).last() == x.last());
        lemma_last_call_determines_value(va, vb);
        let pa = fields_hash_calls(a.drop_last());
        let pb = fields_hash_calls(b.drop_last());
        assert(pa =~= x.subrange(0, pa.len() as int));
        assert(pb =~= x.subrange(0, pb.len() as int));
        lemma_hash_calls_determine_values(a.drop_last(), b.drop_last());
        assert forall|i: int| 0 <= i < a.len() implies (#[trigger] a[i]).1.value == b[i].1.value by {
            if i < a.len() - 1 {
                assert(a.drop_last()[i] == a[i]);
                assert(b.drop_last()[i] == b[i]);
            }
        }
    }
}

/// Whether two values are of the same variant.
pub open spec fn same_variant(a: ValueModel, b: ValueModel) -> bool {
    &&& (a is Null <==> b is Null)
    &&& (a is String <==> b is String)
    &&& (a is Integer <==> b is Integer)
    &&& (a is Float <==> b is Float)
    &&& (a is Bool <==> b is Bool)
}

/// Law: a value is of at most one kind, and of a kind only when it has the
/// variant of that kind's default value; the default value of every kind
/// but `Null` is of that kind, and no value is of kind `Null`.
pub proof fn lemma_kind_is_variant(v: ValueModel, k1: ValueType, k2: ValueType)
    ensures
        value_has_kind(v, k1) && value_has_kind(v, k2) ==> k1 == k2,
        value_has_kind(v, k1) ==> same_variant(v, default_value(k1)),
        k1 != ValueType::Null ==> value_has_kind(default_value(k1), k1),
        !value_has_kind(v, ValueType::Null),
        same_variant(v, default_value(k1)) && k1 != ValueType::Null ==> value_has_kind(v, k1),
{
}

/// The fields of a record that identify it, with their hash.
pub struct PrimaryKey {
    pub fields: NameMap<Field>,
    pub hash: u64,
}

impl PrimaryKey {
    /// The primary key made of `fields`.  Its hash is the Fx digest of the
    /// values of the fields, hashed one after the other in the order of the
    /// map's entries.
    pub fn new(fields: NameMap<Field>) -> (pk: PrimaryKey)
        ensures
            pk.fields@ == fields@,
            pk.fields.entries() == fields.entries(),
            pk.hash == fx_digest(fields_hash_calls(fields.entries())),
    {
        let mut hasher = fx_new();
        let n = fields.len();
        let mut i: usize = 0;
        while i < n
            invariant
                n == fields.entries().len(),
                i <= n,
                fx_absorbed(hasher) == fields_hash_calls(fields.entries().take(i as int)),
            decreases n - i,
        {
            let field = fields.value_at(i);
            field.value.hash(&mut hasher);
            proof {
                assert(fields.entries().take(i + 1).drop_last() =~= fields.entries().take(
                    i as int,
                ));
            }
            i = i + 1;
        }
        proof {
            assert(fields.entries().take(n as int) =~= fields.entries());
        }
        let hash = fx_finish(&hasher);
        PrimaryKey { fields, hash }
    }
}

/// A record: the fields of its primary key, and the value of each of its
/// fields.
#[derive(Clone, Debug)]
pub struct Record {
    pub primary_key: NameMap<Field>,
    pub values: NameMap<Field>,
}

} // verus!
