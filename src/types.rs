//! The identity model and the fact records.
//!
//! Entity identifiers are UUIDs, held here as their 128-bit value.

use vstd::prelude::*;

verus! {

/// The 128-bit value of a temporary identifier.
pub type TMPID = u128;

/// The 128-bit value of a permanent identifier.
pub type DBID = u128;

/// A transaction id.
pub type TX = u64;

/// Names an entity: permanently, or only within one transaction.
#[derive(Debug, Clone, Copy, PartialEq, Eq, Hash, Structural)]
pub enum ID {
    DBID(DBID),
    TMPID(TMPID),
}

impl ID {
    /// The underlying unique value, whatever the variant.
    pub open spec fn spec_id(&self) -> u128 {
        match self {
            ID::DBID(v) => *v,
            ID::TMPID(v) => *v,
        }
    }

    #[verifier::when_used_as_spec(spec_id)]
    pub fn id(&self) -> (r: u128)
        ensures
            r == self.spec_id(),
    {
        match self {
            ID::DBID(db_id) => *db_id,
            ID::TMPID(tmp_id) => *tmp_id,
        }
    }
}

/// The mathematical form of a `Value`.
pub enum ValueModel {
    Text(Seq<char>),
    Integer(i64),
    Boolean(bool),
    EntityRef(ID),
}

/// The mathematical form of an `Attribute`.
pub enum AttributeModel {
    Id(u128),
    Name(Seq<char>),
}

#[derive(Debug, Clone)]
pub enum Value {
    String(String),
    Integer(i64),
    Boolean(bool),
    EntityRef(ID),
}

#[derive(Debug, Clone)]
pub enum Attribute {
    DBID(DBID),
    String(String),
}

impl View for Value {
    type V = ValueModel;

    open spec fn view(&self) -> ValueModel {
        match self {
            Value::String(s) => ValueModel::Text(s@),
            Value::Integer(i) => ValueModel::Integer(*i),
            Value::Boolean(b) => ValueModel::Boolean(*b),
            Value::EntityRef(id) => ValueModel::EntityRef(*id),
        }
    }
}

impl View for Attribute {
    type V = AttributeModel;

    open spec fn view(&self) -> AttributeModel {
        match self {
            Attribute::DBID(u) => AttributeModel::Id(*u),
            Attribute::String(s) => AttributeModel::Name(s@),
        }
    }
}

impl Value {
    /// A copy with the same model.
    pub fn duplicate(&self) -> (r: Value)
        ensures
            r@ == self@,
    {
        match self {
            Value::String(s) => Value::String(s.clone()),
            Value::Integer(i) => Value::Integer(*i),
            Value::Boolean(b) => Value::Boolean(*b),
            Value::EntityRef(id) => Value::EntityRef(*id),
        }
    }
}

impl Attribute {
    /// A copy with the same model.
    pub fn duplicate(&self) -> (r: Attribute)
        ensures
            r@ == self@,
    {
        match self {
            Attribute::DBID(u) => Attribute::DBID(*u),
            Attribute::String(s) => Attribute::String(s.clone()),
        }
    }
}

impl PartialEq for Value {
    fn eq(&self, other: &Value) -> (r: bool) {
        match (self, other) {
            (Value::String(a), Value::String(b)) => *a == *b,
            (Value::Integer(a), Value::Integer(b)) => *a == *b,
            (Value::Boolean(a), Value::Boolean(b)) => *a == *b,
            (Value::EntityRef(a), Value::EntityRef(b)) => *a == *b,
            _ => false,
        }
    }
}

impl vstd::std_specs::cmp::PartialEqSpecImpl for Value {
    open spec fn obeys_eq_spec() -> bool {
        true
    }

    open spec fn eq_spec(&self, other: &Value) -> bool {
        self@ == other@
    }
}

impl PartialEq for Attribute {
    fn eq(&self, other: &Attribute) -> (r: bool) {
        match (self, other) {
            (Attribute::DBID(a), Attribute::DBID(b)) => *a == *b,
            (Attribute::String(a), Attribute::String(b)) => *a == *b,
            _ => false,
        }
    }
}

impl vstd::std_specs::cmp::PartialEqSpecImpl for Attribute {
    open spec fn obeys_eq_spec() -> bool {
        true
    }

    open spec fn eq_spec(&self, other: &Attribute) -> bool {
        self@ == other@
    }
}

/// The mathematical form of a `Datom`.
pub struct DatomModel {
    pub id: u128,
    pub attribute: AttributeModel,
    pub value: ValueModel,
    pub tx: nat,
}

/// An immutable fact: entity, attribute, value and the transaction that
/// asserted it.
#[derive(Debug, Clone)]
pub struct Datom {
    pub id: DBID,
    pub attribute: Attribute,
    pub value: Value,
    pub tx: TX,
}

impl View for Datom {
    type V = DatomModel;

    open spec fn view(&self) -> DatomModel {
        DatomModel { id: self.id, attribute: self.attribute@, value: self.value@, tx: self.tx as nat }
    }
}

impl PartialEq for Datom {
    fn eq(&self, other: &Datom) -> (r: bool) {
        self.id == other.id && self.attribute == other.attribute && self.value == other.value
            && self.tx == other.tx
    }
}

impl vstd::std_specs::cmp::PartialEqSpecImpl for Datom {
    open spec fn obeys_eq_spec() -> bool {
        true
    }

    open spec fn eq_spec(&self, other: &Datom) -> bool {
        self@ == other@
    }
}

/// One attribute paired with one value.
#[derive(Debug, Clone)]
pub struct AV {
    pub attribute: Attribute,
    pub value: Value,
}

impl View for AV {
    type V = (AttributeModel, ValueModel);

    open spec fn view(&self) -> (AttributeModel, ValueModel) {
        (self.attribute@, self.value@)
    }
}

impl PartialEq for AV {
    fn eq(&self, other: &AV) -> (r: bool) {
        self.attribute == other.attribute && self.value == other.value
    }
}

impl vstd::std_specs::cmp::PartialEqSpecImpl for AV {
    open spec fn obeys_eq_spec() -> bool {
        true
    }

    open spec fn eq_spec(&self, other: &AV) -> bool {
        self@ == other@
    }
}

/// The models of a list of `AV`s.
pub open spec fn av_pairs(avs: Seq<AV>) -> Seq<(AttributeModel, ValueModel)> {
    avs.map_values(|x: AV| (x.attribute@, x.value@))
}

} // verus!
