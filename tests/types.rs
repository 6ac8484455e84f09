use eavstore::transaction::Object;
use eavstore::types::{Attribute, Value, AV, ID};
use uuid::Uuid;

#[test]
fn test_object_creation() {
    let obj = Object {
        id: ID::TMPID(Uuid::new_v4().as_u128()),
        a_v: vec![AV {
            attribute: Attribute::String("name".to_owned()),
            value: Value::String("Alice".to_string()),
        }],
    };
    assert_eq!(obj.a_v.len(), 1);
}

#[test]
fn test_id_resolution() {
    let uuid = Uuid::new_v4().as_u128();
    assert_eq!(ID::DBID(uuid).id(), uuid);
    assert_eq!(ID::TMPID(uuid).id(), uuid);
}

#[test]
fn attribute_variants_are_distinct() {
    let uuid = Uuid::new_v4().as_u128();
    assert_ne!(Attribute::DBID(uuid), Attribute::String("name".to_string()));
    assert_eq!(Attribute::DBID(uuid), Attribute::DBID(uuid));
    assert_ne!(
        Attribute::String("name".to_string()),
        Attribute::String("age".to_string())
    );
}

#[test]
fn values_compare_without_coercion() {
    assert_ne!(Value::Integer(1), Value::Boolean(true));
    assert_ne!(Value::String("8".to_string()), Value::Integer(8));
    assert_eq!(Value::EntityRef(ID::DBID(7)), Value::EntityRef(ID::DBID(7)));
    assert_ne!(Value::EntityRef(ID::DBID(7)), Value::EntityRef(ID::TMPID(7)));
    assert_eq!(
        Value::String("Alice".to_string()).duplicate(),
        Value::String("Alice".to_string())
    );
}
