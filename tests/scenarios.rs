use eavstore::memstore::MemStore;
use eavstore::query::{Query, WhereClause};
use eavstore::store::Store;
use eavstore::transaction::{Object, Transaction};
use eavstore::types::{Attribute, Datom, Value, AV, ID};
use uuid::Uuid;

fn attr(name: &str) -> Attribute {
    Attribute::String(name.to_string())
}

fn av(name: &str, value: Value) -> AV {
    AV {
        attribute: attr(name),
        value,
    }
}

fn text(s: &str) -> Value {
    Value::String(s.to_string())
}

fn clause(name: &str, value: Option<Value>) -> WhereClause {
    WhereClause {
        attribute: attr(name),
        value,
    }
}

/// Two entities in the first transaction, a third in the second.
fn scenario_a() -> (MemStore, u128, u128, u128) {
    let mut store = MemStore::new();
    let alice = Uuid::new_v4().as_u128();
    let second = Uuid::new_v4().as_u128();
    let bob = Uuid::new_v4().as_u128();
    store.transact(Transaction {
        elems: vec![
            Object {
                id: ID::TMPID(alice),
                a_v: vec![av("name", text("Alice")), av("age", Value::Integer(8))],
            },
            Object {
                id: ID::TMPID(second),
                a_v: vec![av("age", Value::Integer(25))],
            },
        ],
    });
    store.transact(Transaction {
        elems: vec![Object {
            id: ID::TMPID(bob),
            a_v: vec![
                av("name", text("Bob")),
                av("age", Value::Integer(30)),
                av("is_active", Value::Boolean(true)),
            ],
        }],
    });
    (store, alice, second, bob)
}

#[test]
fn transaction_ids_count_calls() {
    let mut store = MemStore::new();
    let id = Uuid::new_v4().as_u128();
    store.transact(Transaction {
        elems: vec![Object {
            id: ID::DBID(id),
            a_v: vec![av("name", text("Alice")), av("age", Value::Integer(8))],
        }],
    });
    store.transact(Transaction { elems: vec![] });
    store.transact(Transaction {
        elems: vec![Object {
            id: ID::DBID(id),
            a_v: vec![av("age", Value::Integer(9))],
        }],
    });
    assert_eq!(store.next_tx, 3);
    let txs: Vec<u64> = store.datoms.iter().map(|d| d.tx).collect();
    assert_eq!(txs, vec![0, 0, 2]);
}

#[test]
fn datoms_keep_submission_order() {
    let (store, alice, second, bob) = scenario_a();
    let ids: Vec<u128> = store.datoms.iter().map(|d| d.id).collect();
    assert_eq!(ids, vec![alice, alice, second, bob, bob, bob]);
    assert_eq!(store.datoms[5].attribute, attr("is_active"));
    assert_eq!(store.datoms[5].value, Value::Boolean(true));
    assert_eq!(store.datoms[5].tx, 1);
}

#[test]
fn scenario_a_log_query_and_resolution() {
    let (store, alice, _, _) = scenario_a();
    assert_eq!(store.datoms.len(), 6);
    let results = store.query_datoms(&Query {
        conjunction: vec![clause("name", Some(text("Alice")))],
    });
    assert_eq!(results.len(), 1);
    assert_eq!(results[0].id, alice);
    let objects = store.resolve_objects(results);
    assert_eq!(objects.len(), 1);
    assert_eq!(objects[0].id, ID::DBID(alice));
    assert_eq!(objects[0].a_v.len(), 2);
    assert!(objects[0].a_v.contains(&av("name", text("Alice"))));
    assert!(objects[0].a_v.contains(&av("age", Value::Integer(8))));
}

#[test]
fn scenario_b_later_write_wins_in_index() {
    let mut store = MemStore::new();
    let id = Uuid::new_v4().as_u128();
    store.transact(Transaction {
        elems: vec![Object {
            id: ID::DBID(id),
            a_v: vec![av("name", text("Alice")), av("age", Value::Integer(8))],
        }],
    });
    store.transact(Transaction {
        elems: vec![Object {
            id: ID::TMPID(id),
            a_v: vec![av("age", Value::Integer(9))],
        }],
    });
    let attrs = store.eavt.get(&id).expect("entity indexed");
    assert_eq!(attrs.len(), 2);
    assert_eq!(attrs.get(&attr("age")), Some(&(Value::Integer(9), 1)));
    assert_eq!(attrs.get(&attr("name")), Some(&(text("Alice"), 0)));
    assert_eq!(store.datoms.len(), 3);
    assert_eq!(store.datoms[1].value, Value::Integer(8));
    assert_eq!(store.datoms[2].value, Value::Integer(9));
}

#[test]
fn scenario_c_clause_without_value_matches_nothing() {
    let (store, _, _, _) = scenario_a();
    let results = store.query_datoms(&Query {
        conjunction: vec![clause("name", None)],
    });
    assert!(results.is_empty());
}

#[test]
fn empty_query_returns_log_in_order() {
    let (store, _, _, _) = scenario_a();
    let results = store.query_datoms(&Query {
        conjunction: vec![],
    });
    assert_eq!(results.len(), store.datoms.len());
    for (r, d) in results.iter().zip(store.datoms.iter()) {
        assert_eq!(*r, d);
    }
}

#[test]
fn single_clause_selects_across_entities() {
    let mut store = MemStore::new();
    let a = Uuid::new_v4().as_u128();
    let b = Uuid::new_v4().as_u128();
    store.transact(Transaction {
        elems: vec![
            Object {
                id: ID::DBID(a),
                a_v: vec![av("name", text("Alice")), av("nick", text("Alice"))],
            },
            Object {
                id: ID::DBID(b),
                a_v: vec![av("name", text("Alice")), av("age", Value::Integer(3))],
            },
        ],
    });
    let results = store.query_datoms(&Query {
        conjunction: vec![clause("name", Some(text("Alice")))],
    });
    assert_eq!(results.len(), 2);
    assert_eq!(results[0].id, a);
    assert_eq!(results[1].id, b);
    assert!(results.iter().all(|d| d.attribute == attr("name")));

    let objects = store.resolve_objects(results);
    assert_eq!(objects.len(), 2);
    assert_eq!(objects[0].id, ID::DBID(a));
    assert_eq!(objects[1].id, ID::DBID(b));
    assert_eq!(objects[0].a_v.len(), 2);
    assert!(objects[1].a_v.contains(&av("age", Value::Integer(3))));
}

#[test]
fn resolve_deduplicates_entities() {
    let (store, alice, _, bob) = scenario_a();
    let refs: Vec<&Datom> = store.datoms.iter().collect();
    let objects = store.resolve_objects(refs);
    assert_eq!(objects.len(), 3);
    assert_eq!(objects[0].id, ID::DBID(alice));
    assert_eq!(objects[2].id, ID::DBID(bob));
    assert_eq!(objects[2].a_v.len(), 3);
}

#[test]
fn rebuild_with_empty_batch_keeps_index() {
    let (mut store, alice, _, _) = scenario_a();
    store.rebuild_eavt(&vec![]);
    let attrs = store.eavt.get(&alice).expect("entity indexed");
    assert_eq!(attrs.len(), 2);
    assert_eq!(attrs.get(&attr("age")), Some(&(Value::Integer(8), 0)));
    assert_eq!(store.datoms.len(), 6);
    assert_eq!(store.next_tx, 2);
}

#[test]
fn rebuild_keeps_entities_outside_the_batch() {
    let (mut store, alice, second, _) = scenario_a();
    store.rebuild_eavt(&vec![Datom {
        id: second,
        attribute: attr("age"),
        value: Value::Integer(26),
        tx: 7,
    }]);
    assert_eq!(
        store.eavt.get(&second).expect("indexed").get(&attr("age")),
        Some(&(Value::Integer(26), 7))
    );
    assert_eq!(store.eavt.get(&alice).expect("indexed").len(), 2);
    assert_eq!(store.datoms.len(), 6);
}

#[test]
fn multi_attribute_conjunction_matches_no_datom() {
    let (store, _, _, _) = scenario_a();
    let results = store.query_datoms(&Query {
        conjunction: vec![
            clause("name", Some(text("Bob"))),
            clause("age", Some(Value::Integer(30))),
        ],
    });
    assert!(results.is_empty());
    let same = store.query_datoms(&Query {
        conjunction: vec![
            clause("age", Some(Value::Integer(30))),
            clause("age", Some(Value::Integer(30))),
        ],
    });
    assert_eq!(same.len(), 1);
}

#[test]
fn id_attributes_and_entity_refs() {
    let mut store = MemStore::new();
    let e = Uuid::new_v4().as_u128();
    let a = Uuid::new_v4().as_u128();
    let target = Uuid::new_v4().as_u128();
    store.transact(Transaction {
        elems: vec![Object {
            id: ID::DBID(e),
            a_v: vec![AV {
                attribute: Attribute::DBID(a),
                value: Value::EntityRef(ID::DBID(target)),
            }],
        }],
    });
    let hits = store.query_datoms(&Query {
        conjunction: vec![WhereClause {
            attribute: Attribute::DBID(a),
            value: Some(Value::EntityRef(ID::DBID(target))),
        }],
    });
    assert_eq!(hits.len(), 1);
    let misses = store.query_datoms(&Query {
        conjunction: vec![WhereClause {
            attribute: Attribute::DBID(a),
            value: Some(Value::EntityRef(ID::TMPID(target))),
        }],
    });
    assert!(misses.is_empty());
}

fn fresh<S: Store>() -> S {
    S::new()
}

#[test]
fn store_trait_drives_a_memstore() {
    let mut store: MemStore = fresh();
    let id = Uuid::new_v4().as_u128();
    Store::transact(
        &mut store,
        Transaction {
            elems: vec![Object {
                id: ID::DBID(id),
                a_v: vec![av("name", text("Alice"))],
            }],
        },
    );
    let q = Query {
        conjunction: vec![clause("name", Some(text("Alice")))],
    };
    let hits = Store::query_datoms(&store, &q);
    assert_eq!(hits.len(), 1);
    let objects = Store::resolve_objects(&store, hits);
    assert_eq!(objects.len(), 1);
    assert_eq!(objects[0].id, ID::DBID(id));
}
