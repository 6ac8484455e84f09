//! An in-memory entity-attribute-value fact store: an append-only log of
//! datoms, an entity index kept as "last write wins" per (entity, attribute),
//! and conjunctive equality queries over the log.

pub mod assoc;
pub mod index;
pub mod memstore;
pub mod query;
pub mod store;
pub mod transaction;
pub mod types;
