//! The operations every store offers.

use vstd::prelude::*;

use crate::memstore::{
    apply_datoms, datom_ref_models, datom_models, empty_store, resolves_from, transact_model,
    MemStore, StoreModel,
};
use crate::query::{select, Query};
use crate::transaction::{Object, Transaction};
use crate::types::{Datom, ID};

verus! {

/// A fact store: a datom log, an entity index over it and a transaction
/// counter, described by a `StoreModel`.
pub trait Store: Sized {
    spec fn model(&self) -> StoreModel;

    spec fn inv(&self) -> bool;

    /// An empty store: no datoms, an empty index, transaction counter 0.
    fn new() -> (r: Self)
        ensures
            r.inv(),
            r.model() == empty_store(),
    ;

    /// Asserts a batch under the next transaction id, then advances the
    /// counter.
    fn transact(&mut self, transaction: Transaction)
        requires
            old(self).inv(),
            old(self).model().next_tx < u64::MAX,
        ensures
            final(self).inv(),
            final(self).model() == transact_model(old(self).model(), transaction@),
    ;

    /// The datoms of the log that every clause of `query` matches, in log
    /// order.
    fn query_datoms(&self, query: &Query) -> (r: Vec<&Datom>)
        ensures
            datom_ref_models(r@) == select(self.model().log, query@),
    ;

    /// Writes `new_datoms` into the index, in order; the log and the counter
    /// stay as they are.
    fn rebuild_eavt(&mut self, new_datoms: &Vec<Datom>)
        requires
            old(self).inv(),
        ensures
            final(self).inv(),
            final(self).model().log == old(self).model().log,
            final(self).model().next_tx == old(self).model().next_tx,
            final(self).model().index == apply_datoms(
                old(self).model().index,
                datom_models(new_datoms@),
            ),
    ;

    /// One `Object` per distinct entity among `datoms` that the index knows,
    /// each with every attribute the index holds for it.
    fn resolve_objects(&self, datoms: Vec<&Datom>) -> (r: Vec<Object>)
        requires
            self.inv(),
        ensures
            forall|k: int|
                0 <= k < r@.len() ==> resolves_from(
                    self.model().index,
                    #[trigger] r@[k],
                    datoms@,
                    datoms@.len() as int,
                ),
            forall|k1: int, k2: int| 0 <= k1 < k2 < r@.len() ==> r@[k1].id != r@[k2].id,
            forall|j: int|
                0 <= j < datoms@.len() && self.model().index.contains_key(
                    #[trigger] datoms@[j].id,
                ) ==> exists|k: int| 0 <= k < r@.len() && r@[k].id == ID::DBID(datoms@[j].id),
    ;
}

impl Store for MemStore {
    open spec fn model(&self) -> StoreModel {
        self@
    }

    open spec fn inv(&self) -> bool {
        self.wf()
    }

    fn new() -> (r: Self) {
        MemStore::new()
    }

    fn transact(&mut self, transaction: Transaction) {
        MemStore::transact(self, transaction)
    }

    fn query_datoms(&self, query: &Query) -> (r: Vec<&Datom>) {
        MemStore::query_datoms(self, query)
    }

    fn rebuild_eavt(&mut self, new_datoms: &Vec<Datom>) {
        MemStore::rebuild_eavt(self, new_datoms)
    }

    fn resolve_objects(&self, datoms: Vec<&Datom>) -> (r: Vec<Object>) {
        MemStore::resolve_objects(self, datoms)
    }
}

} // verus!
