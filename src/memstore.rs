//! The in-memory store: the datom log, the entity index and the
//! transaction counter.

use vstd::prelude::*;

use crate::index::{av_attributes_unique, av_map, current_values, index_put, Eavt, IndexModel};
use crate::query::{query_matches, select, Query};
use crate::transaction::{Object, ObjectModel, Transaction};
use crate::types::{AttributeModel, Datom, DatomModel, ValueModel, AV, DBID, ID};

verus! {

/// The mathematical form of a `MemStore`.
pub struct StoreModel {
    pub log: Seq<DatomModel>,
    pub next_tx: nat,
    pub index: IndexModel,
}

/// The models of a list of datoms.
pub open spec fn datom_models(ds: Seq<Datom>) -> Seq<DatomModel> {
    ds.map_values(|d: Datom| d@)
}

/// `m` after writing each datom of `ds` in turn, each overwriting what its
/// (entity, attribute) held.
pub open spec fn apply_datoms(m: IndexModel, ds: Seq<DatomModel>) -> IndexModel
    decreases ds.len(),
{
    if ds.len() == 0 {
        m
    } else {
        let d = ds.last();
        index_put(apply_datoms(m, ds.drop_last()), d.id, d.attribute, d.value, d.tx)
    }
}

/// The datoms that one entity of a transaction yields.
pub open spec fn object_datoms(o: ObjectModel, tx: nat) -> Seq<DatomModel> {
    o.1.map_values(
        |p: (AttributeModel, ValueModel)|
            DatomModel { id: o.0.spec_id(), attribute: p.0, value: p.1, tx: tx },
    )
}

/// The datoms that a transaction yields under id `tx`, in submission order.
pub open spec fn batch_datoms(t: Seq<ObjectModel>, tx: nat) -> Seq<DatomModel>
    decreases t.len(),
{
    if t.len() == 0 {
        Seq::empty()
    } else {
        batch_datoms(t.drop_last(), tx) + object_datoms(t.last(), tx)
    }
}

/// A store with nothing in it.
pub open spec fn empty_store() -> StoreModel {
    StoreModel { log: Seq::empty(), next_tx: 0, index: Map::empty() }
}

/// The store after one `transact` of `t`.
pub open spec fn transact_model(s: StoreModel, t: Seq<ObjectModel>) -> StoreModel {
    let batch = batch_datoms(t, s.next_tx);
    StoreModel {
        log: s.log + batch,
        next_tx: s.next_tx + 1,
        index: apply_datoms(s.index, batch),
    }
}

/// The store after a fresh store has applied the transactions `ts` in order.
pub open spec fn run(ts: Seq<Seq<ObjectModel>>) -> StoreModel
    decreases ts.len(),
{
    if ts.len() == 0 {
        empty_store()
    } else {
        transact_model(run(ts.drop_last()), ts.last())
    }
}

/// The models of a list of datom references.
pub open spec fn datom_ref_models(ds: Seq<&Datom>) -> Seq<DatomModel> {
    ds.map_values(|d: &Datom| d@)
}

/// `o` is entity `id` as the index holds it: its permanent identifier and
/// every attribute the index has for it, each once, with its current value.
pub open spec fn resolves_to(index: IndexModel, o: Object, id: u128) -> bool {
    &&& o.id == ID::DBID(id)
    &&& index.contains_key(id)
    &&& av_attributes_unique(o.a_v@)
    &&& av_map(o.a_v@) == current_values(index[id])
}

/// `o` is, as the index holds it, an entity that one of the first `n`
/// datoms of `ds` names.
pub open spec fn resolves_from(index: IndexModel, o: Object, ds: Seq<&Datom>, n: int) -> bool {
    exists|j: int| 0 <= j < n && #[trigger] resolves_to(index, o, ds[j].id)
}

/// Whether `x` occurs in `v`.
fn contains_id(v: &Vec<DBID>, x: DBID) -> (r: bool)
    ensures
        r == v@.contains(x),
{
    let mut i: usize = 0;
    while i < v.len()
        invariant
            i <= v@.len(),
            forall|j: int| 0 <= j < i ==> v@[j] != x,
        decreases v@.len() - i,
    {
        if v[i] == x {
            return true;
        }
        i += 1;
    }
    false
}

/// An in-memory fact store. The operations that read or write the index
/// ask for `wf`, which `new` establishes and every operation keeps.
#[derive(Debug)]
pub struct MemStore {
    pub datoms: Vec<Datom>,
    pub next_tx: u64,
    pub eavt: Eavt,
}

impl View for MemStore {
    type V = StoreModel;

    open spec fn view(&self) -> StoreModel {
        StoreModel {
            log: datom_models(self.datoms@),
            next_tx: self.next_tx as nat,
            index: self.eavt@,
        }
    }
}

impl MemStore {
    pub open spec fn wf(&self) -> bool {
        self.eavt.wf()
    }

    /// An empty store: no datoms, an empty index, transaction counter 0.
    pub fn new() -> (r: MemStore)
        ensures
            r.wf(),
            r@ == empty_store(),
    {
        let r = MemStore { datoms: Vec::new(), next_tx: 0, eavt: Eavt::new() };
        assert(datom_models(r.datoms@) =~= Seq::empty());
        r
    }

    /// Writes each of `new_datoms` into the index, in order; nothing else
    /// changes, and entries that the batch does not name are kept.
    pub fn rebuild_eavt(&mut self, new_datoms: &Vec<Datom>)
        requires
            old(self).wf(),
        ensures
            final(self).wf(),
            final(self).datoms@ == old(self).datoms@,
            final(self).next_tx == old(self).next_tx,
            final(self).eavt@ == apply_datoms(old(self).eavt@, datom_models(new_datoms@)),
            new_datoms@.len() == 0 ==> final(self).eavt@ == old(self).eavt@,
    {
        let ghost ds = datom_models(new_datoms@);
        let mut i: usize = 0;
        while i < new_datoms.len()
            invariant
                i <= new_datoms@.len(),
                ds == datom_models(new_datoms@),
                self.wf(),
                self.datoms@ == old(self).datoms@,
                self.next_tx == old(self).next_tx,
                self.eavt@ == apply_datoms(old(self).eavt@, ds.take(i as int)),
            decreases new_datoms@.len() - i,
        {
            let datom = &new_datoms[i];
            let attribute = datom.attribute.duplicate();
            let value = datom.value.duplicate();
            self.eavt.put(datom.id, attribute, value, datom.tx);
            assert(ds.take(i + 1).drop_last() =~= ds.take(i as int));
            i += 1;
        }
        assert(ds.take(i as int) =~= ds);
    }

    /// Asserts every attribute/value pair of every entity of `transaction`
    /// under the next transaction id, in submission order, then advances the
    /// counter; an empty transaction still consumes an id. A temporary
    /// identifier is keyed by its own value, as a permanent one is: no fresh
    /// identifier is allocated for it.
    pub fn transact(&mut self, transaction: Transaction)
        requires
            old(self).wf(),
            old(self).next_tx < u64::MAX,
        ensures
            final(self).wf(),
            final(self)@ == transact_model(old(self)@, transaction@),
    {
        let tx = self.next_tx;
        let ghost t = transaction@;
        let mut new_datoms: Vec<Datom> = Vec::new();
        let mut i: usize = 0;
        while i < transaction.elems.len()
            invariant
                i <= transaction.elems@.len(),
                t == transaction@,
                datom_models(new_datoms@) == batch_datoms(t.take(i as int), tx as nat),
            decreases transaction.elems@.len() - i,
        {
            let elem: &Object = &transaction.elems[i];
            let ghost od = object_datoms(elem@, tx as nat);
            let id = elem.id.id();
            let mut j: usize = 0;
            while j < elem.a_v.len()
                invariant
                    j <= elem.a_v@.len(),
                    od == object_datoms(elem@, tx as nat),
                    id == elem.id.spec_id(),
                    datom_models(new_datoms@) == batch_datoms(t.take(i as int), tx as nat) + od.take(
                        j as int,
                    ),
                decreases elem.a_v@.len() - j,
            {
                let av: &AV = &elem.a_v[j];
                let ghost prev = new_datoms@;
                let d = Datom {
                    id,
                    attribute: av.attribute.duplicate(),
                    value: av.value.duplicate(),
                    tx,
                };
                new_datoms.push(d);
                proof {
                    assert(elem@.1[j as int] == (av.attribute@, av.value@));
                    assert(od[j as int] == d@);
                    assert(datom_models(new_datoms@) =~= datom_models(prev).push(d@));
                    assert(od.take(j + 1) =~= od.take(j as int).push(od[j as int]));
                    assert(datom_models(new_datoms@) =~= batch_datoms(t.take(i as int), tx as nat)
                        + od.take(j + 1));
                }
                j += 1;
            }
            proof {
                assert(od.take(j as int) =~= od);
                assert(t.take(i + 1).drop_last() =~= t.take(i as int));
                assert(t.take(i + 1).last() == elem@);
            }
            i += 1;
        }
        assert(t.take(i as int) =~= t);
        let ghost batch = datom_models(new_datoms@);
        self.rebuild_eavt(&new_datoms);
        let ghost before = self.datoms@;
        self.datoms.append(&mut new_datoms);
        assert(datom_models(self.datoms@) =~= datom_models(before) + batch);
        self.next_tx = self.next_tx + 1;
    }

    /// The datoms of the log that every clause of `query` matches, in log
    /// order.
    pub fn query_datoms(&self, query: &Query) -> (r: Vec<&Datom>)
        ensures
            datom_ref_models(r@) == select(self@.log, query@),
    {
        let ghost log = self@.log;
        let ghost pred = |d: DatomModel| query_matches(query@, d);
        let mut r: Vec<&Datom> = Vec::new();
        let mut i: usize = 0;
        while i < self.datoms.len()
            invariant
                i <= self.datoms@.len(),
                log == self@.log,
                pred == (|d: DatomModel| query_matches(query@, d)),
                datom_ref_models(r@) == log.take(i as int).filter(pred),
            decreases self.datoms@.len() - i,
        {
            let d = &self.datoms[i];
            let ghost prev = r@;
            proof {
                reveal(Seq::filter);
                assert(log.take(i + 1).drop_last() =~= log.take(i as int));
                assert(log.take(i + 1).last() == d@);
            }
            if query.matches(d) {
                r.push(d);
                assert(datom_ref_models(r@) =~= datom_ref_models(prev).push(d@));
            }
            i += 1;
        }
        assert(log.take(i as int) =~= log);
        r
    }

    /// One `Object` per distinct entity among `datoms` that the index knows,
    /// each with every attribute the index holds for it; entities the index
    /// does not know are left out. The order of the objects is not promised.
    pub fn resolve_objects(&self, datoms: Vec<&Datom>) -> (r: Vec<Object>)
        requires
            self.wf(),
        ensures
            forall|k: int|
                0 <= k < r@.len() ==> resolves_from(
                    self@.index,
                    #[trigger] r@[k],
                    datoms@,
                    datoms@.len() as int,
                ),
            forall|k1: int, k2: int| 0 <= k1 < k2 < r@.len() ==> r@[k1].id != r@[k2].id,
            forall|j: int|
                0 <= j < datoms@.len() && self@.index.contains_key(#[trigger] datoms@[j].id)
                    ==> exists|k: int| 0 <= k < r@.len() && r@[k].id == ID::DBID(datoms@[j].id),
    {
        let ghost index = self@.index;
        let mut seen: Vec<DBID> = Vec::new();
        let mut r: Vec<Object> = Vec::new();
        let mut i: usize = 0;
        while i < datoms.len()
            invariant
                i <= datoms@.len(),
                index == self@.index,
                self.wf(),
                forall|k: int|
                    0 <= k < r@.len() ==> resolves_from(index, #[trigger] r@[k], datoms@, i as int),
                forall|k1: int, k2: int| 0 <= k1 < k2 < r@.len() ==> r@[k1].id != r@[k2].id,
                forall|k: int| 0 <= k < r@.len() ==> seen@.contains(#[trigger] r@[k].id.spec_id()),
                forall|j: int| 0 <= j < i ==> seen@.contains(#[trigger] datoms@[j].id),
                forall|p: int|
                    0 <= p < seen@.len() && index.contains_key(#[trigger] seen@[p]) ==> exists|k: int|
                        0 <= k < r@.len() && r@[k].id == ID::DBID(seen@[p]),
            decreases datoms@.len() - i,
        {
            let id = datoms[i].id;
            if !contains_id(&seen, id) {
                let ghost old_seen = seen@;
                seen.push(id);
                proof {
                    assert forall|x: DBID| old_seen.contains(x) implies seen@.contains(x) by {
                        let p = choose|p: int| 0 <= p < old_seen.len() && old_seen[p] == x;
                        assert(seen@[p] == x);
                    }
                    assert(seen@[seen@.len() - 1] == id);
                }
                match self.eavt.get(&id) {
                    Some(m) => {
                        let a_v = m.to_avs();
                        let ghost prev = r@;
                        let o = Object { id: ID::DBID(id), a_v };
                        proof {
                            assert(resolves_to(index, o, datoms@[i as int].id));
                        }
                        r.push(o);
                        proof {
                            assert forall|k: int| 0 <= k < r@.len() implies resolves_from(
                                index,
                                #[trigger] r@[k],
                                datoms@,
                                i + 1,
                            ) by {
                                if k < prev.len() {
                                    assert(r@[k] == prev[k]);
                                    assert(resolves_from(index, prev[k], datoms@, i as int));
                                    let j = choose|j: int|
                                        0 <= j < i && #[trigger] resolves_to(
                                            index,
                                            prev[k],
                                            datoms@[j].id,
                                        );
                                    assert(resolves_to(index, r@[k], datoms@[j].id));
                                } else {
                                    assert(resolves_to(index, r@[k], datoms@[i as int].id));
                                }
                            }
                            assert forall|p: int|
                                0 <= p < seen@.len() && index.contains_key(
                                    #[trigger] seen@[p],
                                ) implies exists|k: int|
                                0 <= k < r@.len() && r@[k].id == ID::DBID(seen@[p]) by {
                                if p < seen@.len() - 1 {
                                    assert(seen@[p] == old_seen[p]);
                                    let k = choose|k: int|
                                        0 <= k < prev.len() && prev[k].id == ID::DBID(old_seen[p]);
                                    assert(r@[k] == prev[k]);
                                } else {
                                    assert(r@[prev.len() as int].id == ID::DBID(seen@[p]));
                                }
                            }
                            assert forall|k: int| 0 <= k < r@.len() implies seen@.contains(
                                #[trigger] r@[k].id.spec_id(),
                            ) by {
                                if k < prev.len() {
                                    assert(r@[k] == prev[k]);
                                }
                            }
                        }
                    },
                    None => {
                        proof {
                            assert forall|p: int|
                                0 <= p < seen@.len() && index.contains_key(
                                    #[trigger] seen@[p],
                                ) implies exists|k: int|
                                0 <= k < r@.len() && r@[k].id == ID::DBID(seen@[p]) by {
                                assert(seen@[p] == old_seen[p]);
                            }
                        }
                    },
                }
            }
            i += 1;
        }
        assert forall|j: int|
            0 <= j < datoms@.len() && index.contains_key(#[trigger] datoms@[j].id) implies exists|k: int|
            0 <= k < r@.len() && r@[k].id == ID::DBID(datoms@[j].id) by {
            let p = choose|p: int| 0 <= p < seen@.len() && seen@[p] == datoms@[j].id;
            assert(index.contains_key(seen@[p]));
        }
        r
    }
}


/// Every datom of a batch carries the batch's transaction id.
pub proof fn lemma_batch_tx(t: Seq<ObjectModel>, tx: nat)
    ensures
        forall|i: int| 0 <= i < batch_datoms(t, tx).len() ==> #[trigger] batch_datoms(t, tx)[i].tx == tx,
    decreases t.len(),
{
    if t.len() > 0 {
        lemma_batch_tx(t.drop_last(), tx);
        let b = batch_datoms(t.drop_last(), tx);
        let o = object_datoms(t.last(), tx);
        assert forall|i: int| 0 <= i < batch_datoms(t, tx).len() implies #[trigger] batch_datoms(
            t,
            tx,
        )[i].tx == tx by {
            if i >= b.len() {
                assert(batch_datoms(t, tx)[i] == o[i - b.len()]);
            } else {
                assert(batch_datoms(t, tx)[i] == b[i]);
            }
        }
    }
}

/// After `n` transactions the counter stands at `n`.
pub proof fn lemma_run_next_tx(ts: Seq<Seq<ObjectModel>>)
    ensures
        run(ts).next_tx == ts.len(),
    decreases ts.len(),
{
    if ts.len() > 0 {
        lemma_run_next_tx(ts.drop_last());
    }
}

/// Transaction ids count `transact` calls from 0: the call at position `n`
/// of any sequence, empty transactions included, appends exactly the datoms
/// of its batch, and each of them carries id `n`.
pub proof fn lemma_transaction_ids(ts: Seq<Seq<ObjectModel>>, n: int)
    requires
        0 <= n < ts.len(),
    ensures
        run(ts.take(n)).next_tx == n,
        run(ts.take(n + 1)).next_tx == n + 1,
        run(ts.take(n + 1)).log == run(ts.take(n)).log + batch_datoms(ts[n], n as nat),
        forall|i: int|
            0 <= i < batch_datoms(ts[n], n as nat).len() ==> #[trigger] run(ts.take(n + 1)).log[run(
                ts.take(n),
            ).log.len() + i].tx == n,
{
    lemma_run_next_tx(ts.take(n));
    lemma_run_next_tx(ts.take(n + 1));
    assert(ts.take(n + 1).drop_last() =~= ts.take(n));
    lemma_batch_tx(ts[n], n as nat);
    let before = run(ts.take(n)).log;
    let b = batch_datoms(ts[n], n as nat);
    assert forall|i: int| 0 <= i < b.len() implies #[trigger] run(ts.take(n + 1)).log[before.len()
        + i].tx == n by {
        assert(run(ts.take(n + 1)).log[before.len() + i] == b[i]);
    }
}

/// Writing an empty batch leaves the index as it was.
pub proof fn lemma_rebuild_empty(m: IndexModel)
    ensures
        apply_datoms(m, Seq::empty()) == m,
{
}

/// Writing two batches one after the other is writing their concatenation.
pub proof fn lemma_apply_append(m: IndexModel, xs: Seq<DatomModel>, ys: Seq<DatomModel>)
    ensures
        apply_datoms(m, xs + ys) == apply_datoms(apply_datoms(m, xs), ys),
    decreases ys.len(),
{
    if ys.len() == 0 {
        assert(xs + ys =~= xs);
    } else {
        lemma_apply_append(m, xs, ys.drop_last());
        assert((xs + ys).drop_last() =~= xs + ys.drop_last());
        assert((xs + ys).last() == ys.last());
    }
}

/// After any sequence of transactions the index is the log written in order
/// into an empty index.
pub proof fn lemma_run_index(ts: Seq<Seq<ObjectModel>>)
    ensures
        run(ts).index == apply_datoms(Map::empty(), run(ts).log),
    decreases ts.len(),
{
    if ts.len() > 0 {
        let prev = run(ts.drop_last());
        lemma_run_index(ts.drop_last());
        lemma_apply_append(Map::empty(), prev.log, batch_datoms(ts.last(), prev.next_tx));
    }
}

/// Datom `d` writes attribute `a` of entity `e`.
pub open spec fn writes(d: DatomModel, e: u128, a: AttributeModel) -> bool {
    d.id == e && d.attribute == a
}

/// `i` is the position of the last datom of `log` that writes (e, a).
pub open spec fn is_last_write(
    log: Seq<DatomModel>,
    e: u128,
    a: AttributeModel,
    i: int,
) -> bool {
    &&& 0 <= i < log.len()
    &&& writes(log[i], e, a)
    &&& forall|k: int| i < k < log.len() ==> !writes(#[trigger] log[k], e, a)
}

/// Writing a log into an empty index keeps, for each (entity, attribute),
/// the value and id of the last datom that wrote it, and nothing for a pair
/// that no datom wrote.
pub proof fn lemma_apply_last_write(log: Seq<DatomModel>, e: u128, a: AttributeModel)
    ensures
        ({
            let m = apply_datoms(Map::empty(), log);
            &&& (m.contains_key(e) && m[e].contains_key(a)) <==> exists|i: int|
                0 <= i < log.len() && writes(#[trigger] log[i], e, a)
            &&& forall|i: int| #[trigger]
                is_last_write(log, e, a, i) ==> m[e][a] == (log[i].value, log[i].tx)
        }),
    decreases log.len(),
{
    if log.len() > 0 {
        let dl = log.drop_last();
        let d = log.last();
        lemma_apply_last_write(dl, e, a);
        let m0 = apply_datoms(Map::empty(), dl);
        let m = apply_datoms(Map::empty(), log);
        assert(m == index_put(m0, d.id, d.attribute, d.value, d.tx));
        if writes(d, e, a) {
            assert(writes(log[log.len() - 1], e, a));
            assert forall|i: int| #[trigger] is_last_write(log, e, a, i) implies m[e][a] == (
            log[i].value, log[i].tx) by {
                if i < log.len() - 1 {
                    assert(!writes(log[log.len() - 1], e, a));
                }
            }
        } else {
            assert(m.contains_key(e) && m[e].contains_key(a) <==> m0.contains_key(e)
                && m0[e].contains_key(a));
            if m.contains_key(e) && m[e].contains_key(a) {
                assert(m[e][a] == m0[e][a]);
            }
            if exists|i: int| 0 <= i < log.len() && writes(#[trigger] log[i], e, a) {
                let i = choose|i: int| 0 <= i < log.len() && writes(#[trigger] log[i], e, a);
                assert(i < log.len() - 1);
                assert(writes(dl[i], e, a));
            }
            if exists|i: int| 0 <= i < dl.len() && writes(#[trigger] dl[i], e, a) {
                let i = choose|i: int| 0 <= i < dl.len() && writes(#[trigger] dl[i], e, a);
                assert(writes(log[i], e, a));
            }
            assert forall|i: int| #[trigger] is_last_write(log, e, a, i) implies m[e][a] == (
            log[i].value, log[i].tx) by {
                assert(i < log.len() - 1);
                assert(dl[i] == log[i]);
                assert forall|k: int| i < k < dl.len() implies !writes(#[trigger] dl[k], e, a) by {
                    assert(dl[k] == log[k]);
                }
                assert(is_last_write(dl, e, a, i));
            }
        }
    }
}

/// After any sequence of transactions, the index holds for each (entity,
/// attribute) the value and transaction id of the last datom of the log that
/// wrote that pair, and holds nothing for a pair that no datom wrote.
pub proof fn lemma_index_is_last_write(ts: Seq<Seq<ObjectModel>>, e: u128, a: AttributeModel)
    ensures
        ({
            let s = run(ts);
            &&& (s.index.contains_key(e) && s.index[e].contains_key(a)) <==> exists|i: int|
                0 <= i < s.log.len() && writes(#[trigger] s.log[i], e, a)
            &&& forall|i: int| #[trigger]
                is_last_write(s.log, e, a, i) ==> s.index[e][a] == (s.log[i].value, s.log[i].tx)
        }),
{
    lemma_run_index(ts);
    lemma_apply_last_write(run(ts).log, e, a);
}

} // verus!

