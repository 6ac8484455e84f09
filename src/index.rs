//! The entity index: entity -> attribute -> (latest value, transaction id).

use vstd::prelude::*;

use crate::assoc::{
    assoc_map, keys_unique, lemma_assoc_contains, lemma_assoc_get, lemma_assoc_len,
    lemma_assoc_map_values, lemma_assoc_push, lemma_assoc_update,
};
use crate::types::{av_pairs, Attribute, AttributeModel, Value, ValueModel, AV, DBID, TX};

verus! {

/// What the index holds for one entity.
pub type AttributesModel = Map<AttributeModel, (ValueModel, nat)>;

/// The attribute/value pairs of a list of `AV`s, as a map (a later pair
/// overrides an earlier one).
pub open spec fn av_map(avs: Seq<AV>) -> Map<AttributeModel, ValueModel> {
    assoc_map(av_pairs(avs))
}

/// Index entries without their transaction ids.
pub open spec fn drop_tx(s: Seq<(AttributeModel, (ValueModel, nat))>) -> Seq<
    (AttributeModel, ValueModel),
> {
    s.map_values(|p: (AttributeModel, (ValueModel, nat))| (p.0, p.1.0))
}

/// No attribute occurs twice in a list of `AV`s.
pub open spec fn av_attributes_unique(avs: Seq<AV>) -> bool {
    keys_unique(av_pairs(avs))
}

/// The values of an entity's attributes, without their transaction ids.
pub open spec fn current_values(m: AttributesModel) -> Map<AttributeModel, ValueModel> {
    m.map_values(|p: (ValueModel, nat)| p.0)
}

/// The attributes of one entity, each with its latest value and the
/// transaction that set it.
#[derive(Debug)]
pub struct AttributeMap {
    entries: Vec<(Attribute, (Value, TX))>,
}

impl AttributeMap {
    pub closed spec fn pairs(&self) -> Seq<(AttributeModel, (ValueModel, nat))> {
        self.entries@.map_values(|e: (Attribute, (Value, TX))| (e.0@, (e.1.0@, e.1.1 as nat)))
    }

    pub closed spec fn wf(&self) -> bool {
        keys_unique(self.pairs())
    }

    pub fn new() -> (r: AttributeMap)
        ensures
            r.wf(),
            r@ == Map::<AttributeModel, (ValueModel, nat)>::empty(),
    {
        let r = AttributeMap { entries: Vec::new() };
        assert(r.pairs() =~= Seq::empty());
        r
    }

    pub fn len(&self) -> (r: usize)
        requires
            self.wf(),
        ensures
            r == self@.dom().len(),
    {
        proof {
            lemma_assoc_len(self.pairs());
        }
        self.entries.len()
    }

    pub fn is_empty(&self) -> (r: bool)
        requires
            self.wf(),
        ensures
            r == (self@.dom().len() == 0),
    {
        proof {
            lemma_assoc_len(self.pairs());
        }
        self.entries.len() == 0
    }

    /// Where `a` stands among the entries, if it does.
    fn find(&self, a: &Attribute) -> (r: Option<usize>)
        requires
            self.wf(),
        ensures
            match r {
                Some(i) => i < self.entries@.len() && self.pairs()[i as int].0 == a@,
                None => !self@.contains_key(a@),
            },
    {
        let mut i: usize = 0;
        while i < self.entries.len()
            invariant
                i <= self.entries@.len(),
                forall|j: int| 0 <= j < i ==> self.pairs()[j].0 != a@,
            decreases self.entries@.len() - i,
        {
            if self.entries[i].0 == *a {
                return Some(i);
            }
            i += 1;
        }
        proof {
            lemma_assoc_contains(self.pairs(), a@);
        }
        None
    }

    /// The latest value of `a` and the transaction that set it.
    pub fn get(&self, a: &Attribute) -> (r: Option<&(Value, TX)>)
        requires
            self.wf(),
        ensures
            match r {
                Some(p) => self@.contains_key(a@) && self@[a@] == (p.0@, p.1 as nat),
                None => !self@.contains_key(a@),
            },
    {
        match self.find(a) {
            Some(i) => {
                proof {
                    lemma_assoc_get(self.pairs(), i as int);
                }
                Some(&self.entries[i].1)
            },
            None => None,
        }
    }

    /// Sets `a` to `v`, replacing what it held.
    pub fn insert(&mut self, a: Attribute, v: (Value, TX))
        requires
            old(self).wf(),
        ensures
            final(self).wf(),
            final(self)@ == old(self)@.insert(a@, (v.0@, v.1 as nat)),
    {
        let ghost key = a@;
        let ghost val = (v.0@, v.1 as nat);
        match self.find(&a) {
            Some(i) => {
                proof {
                    lemma_assoc_update(self.pairs(), i as int, val);
                }
                self.entries.set(i, (a, v));
                assert(self.pairs() =~= old(self).pairs().update(i as int, (key, val)));
            },
            None => {
                proof {
                    lemma_assoc_contains(self.pairs(), key);
                    lemma_assoc_push(self.pairs(), key, val);
                }
                self.entries.push((a, v));
                assert(self.pairs() =~= old(self).pairs().push((key, val)));
            },
        }
    }

    /// Every attribute with its current value, one `AV` each.
    pub fn to_avs(&self) -> (r: Vec<AV>)
        requires
            self.wf(),
        ensures
            av_attributes_unique(r@),
            av_map(r@) == current_values(self@),
    {
        let mut r: Vec<AV> = Vec::new();
        let mut i: usize = 0;
        while i < self.entries.len()
            invariant
                i <= self.entries@.len(),
                self.wf(),
                r@.len() == i,
                av_pairs(r@) =~= drop_tx(self.pairs().take(i as int)),
            decreases self.entries@.len() - i,
        {
            let e = &self.entries[i];
            let ghost prev = r@;
            r.push(AV { attribute: e.0.duplicate(), value: e.1.0.duplicate() });
            assert(av_pairs(r@) =~= av_pairs(prev).push(
                (self.pairs()[i as int].0, self.pairs()[i as int].1.0),
            ));
            assert(self.pairs().take(i + 1) =~= self.pairs().take(i as int).push(
                self.pairs()[i as int],
            ));
            i += 1;
        }
        proof {
            let f = |p: (ValueModel, nat)| p.0;
            assert(self.pairs().take(i as int) =~= self.pairs());
            lemma_assoc_map_values(self.pairs(), f);
            assert(self.pairs().map_values(
                |p: (AttributeModel, (ValueModel, nat))| (p.0, f(p.1)),
            ) =~= drop_tx(self.pairs()));
            assert(current_values(self@) =~= self@.map_values(f));
            assert forall|a: int, b: int| 0 <= a < b < av_pairs(r@).len() implies av_pairs(
                r@,
            )[a].0 != av_pairs(r@)[b].0 by {
                assert(self.pairs()[a].0 != self.pairs()[b].0);
            }
        }
        r
    }
}

impl View for AttributeMap {
    type V = AttributesModel;

    closed spec fn view(&self) -> AttributesModel {
        assoc_map(self.pairs())
    }
}

/// What the whole index holds: per entity, its attributes.
pub type IndexModel = Map<u128, AttributesModel>;

/// `m` after setting attribute `a` of entity `id` to `(v, tx)`; the entity's
/// other attributes and all other entities are kept.
pub open spec fn index_put(m: IndexModel, id: u128, a: AttributeModel, v: ValueModel, tx: nat) -> IndexModel {
    let attrs = if m.contains_key(id) {
        m[id]
    } else {
        Map::empty()
    };
    m.insert(id, attrs.insert(a, (v, tx)))
}

/// The entity index: for each entity, its attributes with their latest value
/// and the transaction that set it.
#[derive(Debug)]
pub struct Eavt {
    entries: Vec<(DBID, AttributeMap)>,
}

impl View for Eavt {
    type V = IndexModel;

    closed spec fn view(&self) -> IndexModel {
        assoc_map(self.pairs())
    }
}

impl Eavt {
    pub closed spec fn pairs(&self) -> Seq<(u128, AttributesModel)> {
        self.entries@.map_values(|e: (DBID, AttributeMap)| (e.0, e.1@))
    }

    pub closed spec fn wf(&self) -> bool {
        &&& keys_unique(self.pairs())
        &&& forall|i: int| 0 <= i < self.entries@.len() ==> (#[trigger] self.entries@[i]).1.wf()
    }

    pub fn new() -> (r: Eavt)
        ensures
            r.wf(),
            r@ == IndexModel::empty(),
    {
        let r = Eavt { entries: Vec::new() };
        assert(r.pairs() =~= Seq::empty());
        r
    }

    pub fn is_empty(&self) -> (r: bool)
        requires
            self.wf(),
        ensures
            r == (self@.dom().len() == 0),
    {
        proof {
            lemma_assoc_len(self.pairs());
        }
        self.entries.len() == 0
    }

    /// Where entity `id` stands among the entries, if it does.
    fn find(&self, id: DBID) -> (r: Option<usize>)
        requires
            self.wf(),
        ensures
            match r {
                Some(i) => i < self.entries@.len() && self.entries@[i as int].0 == id,
                None => !self@.contains_key(id),
            },
    {
        let mut i: usize = 0;
        while i < self.entries.len()
            invariant
                i <= self.entries@.len(),
                forall|j: int| 0 <= j < i ==> self.pairs()[j].0 != id,
            decreases self.entries@.len() - i,
        {
            if self.entries[i].0 == id {
                return Some(i);
            }
            i += 1;
        }
        proof {
            lemma_assoc_contains(self.pairs(), id);
        }
        None
    }

    /// The attributes of entity `id`, if the index has any.
    pub fn get(&self, id: &DBID) -> (r: Option<&AttributeMap>)
        requires
            self.wf(),
        ensures
            match r {
                Some(m) => self@.contains_key(*id) && self@[*id] == m@ && m.wf(),
                None => !self@.contains_key(*id),
            },
    {
        match self.find(*id) {
            Some(i) => {
                proof {
                    lemma_assoc_get(self.pairs(), i as int);
                }
                Some(&self.entries[i].1)
            },
            None => None,
        }
    }

    /// Sets attribute `a` of entity `id` to `(v, tx)`, whatever it held.
    pub fn put(&mut self, id: DBID, a: Attribute, v: Value, tx: TX)
        requires
            old(self).wf(),
        ensures
            final(self).wf(),
            final(self)@ == index_put(old(self)@, id, a@, v@, tx as nat),
    {
        let ghost am = a@;
        let ghost vm = (v@, tx as nat);
        match self.find(id) {
            Some(i) => {
                proof {
                    lemma_assoc_get(self.pairs(), i as int);
                }
                let ghost before = self.entries@[i as int].1@;
                self.entries[i].1.insert(a, (v, tx));
                proof {
                    lemma_assoc_update(old(self).pairs(), i as int, before.insert(am, vm));
                    assert(self.pairs() =~= old(self).pairs().update(
                        i as int,
                        (id, before.insert(am, vm)),
                    ));
                    assert forall|j: int| 0 <= j < self.entries@.len() implies (
                    #[trigger] self.entries@[j]).1.wf() by {
                        if j != i {
                            assert(self.entries@[j] == old(self).entries@[j]);
                        }
                    }
                }
            },
            None => {
                let mut m = AttributeMap::new();
                m.insert(a, (v, tx));
                proof {
                    lemma_assoc_contains(self.pairs(), id);
                    lemma_assoc_push(self.pairs(), id, m@);
                }
                self.entries.push((id, m));
                assert(self.pairs() =~= old(self).pairs().push((id, m@)));
                assert(self@ =~= index_put(old(self)@, id, am, vm.0, vm.1));
            },
        }
    }
}

} // verus!
