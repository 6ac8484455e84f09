//! Conjunctive equality queries over datoms.

use vstd::prelude::*;

use crate::types::{Attribute, AttributeModel, Datom, DatomModel, Value, ValueModel};

verus! {

/// The mathematical form of a `WhereClause`.
pub type ClauseModel = (AttributeModel, Option<ValueModel>);

/// A clause matches a datom when it names the datom's attribute and requires
/// the datom's value. A clause that requires no value matches nothing.
pub open spec fn clause_matches(c: ClauseModel, d: DatomModel) -> bool {
    c.0 == d.attribute && c.1 == Some(d.value)
}

/// Every clause of the conjunction matches the datom.
pub open spec fn query_matches(q: Seq<ClauseModel>, d: DatomModel) -> bool {
    forall|i: int| 0 <= i < q.len() ==> clause_matches(#[trigger] q[i], d)
}

/// The datoms of `log` that a query with clauses `q` selects, in log order.
pub open spec fn select(log: Seq<DatomModel>, q: Seq<ClauseModel>) -> Seq<DatomModel> {
    log.filter(|d: DatomModel| query_matches(q, d))
}

/// One equality constraint: an attribute and, optionally, the value it must
/// hold.
#[derive(Debug, Clone)]
pub struct WhereClause {
    pub attribute: Attribute,
    pub value: Option<Value>,
}

impl View for WhereClause {
    type V = ClauseModel;

    open spec fn view(&self) -> ClauseModel {
        (
            self.attribute@,
            match self.value {
                Some(v) => Some(v@),
                None => None,
            },
        )
    }
}

impl WhereClause {
    pub fn match_datom(&self, datom: &Datom) -> (r: bool)
        ensures
            r == clause_matches(self@, datom@),
    {
        if self.attribute == datom.attribute {
            if let Some(ref val) = self.value {
                *val == datom.value
            } else {
                false
            }
        } else {
            false
        }
    }
}

impl PartialEq for WhereClause {
    fn eq(&self, other: &WhereClause) -> (r: bool) {
        if self.attribute == other.attribute {
            match (&self.value, &other.value) {
                (Some(a), Some(b)) => *a == *b,
                (None, None) => true,
                _ => false,
            }
        } else {
            false
        }
    }
}

impl vstd::std_specs::cmp::PartialEqSpecImpl for WhereClause {
    open spec fn obeys_eq_spec() -> bool {
        true
    }

    open spec fn eq_spec(&self, other: &WhereClause) -> bool {
        self@ == other@
    }
}

/// A conjunction of where-clauses.
#[derive(Debug)]
pub struct Query {
    pub conjunction: Vec<WhereClause>,
}

impl View for Query {
    type V = Seq<ClauseModel>;

    open spec fn view(&self) -> Seq<ClauseModel> {
        self.conjunction@.map_values(|c: WhereClause| c@)
    }
}

impl Query {
    /// Whether every clause matches `datom`; true for an empty conjunction.
    pub fn matches(&self, datom: &Datom) -> (r: bool)
        ensures
            r == query_matches(self@, datom@),
    {
        let mut i: usize = 0;
        while i < self.conjunction.len()
            invariant
                i <= self.conjunction@.len(),
                forall|j: int| 0 <= j < i ==> clause_matches(#[trigger] self@[j], datom@),
            decreases self.conjunction@.len() - i,
        {
            if !self.conjunction[i].match_datom(datom) {
                assert(!clause_matches(self@[i as int], datom@));
                return false;
            }
            i += 1;
        }
        true
    }
}


/// A query with no clauses selects the whole log, in log order.
pub proof fn lemma_empty_query_selects_all(log: Seq<DatomModel>)
    ensures
        select(log, Seq::empty()) == log,
    decreases log.len(),
{
    reveal(Seq::filter);
    if log.len() > 0 {
        lemma_empty_query_selects_all(log.drop_last());
        assert(query_matches(Seq::empty(), log.last()));
        assert(log.drop_last().push(log.last()) =~= log);
    }
}

/// A query of one clause naming attribute `a` and value `v` selects exactly
/// the datoms of the log with that attribute and that value, whatever their
/// entity, in log order.
pub proof fn lemma_single_clause_selects(log: Seq<DatomModel>, a: AttributeModel, v: ValueModel)
    ensures
        select(log, seq![(a, Some(v))]) == log.filter(
            |d: DatomModel| d.attribute == a && d.value == v,
        ),
    decreases log.len(),
{
    reveal(Seq::filter);
    if log.len() > 0 {
        lemma_single_clause_selects(log.drop_last(), a, v);
        let d = log.last();
        let q = seq![(a, Some(v))];
        assert(q[0] == (a, Some(v)));
        assert(query_matches(q, d) <==> (d.attribute == a && d.value == v));
    }
}

} // verus!

