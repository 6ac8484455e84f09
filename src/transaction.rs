//! What a transaction submits, and what resolution hands back.

use vstd::prelude::*;

use crate::types::{av_pairs, AttributeModel, ValueModel, AV, ID};

verus! {

/// The mathematical form of an `Object`: its identifier and its
/// attribute/value pairs.
pub type ObjectModel = (ID, Seq<(AttributeModel, ValueModel)>);

/// An entity with attribute/value pairs.
#[derive(Debug)]
pub struct Object {
    pub id: ID,
    pub a_v: Vec<AV>,
}

impl View for Object {
    type V = ObjectModel;

    open spec fn view(&self) -> ObjectModel {
        (self.id, av_pairs(self.a_v@))
    }
}

/// An ordered batch of entities to assert.
pub struct Transaction {
    pub elems: Vec<Object>,
}

impl View for Transaction {
    type V = Seq<ObjectModel>;

    open spec fn view(&self) -> Seq<ObjectModel> {
        self.elems@.map_values(|o: Object| o@)
    }
}

} // verus!
