use vstd::prelude::*;

use crate::document_id::DocumentId;
use crate::error::WoolError;
use crate::relation_kind::{relation_kind_valid, RelationKind};

verus! {

/// A relation of some kind from one thesis to another.
#[derive(Debug, PartialEq, Eq)]
pub struct Relation {
    pub from: DocumentId,
    pub to: DocumentId,
    pub kind: RelationKind,
}

pub struct RelationView {
    pub from: Seq<u8>,
    pub to: Seq<u8>,
    pub kind: Seq<char>,
}

impl View for Relation {
    type V = RelationView;

    open spec fn view(&self) -> RelationView {
        RelationView { from: self.from@, to: self.to@, kind: self.kind@ }
    }
}

impl Clone for Relation {
    fn clone(&self) -> (r: Self)
        ensures
            r == *self,
    {
        Relation { from: self.from, to: self.to, kind: self.kind.clone() }
    }
}

pub open spec fn relation_valid(r: RelationView) -> bool {
    relation_kind_valid(r.kind)
}

impl Relation {
    pub fn validated(&self) -> (r: Result<&Self, WoolError>)
        ensures
            r is Ok <==> relation_valid(self@),
            r matches Ok(x) ==> x == self,
            r matches Err(e) ==> e is InvalidRelationKind,
    {
        self.kind.validated()?;
        Ok(self)
    }
}

} // verus!
