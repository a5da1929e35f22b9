use vstd::prelude::*;

use crate::alias::{alias_valid, Alias};
use crate::document_id::{id_from_text, DocumentId};
use crate::error::WoolError;

verus! {

/// How a command or a text points at a thesis: by its identifier or by an alias.
#[derive(Debug, PartialEq, Eq)]
pub enum Reference {
    Alias(Alias),
    DocumentId(DocumentId),
}

pub enum ReferenceView {
    Alias(Seq<char>),
    DocumentId(Seq<u8>),
}

impl View for Reference {
    type V = ReferenceView;

    open spec fn view(&self) -> ReferenceView {
        match self {
            Reference::Alias(a) => ReferenceView::Alias(a@),
            Reference::DocumentId(id) => ReferenceView::DocumentId(id@),
        }
    }
}

/// What `Reference::new` reads from its input: an identifier when the input is the written
/// form of one, else an alias.
pub open spec fn reference_of(input: Seq<char>) -> ReferenceView {
    match id_from_text(input) {
        Some(id) => ReferenceView::DocumentId(id),
        None => ReferenceView::Alias(input),
    }
}

/// The input reads as a reference: the written form of an identifier, or a valid alias.
pub open spec fn reference_readable(input: Seq<char>) -> bool {
    id_from_text(input) is Some || alias_valid(input)
}

impl Reference {
    /// Reads an identifier, or else an alias, which must be valid.
    pub fn new(input: &str) -> (r: Result<Self, WoolError>)
        ensures
            r is Ok <==> (id_from_text(input@) is Some || alias_valid(input@)),
            r matches Ok(reference) ==> reference@ == reference_of(input@),
            r matches Err(e) ==> e is InvalidAlias,
    {
        if let Some(document_id) = DocumentId::from_string(input) {
            Ok(Reference::DocumentId(document_id))
        } else {
            let alias = Alias(input.to_owned());
            alias.validated()?;
            Ok(Reference::Alias(alias))
        }
    }
}

} // verus!

verus! {

/// The written form of an identifier is read as that identifier.
pub proof fn lemma_reference_of_id_text(id: Seq<u8>)
    requires
        id.len() == 16,
    ensures
        reference_of(crate::document_id::id_text(id)) == ReferenceView::DocumentId(id),
{
    crate::document_id::lemma_id_text_roundtrip(id);
}

} // verus!
