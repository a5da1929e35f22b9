use vstd::prelude::*;

use crate::error::WoolError;
use crate::strings::chars_of;

verus! {

/// The kind of a relation between two theses: English words without punctuation,
/// such as `may be` or `therefore`.
#[derive(Debug, PartialEq, Eq)]
pub struct RelationKind(pub String);

impl View for RelationKind {
    type V = Seq<char>;

    open spec fn view(&self) -> Seq<char> {
        self.0@
    }
}

/// A character of an English words sequence: an English letter, a digit, `_` or a space.
pub open spec fn is_kind_char(c: char) -> bool {
    ('a' <= c && c <= 'z') || ('A' <= c && c <= 'Z') || ('0' <= c && c <= '9') || c == '_' || c
        == ' '
}

/// One or more English letters, digits, `_` and spaces.
pub open spec fn relation_kind_valid(k: Seq<char>) -> bool {
    k.len() > 0 && forall|i: int| 0 <= i < k.len() ==> is_kind_char(#[trigger] k[i])
}

impl Clone for RelationKind {
    fn clone(&self) -> (r: Self)
        ensures
            r == *self,
    {
        RelationKind(self.0.clone())
    }
}

impl RelationKind {
    /// Checks that the kind is an English words sequence without punctuation.
    pub fn validated(&self) -> (r: Result<&Self, WoolError>)
        ensures
            r is Ok <==> relation_kind_valid(self@),
            r matches Ok(k) ==> k == self,
            r matches Err(e) ==> e is InvalidRelationKind,
    {
        let v = chars_of(self.0.as_str());
        if v.len() == 0 {
            return Err(WoolError::InvalidRelationKind(self.0.clone()));
        }
        let mut i: usize = 0;
        while i < v.len()
            invariant
                v@ == self@,
                i <= v@.len(),
                forall|j: int| 0 <= j < i ==> is_kind_char(#[trigger] v@[j]),
            decreases v@.len() - i,
        {
            let c = v[i];
            if !(('a' <= c && c <= 'z') || ('A' <= c && c <= 'Z') || ('0' <= c && c <= '9') || c == '_'
                || c == ' ') {
                return Err(WoolError::InvalidRelationKind(self.0.clone()));
            }
            i = i + 1;
        }
        Ok(self)
    }
}

} // verus!
