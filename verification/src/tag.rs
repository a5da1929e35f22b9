use vstd::prelude::*;

use crate::error::WoolError;
use crate::patterns::{is_word_char, CharClass, WORD_CHAR_PATTERN};
use crate::strings::chars_of;

verus! {

/// A label attached to theses: one or more word characters.
#[derive(Debug, PartialEq, Eq)]
pub struct Tag(pub String);

impl View for Tag {
    type V = Seq<char>;

    open spec fn view(&self) -> Seq<char> {
        self.0@
    }
}

pub open spec fn tag_valid(t: Seq<char>) -> bool {
    t.len() > 0 && forall|i: int| 0 <= i < t.len() ==> is_word_char(#[trigger] t[i])
}

impl Clone for Tag {
    fn clone(&self) -> (r: Self)
        ensures
            r == *self,
    {
        Tag(self.0.clone())
    }
}

impl Tag {
    pub fn validated(&self) -> (r: Result<&Self, WoolError>)
        ensures
            r is Ok <==> tag_valid(self@),
            r matches Ok(t) ==> t == self,
            r matches Err(e) ==> e is InvalidTag,
    {
        let v = chars_of(self.0.as_str());
        if v.len() == 0 {
            return Err(WoolError::InvalidTag(self.0.clone()));
        }
        let word_chars = CharClass::word_chars();
        let mut i: usize = 0;
        while i < v.len()
            invariant
                v@ == self@,
                word_chars.wf(),
                word_chars.pattern() == WORD_CHAR_PATTERN@,
                i <= v@.len(),
                forall|j: int| 0 <= j < i ==> is_word_char(#[trigger] v@[j]),
            decreases v@.len() - i,
        {
            if !word_chars.contains(v[i]) {
                return Err(WoolError::InvalidTag(self.0.clone()));
            }
            i = i + 1;
        }
        Ok(self)
    }
}

} // verus!
