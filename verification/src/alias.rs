use vstd::prelude::*;

use crate::error::WoolError;
use crate::strings::{char_is_white_space, chars_of, no_white_space};

verus! {

/// A name under which a thesis can be referred to: one or more characters, none of them
/// white space.
#[derive(Debug, PartialEq, Eq)]
pub struct Alias(pub String);

impl View for Alias {
    type V = Seq<char>;

    open spec fn view(&self) -> Seq<char> {
        self.0@
    }
}

pub open spec fn alias_valid(a: Seq<char>) -> bool {
    a.len() > 0 && no_white_space(a)
}

/// Whether `s` is one or more characters, none of them white space.
pub fn is_non_white_space_run(s: &str) -> (r: bool)
    ensures
        r == alias_valid(s@),
{
    let v = chars_of(s);
    if v.len() == 0 {
        return false;
    }
    let mut i: usize = 0;
    while i < v.len()
        invariant
            v@ == s@,
            i <= v@.len(),
            forall|j: int| 0 <= j < i ==> !crate::strings::is_white_space(#[trigger] v@[j]),
        decreases v@.len() - i,
    {
        if char_is_white_space(v[i]) {
            return false;
        }
        i = i + 1;
    }
    true
}

impl Clone for Alias {
    fn clone(&self) -> (r: Self)
        ensures
            r == *self,
    {
        Alias(self.0.clone())
    }
}

impl Alias {
    pub fn validated(&self) -> (r: Result<&Self, WoolError>)
        ensures
            r is Ok <==> alias_valid(self@),
            r matches Ok(a) ==> a == self,
            r matches Err(e) ==> e is InvalidAlias,
    {
        if is_non_white_space_run(self.0.as_str()) {
            Ok(self)
        } else {
            Err(WoolError::InvalidAlias(self.0.clone()))
        }
    }
}

} // verus!
