use vstd::prelude::*;

use crate::document_id::{id_text, DocumentId};
use crate::error::WoolError;
use crate::patterns::{is_letter, CharClass, LETTER_PATTERN};
use crate::strings::{char_is_white_space, chars_of, is_white_space, push_char, push_str};

verus! {

/// One piece of a text: a word of letters, a reference to another thesis, or anything else
/// (spaces, punctuation).
#[derive(Debug, PartialEq, Eq)]
pub enum Entity {
    Word(String),
    Reference(DocumentId),
    Other(String),
}

pub enum EntityView {
    Word(Seq<char>),
    Reference(Seq<u8>),
    Other(Seq<char>),
}

impl View for Entity {
    type V = EntityView;

    open spec fn view(&self) -> EntityView {
        match self {
            Entity::Word(w) => EntityView::Word(w@),
            Entity::Reference(id) => EntityView::Reference(id@),
            Entity::Other(o) => EntityView::Other(o@),
        }
    }
}

/// The content of a text thesis: raw text with references to other theses inserted in it.
#[derive(Debug, PartialEq, Eq)]
pub struct Text {
    pub entities: Vec<Entity>,
}

impl View for Text {
    type V = Seq<EntityView>;

    open spec fn view(&self) -> Seq<EntityView> {
        self.entities@.map_values(|e: Entity| e@)
    }
}

/// How one entity is written when references are written as `[label]`.
pub open spec fn labelled_piece(e: EntityView, label: Seq<char>) -> Seq<char> {
    match e {
        EntityView::Word(w) => w,
        EntityView::Other(o) => o,
        EntityView::Reference(_) => seq!['['] + label + seq![']'],
    }
}

/// A text written with the `i`-th entity, when a reference, written as `[labels[i]]`.
pub open spec fn labelled_text(t: Seq<EntityView>, labels: Seq<Seq<char>>) -> Seq<char>
    decreases t.len(),
{
    if t.len() == 0 {
        seq![]
    } else {
        labelled_text(t.drop_last(), labels) + labelled_piece(t.last(), labels[t.len() - 1])
    }
}

/// How one entity is written with references written as their identifiers.
pub open spec fn raw_piece(e: EntityView) -> Seq<char> {
    match e {
        EntityView::Reference(id) => seq!['['] + id_text(id) + seq![']'],
        _ => labelled_piece(e, seq![]),
    }
}

/// A text written with every reference written as `[identifier]`.
pub open spec fn raw_text(t: Seq<EntityView>) -> Seq<char>
    decreases t.len(),
{
    if t.len() == 0 {
        seq![]
    } else {
        raw_text(t.drop_last()) + raw_piece(t.last())
    }
}

/// Every word of the text is one or more Cyrillic or Latin letters.
pub open spec fn word_valid(w: Seq<char>) -> bool {
    w.len() > 0 && forall|i: int| 0 <= i < w.len() ==> is_letter(#[trigger] w[i])
}

/// A punctuation mark that raw text may hold: `,` `-` `:` `.` `'` `"`.
pub open spec fn is_text_mark(c: char) -> bool {
    c == ',' || c == '-' || c == ':' || c == '.' || c == '\'' || c == '"'
}

/// Between words, raw text holds only white space and the marks `,-:.'"`.
pub open spec fn other_valid(o: Seq<char>) -> bool {
    forall|i: int| 0 <= i < o.len() ==> (is_white_space(#[trigger] o[i]) || is_text_mark(o[i]))
}

/// Every word is one or more Cyrillic or Latin letters, and every other run is white space
/// and punctuation marks.
pub open spec fn text_valid(t: Seq<EntityView>) -> bool {
    forall|i: int|
        0 <= i < t.len() ==> match #[trigger] t[i] {
            EntityView::Word(w) => word_valid(w),
            EntityView::Other(o) => other_valid(o),
            EntityView::Reference(_) => true,
        }
}

/// Whether `s` is white space and the marks `,-:.'"` only.
pub fn is_other_valid(s: &str) -> (r: bool)
    ensures
        r == other_valid(s@),
{
    let v = chars_of(s);
    let mut i: usize = 0;
    while i < v.len()
        invariant
            v@ == s@,
            i <= v@.len(),
            forall|j: int| 0 <= j < i ==> (is_white_space(#[trigger] v@[j]) || is_text_mark(v@[j])),
        decreases v@.len() - i,
    {
        let c = v[i];
        if !(char_is_white_space(c) || c == ',' || c == '-' || c == ':' || c == '.' || c == '\'' || c == '"') {
            return false;
        }
        i = i + 1;
    }
    true
}

/// The labels `labels` are what `f` answered, with success, for the references of `t`, and
/// `s` is `t` written with them.
pub open spec fn composed_with<F: Fn(&DocumentId) -> Result<String, WoolError>>(
    t: Seq<Entity>,
    f: F,
    labels: Seq<String>,
    s: Seq<char>,
) -> bool {
    &&& labels.len() == t.len()
    &&& forall|i: int|
        0 <= i < t.len() ==> (#[trigger] t[i] matches Entity::Reference(id) ==> call_ensures(
            f,
            (&id,),
            Ok(labels[i]),
        ))
    &&& s == labelled_text(
        t.map_values(|e: Entity| e@),
        labels.map_values(|l: String| l@),
    )
}

/// A text written with labels that agree with the identifiers on every reference is the raw text.
pub proof fn lemma_labelled_raw(t: Seq<EntityView>, labels: Seq<Seq<char>>)
    requires
        labels.len() >= t.len(),
        forall|i: int|
            0 <= i < t.len() ==> (#[trigger] t[i] matches EntityView::Reference(id) ==> labels[i]
                == id_text(id)),
    ensures
        labelled_text(t, labels) == raw_text(t),
    decreases t.len(),
{
    if t.len() > 0 {
        lemma_labelled_raw(t.drop_last(), labels);
        let e = t[t.len() - 1];
        match e {
            EntityView::Word(w) => {},
            EntityView::Other(o) => {},
            EntityView::Reference(id) => {},
        }
    }
}

impl Clone for Entity {
    fn clone(&self) -> (r: Self)
        ensures
            r == *self,
    {
        match self {
            Entity::Word(w) => Entity::Word(w.clone()),
            Entity::Reference(id) => Entity::Reference(*id),
            Entity::Other(o) => Entity::Other(o.clone()),
        }
    }
}

impl Clone for Text {
    fn clone(&self) -> (r: Self)
        ensures
            r@ == self@,
    {
        let mut entities: Vec<Entity> = Vec::new();
        let mut i: usize = 0;
        while i < self.entities.len()
            invariant
                i <= self.entities@.len(),
                entities@ == self.entities@.take(i as int),
            decreases self.entities@.len() - i,
        {
            entities.push(self.entities[i].clone());
            assert(self.entities@.take(i + 1) =~= self.entities@.take(i as int).push(self.entities@[i as int]));
            i = i + 1;
        }
        assert(self.entities@.take(i as int) =~= self.entities@);
        Text { entities }
    }
}

/// Every reference before the `i`-th entity was labelled by `f` with success.
pub open spec fn first_failure<F: Fn(&DocumentId) -> Result<String, WoolError>>(
    entities: Seq<Entity>,
    f: F,
    i: int,
) -> bool {
    forall|j: int|
        0 <= j < i ==> (#[trigger] entities[j] matches Entity::Reference(id) ==> exists|l: String|
            call_ensures(f, (&id,), Ok(l)))
}

impl Text {
    /// Writes the text with each reference written as `[f(reference)]`; the first error of
    /// `f` is the result.
    pub fn composed<F: Fn(&DocumentId) -> Result<String, WoolError>>(&self, format_reference: F) -> (r: Result<String, WoolError>)
        requires
            forall|id: &DocumentId| #[trigger] format_reference.requires((id,)),
        ensures
            r matches Ok(s) ==> exists|labels: Seq<String>| #[trigger] composed_with(self.entities@, format_reference, labels, s@),
            r matches Err(e) ==> exists|i: int| 0 <= i < self.entities@.len() && (#[trigger] self.entities@[i] matches Entity::Reference(id) && call_ensures(format_reference, (&id,), Err(e)))
                && first_failure(self.entities@, format_reference, i),
    {
        let mut result = String::new();
        let ghost mut labels: Seq<String> = seq![];
        let n = self.entities.len();
        let mut i: usize = 0;
        while i < n
            invariant
                n == self.entities@.len(),
                i <= n,
                labels.len() == i,
                forall|id: &DocumentId| #[trigger] format_reference.requires((id,)),
                forall|j: int|
                    0 <= j < i ==> (#[trigger] self.entities@[j] matches Entity::Reference(id) ==> call_ensures(
                        format_reference,
                        (&id,),
                        Ok(labels[j]),
                    )),
                result@ == labelled_text(
                    self.entities@.take(i as int).map_values(|e: Entity| e@),
                    labels.map_values(|l: String| l@),
                ),
            decreases n - i,
        {
            let ghost old_labels = labels;
            match &self.entities[i] {
                Entity::Word(word) => {
                    push_str(&mut result, word.as_str());
                    proof {
                        labels = labels.push(*word);
                    }
                },
                Entity::Other(other) => {
                    push_str(&mut result, other.as_str());
                    proof {
                        labels = labels.push(*other);
                    }
                },
                Entity::Reference(thesis_id) => {
                    let label = format_reference(thesis_id);
                    match label {
                        Ok(label) => {
                            push_char(&mut result, '[');
                            push_str(&mut result, label.as_str());
                            push_char(&mut result, ']');
                            proof {
                                labels = labels.push(label);
                            }
                        },
                        Err(e) => {
                            return Err(e);
                        },
                    }
                },
            }
            proof {
                let t1 = self.entities@.take(i + 1).map_values(|e: Entity| e@);
                let t0 = self.entities@.take(i as int).map_values(|e: Entity| e@);
                assert(t1.drop_last() =~= t0);
                let l1 = labels.map_values(|l: String| l@);
                let l0 = old_labels.map_values(|l: String| l@);
                lemma_labelled_prefix(t0, l0, l1);
                assert(labelled_text(t1, l1) == labelled_text(t0, l1) + labelled_piece(t1.last(), l1[i as int]));
            }
            i = i + 1;
        }
        assert(self.entities@.take(n as int) =~= self.entities@);
        assert(composed_with(self.entities@, format_reference, labels, result@));
        let r = Ok(result);
        assert(r matches Ok(s) && composed_with(self.entities@, format_reference, labels, s@));
        r
    }

    /// The text written with every reference written as `[identifier]`.
    pub fn composed_raw(&self) -> (s: String)
        ensures
            s@ == raw_text(self@),
    {
        let format_id = |thesis_id: &DocumentId| -> (r: Result<String, WoolError>)
            ensures
                r matches Ok(s) && s@ == id_text(thesis_id@),
            { Ok(thesis_id.to_string()) };
        let r = self.composed(format_id);
        match r {
            Ok(s) => {
                proof {
                    let labels = choose|labels: Seq<String>| #[trigger] composed_with(self.entities@, format_id, labels, s@);
                    let t = self.entities@.map_values(|e: Entity| e@);
                    let ls = labels.map_values(|l: String| l@);
                    assert forall|i: int| 0 <= i < t.len() implies (#[trigger] t[i] matches EntityView::Reference(id) ==> ls[i] == id_text(id)) by {
                        if let Entity::Reference(id) = self.entities@[i] {
                            assert(call_ensures(format_id, (&id,), Ok(labels[i])));
                        }
                    }
                    lemma_labelled_raw(t, ls);
                }
                s
            },
            Err(e) => {
                proof {
                    let i = choose|i: int| 0 <= i < self.entities@.len() && (#[trigger] self.entities@[i] matches Entity::Reference(id) && call_ensures(format_id, (&id,), Err(e)));
                }
                String::new()
            },
        }
    }

    /// Checks that every word is one or more Cyrillic or Latin letters, and every other run
    /// white space and the marks `,-:.'"`.
    pub fn validated(&self) -> (r: Result<&Self, WoolError>)
        ensures
            r is Ok <==> text_valid(self@),
            r matches Ok(t) ==> t == self,
            r matches Err(e) ==> e is InvalidWord,
    {
        let letters = CharClass::letters();
        let n = self.entities.len();
        let mut i: usize = 0;
        while i < n
            invariant
                n == self.entities@.len(),
                i <= n,
                letters.wf(),
                letters.pattern() == LETTER_PATTERN@,
                forall|j: int|
                    0 <= j < i ==> match #[trigger] self@[j] {
                        EntityView::Word(w) => word_valid(w),
                        EntityView::Other(o) => other_valid(o),
                        EntityView::Reference(_) => true,
                    },
            decreases n - i,
        {
            assert(self@[i as int] == self.entities@[i as int]@);
            match &self.entities[i] {
                Entity::Word(word) => {
                    if !is_word(word.as_str(), &letters) {
                        return Err(WoolError::InvalidWord(word.clone()));
                    }
                },
                Entity::Reference(_) => {},
                Entity::Other(other) => {
                    if !is_other_valid(other.as_str()) {
                        return Err(WoolError::InvalidWord(other.clone()));
                    }
                },
            }
            i = i + 1;
        }
        Ok(self)
    }
}

/// A prefix of the entities written with labels only depends on the labels of that prefix.
pub proof fn lemma_labelled_prefix(t: Seq<EntityView>, l0: Seq<Seq<char>>, l1: Seq<Seq<char>>)
    requires
        l0.len() >= t.len(),
        l1.len() >= t.len(),
        forall|i: int| 0 <= i < t.len() ==> l0[i] == l1[i],
    ensures
        labelled_text(t, l0) == labelled_text(t, l1),
    decreases t.len(),
{
    if t.len() > 0 {
        lemma_labelled_prefix(t.drop_last(), l0, l1);
    }
}

/// Whether `s` is one or more Cyrillic or Latin letters.
pub fn is_word(s: &str, letters: &CharClass) -> (r: bool)
    requires
        letters.wf(),
        letters.pattern() == LETTER_PATTERN@,
    ensures
        r == word_valid(s@),
{
    let v = chars_of(s);
    if v.len() == 0 {
        return false;
    }
    let mut i: usize = 0;
    while i < v.len()
        invariant
            v@ == s@,
            letters.wf(),
            letters.pattern() == LETTER_PATTERN@,
            i <= v@.len(),
            forall|j: int| 0 <= j < i ==> is_letter(#[trigger] v@[j]),
        decreases v@.len() - i,
    {
        if !letters.contains(v[i]) {
            return false;
        }
        i = i + 1;
    }
    true
}


/// Writing two runs of entities one after the other, each with its own labels, is writing
/// each and joining the two.
pub proof fn lemma_labelled_concat(a: Seq<EntityView>, b: Seq<EntityView>, la: Seq<Seq<char>>, lb: Seq<Seq<char>>)
    requires
        la.len() == a.len(),
        lb.len() == b.len(),
    ensures
        labelled_text(a + b, la + lb) == labelled_text(a, la) + labelled_text(b, lb),
    decreases b.len(),
{
    if b.len() == 0 {
        assert(a + b =~= a);
        lemma_labelled_prefix(a, la + lb, la);
    } else {
        lemma_labelled_concat(a, b.drop_last(), la, lb.drop_last());
        assert((a + b).drop_last() =~= a + b.drop_last());
        lemma_labelled_prefix(a + b.drop_last(), la + lb, la + lb.drop_last());
        lemma_labelled_prefix(b.drop_last(), lb, lb.drop_last());
        assert((la + lb)[(a + b).len() - 1] == lb[b.len() - 1]);
        assert((a + b).last() == b.last());
        assert(labelled_text(a + b, la + lb) == labelled_text((a + b).drop_last(), la + lb) + labelled_piece(
            (a + b).last(),
            (la + lb)[(a + b).len() - 1],
        ));
        assert(labelled_text(b, lb) == labelled_text(b.drop_last(), lb) + labelled_piece(b.last(), lb[b.len() - 1]));
    }
}

/// A text made of two texts' entities is written, through the same labelling function, as
/// the two writings joined.
pub proof fn lemma_composed_concat<F: Fn(&DocumentId) -> Result<String, WoolError>>(
    t1: Seq<Entity>,
    t2: Seq<Entity>,
    f: F,
    l1: Seq<String>,
    l2: Seq<String>,
    s1: Seq<char>,
    s2: Seq<char>,
)
    requires
        composed_with(t1, f, l1, s1),
        composed_with(t2, f, l2, s2),
    ensures
        composed_with(t1 + t2, f, l1 + l2, s1 + s2),
{
    let v = |e: Entity| e@;
    let w = |l: String| l@;
    assert((t1 + t2).map_values(v) =~= t1.map_values(v) + t2.map_values(v));
    assert((l1 + l2).map_values(w) =~= l1.map_values(w) + l2.map_values(w));
    lemma_labelled_concat(t1.map_values(v), t2.map_values(v), l1.map_values(w), l2.map_values(w));
    assert forall|i: int| 0 <= i < (t1 + t2).len() implies (#[trigger] (t1 + t2)[i] matches Entity::Reference(id)
        ==> call_ensures(f, (&id,), Ok((l1 + l2)[i]))) by {
        if i < t1.len() {
            assert((t1 + t2)[i] == t1[i]);
            assert((l1 + l2)[i] == l1[i]);
        } else {
            assert((t1 + t2)[i] == t2[i - t1.len()]);
            assert((l1 + l2)[i] == l2[i - t1.len()]);
        }
    }
}

} // verus!
