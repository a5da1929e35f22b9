use vstd::prelude::*;

use crate::alias::Alias;
use crate::backup::{contains_id, theses_view};
use crate::command::tags_view;
use crate::content::{Content, ContentView};
use crate::document_id::DocumentId;
use crate::error::WoolError;
use crate::relation_kind::RelationKind;
use crate::strings::same_chars;
use crate::tag::Tag;
use crate::thesis::{clone_alias, content_references, ids_view, Thesis, ThesisView};
use crate::transaction::{
    alias_in, exactly_stored_ids, lists_stored, refers_to, stored_value, tagged, tagged_in_order, ReadTransactionMethods,
};
use crate::write::{first_position, relation_with_end, with_alias, with_tags, WriteTransactionMethods};

verus! {

/// The theses of a list of entries, by identifier.
pub open spec fn entries_map(s: Seq<(DocumentId, Thesis)>) -> Map<Seq<u8>, ThesisView> {
    Map::new(
        |k: Seq<u8>| exists|i: int| 0 <= i < s.len() && (#[trigger] s[i]).0@ == k,
        |k: Seq<u8>| s[choose|i: int| 0 <= i < s.len() && (#[trigger] s[i]).0@ == k].1@,
    )
}

/// No identifier stands twice among the entries.
pub open spec fn distinct_ids(s: Seq<(DocumentId, Thesis)>) -> bool {
    forall|i: int, j: int| 0 <= i < s.len() && 0 <= j < s.len() && i != j ==> (#[trigger] s[i]).0@ != (#[trigger] s[j]).0@
}

proof fn lemma_entry(s: Seq<(DocumentId, Thesis)>, i: int)
    requires
        distinct_ids(s),
        0 <= i < s.len(),
    ensures
        entries_map(s).contains_key(s[i].0@),
        entries_map(s)[s[i].0@] == s[i].1@,
{
    let k = s[i].0@;
    assert(exists|j: int| 0 <= j < s.len() && (#[trigger] s[j]).0@ == k);
    let c = choose|j: int| 0 <= j < s.len() && (#[trigger] s[j]).0@ == k;
    if c != i {
        assert(s[c].0@ != s[i].0@);
    }
}

proof fn lemma_stored_entry(s: Seq<(DocumentId, Thesis)>, k: Seq<u8>) -> (i: int)
    requires
        distinct_ids(s),
        entries_map(s).contains_key(k),
    ensures
        0 <= i < s.len(),
        s[i].0@ == k,
        entries_map(s)[k] == s[i].1@,
{
    let i = choose|j: int| 0 <= j < s.len() && (#[trigger] s[j]).0@ == k;
    lemma_entry(s, i);
    i
}

proof fn lemma_update(s: Seq<(DocumentId, Thesis)>, i: int, e: (DocumentId, Thesis))
    requires
        distinct_ids(s),
        0 <= i < s.len(),
        e.0@ == s[i].0@,
    ensures
        distinct_ids(s.update(i, e)),
        entries_map(s.update(i, e)) == entries_map(s).insert(e.0@, e.1@),
{
    let s2 = s.update(i, e);
    assert forall|a: int, b: int| 0 <= a < s2.len() && 0 <= b < s2.len() && a != b implies (#[trigger] s2[a]).0@
        != (#[trigger] s2[b]).0@ by {
        assert(s2[a].0@ == s[a].0@);
        assert(s2[b].0@ == s[b].0@);
    }
    assert forall|k: Seq<u8>| #[trigger] entries_map(s2).contains_key(k) == entries_map(s).insert(e.0@, e.1@).contains_key(k) by {
        if entries_map(s2).contains_key(k) {
            let j = choose|j: int| 0 <= j < s2.len() && (#[trigger] s2[j]).0@ == k;
            assert(s[j].0@ == k);
        }
        if entries_map(s).contains_key(k) {
            let j = choose|j: int| 0 <= j < s.len() && (#[trigger] s[j]).0@ == k;
            assert(s2[j].0@ == k);
        }
        if k == e.0@ {
            assert(s2[i].0@ == k);
        }
    }
    assert forall|k: Seq<u8>| #[trigger] entries_map(s2).contains_key(k) implies entries_map(s2)[k] == entries_map(s).insert(
        e.0@,
        e.1@,
    )[k] by {
        let j = lemma_stored_entry(s2, k);
        if j == i {
        } else {
            lemma_entry(s, j);
        }
    }
    assert(entries_map(s2) =~= entries_map(s).insert(e.0@, e.1@));
}

proof fn lemma_push(s: Seq<(DocumentId, Thesis)>, e: (DocumentId, Thesis))
    requires
        distinct_ids(s),
        forall|j: int| 0 <= j < s.len() ==> (#[trigger] s[j]).0@ != e.0@,
    ensures
        distinct_ids(s.push(e)),
        entries_map(s.push(e)) == entries_map(s).insert(e.0@, e.1@),
{
    let s2 = s.push(e);
    let n = s.len() as int;
    assert forall|a: int, b: int| 0 <= a < s2.len() && 0 <= b < s2.len() && a != b implies (#[trigger] s2[a]).0@
        != (#[trigger] s2[b]).0@ by {
        if a < n && b < n {
            assert(s2[a] == s[a] && s2[b] == s[b]);
        } else if a < n {
            assert(s2[a] == s[a]);
        } else {
            assert(s2[b] == s[b]);
        }
    }
    assert forall|k: Seq<u8>| #[trigger] entries_map(s2).contains_key(k) == entries_map(s).insert(e.0@, e.1@).contains_key(k) by {
        if entries_map(s2).contains_key(k) {
            let j = choose|j: int| 0 <= j < s2.len() && (#[trigger] s2[j]).0@ == k;
            if j < n {
                assert(s[j] == s2[j]);
            }
        }
        if entries_map(s).contains_key(k) {
            let j = choose|j: int| 0 <= j < s.len() && (#[trigger] s[j]).0@ == k;
            assert(s2[j] == s[j]);
        }
        if k == e.0@ {
            assert(s2[n].0@ == k);
        }
    }
    assert forall|k: Seq<u8>| #[trigger] entries_map(s2).contains_key(k) implies entries_map(s2)[k] == entries_map(s).insert(
        e.0@,
        e.1@,
    )[k] by {
        let j = lemma_stored_entry(s2, k);
        if j < n {
            assert(s2[j] == s[j]);
            lemma_entry(s, j);
        }
    }
    assert(entries_map(s2) =~= entries_map(s).insert(e.0@, e.1@));
}

proof fn lemma_remove(s: Seq<(DocumentId, Thesis)>, i: int)
    requires
        distinct_ids(s),
        0 <= i < s.len(),
    ensures
        distinct_ids(s.remove(i)),
        entries_map(s.remove(i)) == entries_map(s).remove(s[i].0@),
{
    let s2 = s.remove(i);
    let k0 = s[i].0@;
    assert forall|j: int| 0 <= j < s2.len() implies #[trigger] s2[j] == (if j < i { s[j] } else { s[j + 1] }) by {}
    assert forall|a: int, b: int| 0 <= a < s2.len() && 0 <= b < s2.len() && a != b implies (#[trigger] s2[a]).0@
        != (#[trigger] s2[b]).0@ by {
        let a1 = if a < i { a } else { a + 1 };
        let b1 = if b < i { b } else { b + 1 };
        assert(s2[a] == s[a1] && s2[b] == s[b1]);
        assert(s[a1].0@ != s[b1].0@);
    }
    assert forall|k: Seq<u8>| #[trigger] entries_map(s2).contains_key(k) == entries_map(s).remove(k0).contains_key(k) by {
        if entries_map(s2).contains_key(k) {
            let j = choose|j: int| 0 <= j < s2.len() && (#[trigger] s2[j]).0@ == k;
            let j1 = if j < i { j } else { j + 1 };
            assert(s[j1].0@ == k);
            assert(s[j1].0@ != s[i].0@);
        }
        if entries_map(s).contains_key(k) && k != k0 {
            let j = choose|j: int| 0 <= j < s.len() && (#[trigger] s[j]).0@ == k;
            assert(j != i);
            let j2 = if j < i { j } else { j - 1 };
            assert(s2[j2] == s[j]);
        }
    }
    assert forall|k: Seq<u8>| #[trigger] entries_map(s2).contains_key(k) implies entries_map(s2)[k] == entries_map(s).remove(
        k0,
    )[k] by {
        let j = lemma_stored_entry(s2, k);
        let j1 = if j < i { j } else { j + 1 };
        assert(s2[j] == s[j1]);
        lemma_entry(s, j1);
    }
    assert(entries_map(s2) =~= entries_map(s).remove(k0));
}

/// Whether the tag is among `tags`.
pub fn tag_in(tags: &Vec<Tag>, tag: &Tag) -> (r: bool)
    ensures
        r == tags_view(tags@).contains(tag@),
{
    let mut i: usize = 0;
    while i < tags.len()
        invariant
            i <= tags@.len(),
            forall|j: int| 0 <= j < i ==> (#[trigger] tags@[j])@ != tag@,
        decreases tags@.len() - i,
    {
        if same_chars(tags[i].0.as_str(), tag.0.as_str()) {
            assert(tags_view(tags@)[i as int] == tag@);
            return true;
        }
        i = i + 1;
    }
    assert forall|j: int| 0 <= j < tags_view(tags@).len() implies tags_view(tags@)[j] != tag@ by {
        assert(tags_view(tags@)[j] == tags@[j]@);
    }
    false
}

/// Whether the thesis's tags hold every one of `present` and none of `absent`.
fn tagged_as(tags: &Vec<Tag>, present: &Vec<Tag>, absent: &Vec<Tag>) -> (r: bool)
    ensures
        r == ((forall|i: int| 0 <= i < present@.len() ==> tags_view(tags@).contains(#[trigger] tags_view(present@)[i]))
            && (forall|i: int| 0 <= i < absent@.len() ==> !tags_view(tags@).contains(#[trigger] tags_view(absent@)[i]))),
{
    let mut i: usize = 0;
    while i < present.len()
        invariant
            i <= present@.len(),
            forall|j: int| 0 <= j < i ==> tags_view(tags@).contains(#[trigger] tags_view(present@)[j]),
        decreases present@.len() - i,
    {
        if !tag_in(tags, &present[i]) {
            assert(tags_view(present@)[i as int] == present@[i as int]@);
            assert(!tags_view(tags@).contains(tags_view(present@)[i as int]));
            return false;
        }
        i = i + 1;
    }
    let mut j: usize = 0;
    while j < absent.len()
        invariant
            j <= absent@.len(),
            forall|m: int| 0 <= m < present@.len() ==> tags_view(tags@).contains(#[trigger] tags_view(present@)[m]),
            forall|m: int| 0 <= m < j ==> !tags_view(tags@).contains(#[trigger] tags_view(absent@)[m]),
        decreases absent@.len() - j,
    {
        if tag_in(tags, &absent[j]) {
            assert(tags_view(absent@)[j as int] == absent@[j as int]@);
            assert(tags_view(tags@).contains(tags_view(absent@)[j as int]));
            return false;
        }
        j = j + 1;
    }
    true
}

proof fn lemma_first_position_prefix(ts: Seq<Seq<char>>, n: int, x: Seq<char>)
    requires
        0 <= n <= ts.len(),
        first_position(ts.take(n), x) is Some,
    ensures
        first_position(ts, x) == first_position(ts.take(n), x),
    decreases ts.len(),
{
    if n < ts.len() {
        assert(ts.drop_last().take(n) =~= ts.take(n));
        lemma_first_position_prefix(ts.drop_last(), n, x);
    } else {
        assert(ts.take(n) =~= ts);
    }
}

/// A store of theses held in memory: a list of entries, each a thesis under its identifier,
/// and the relation kinds it accepts.
pub struct MemoryStore {
    theses: Vec<(DocumentId, Thesis)>,
    kinds: Vec<RelationKind>,
}

impl MemoryStore {
    #[verifier::type_invariant]
    spec fn ids_distinct(self) -> bool {
        distinct_ids(self.theses@)
    }

    /// An empty store that accepts these relation kinds.
    pub fn new(kinds: Vec<RelationKind>) -> (r: Self)
        ensures
            r.stored() == Map::<Seq<u8>, ThesisView>::empty(),
            r.supported_kinds() == kinds@,
    {
        let r = MemoryStore { theses: Vec::new(), kinds };
        assert(entries_map(r.theses@) =~= Map::<Seq<u8>, ThesisView>::empty());
        r
    }

    /// Where the thesis with this identifier stands among the entries.
    fn position(&self, id: &DocumentId) -> (r: Option<usize>)
        ensures
            match r {
                Some(i) => i < self.theses@.len() && self.theses@[i as int].0@ == id@,
                None => forall|j: int| 0 <= j < self.theses@.len() ==> (#[trigger] self.theses@[j]).0@ != id@,
            },
    {
        let mut i: usize = 0;
        while i < self.theses.len()
            invariant
                i <= self.theses@.len(),
                forall|j: int| 0 <= j < i ==> (#[trigger] self.theses@[j]).0@ != id@,
            decreases self.theses@.len() - i,
        {
            if self.theses[i].0.same_as(id) {
                return Some(i);
            }
            i = i + 1;
        }
        None
    }

    /// The order lists each stored identifier once, the identifier of each entry in turn.
    proof fn lemma_order(&self)
        requires
            distinct_ids(self.theses@),
        ensures
            self.order().no_duplicates(),
            self.order().len() == self.theses@.len(),
            forall|m: int| 0 <= m < self.theses@.len() ==> #[trigger] self.order()[m] == self.theses@[m].0@,
            forall|k: Seq<u8>|
                #![trigger self.order().contains(k)]
                #![trigger self.stored().contains_key(k)]
                self.stored().contains_key(k) <==> self.order().contains(k),
    {
        let o = self.order();
        assert forall|x: int, y: int| 0 <= x < o.len() && 0 <= y < o.len() && x != y implies o[x] != o[y] by {
            assert(self.theses@[x].0@ != self.theses@[y].0@);
        }
        assert forall|k: Seq<u8>|
            #![trigger o.contains(k)]
            #![trigger self.stored().contains_key(k)]
            self.stored().contains_key(k) <==> o.contains(k) by {
            if self.stored().contains_key(k) {
                let m = lemma_stored_entry(self.theses@, k);
                assert(o[m] == k);
            }
            if o.contains(k) {
                let m = choose|m: int| 0 <= m < o.len() && o[m] == k;
                lemma_entry(self.theses@, m);
            }
        }
    }

    /// Puts `entry` in place of the entry at `i`, which has the same identifier.
    fn replace_entry(&mut self, i: usize, entry: (DocumentId, Thesis))
        requires
            i < old(self).theses@.len(),
            entry.0@ == old(self).theses@[i as int].0@,
        ensures
            final(self).stored() == old(self).stored().insert(entry.0@, entry.1@),
            final(self).supported_kinds() == old(self).supported_kinds(),
    {
        proof {
            use_type_invariant(&*self);
            lemma_update(self.theses@, i as int, entry);
        }
        let mut theses: Vec<(DocumentId, Thesis)> = Vec::new();
        std::mem::swap(&mut theses, &mut self.theses);
        theses.set(i, entry);
        self.theses = theses;
    }
}

impl ReadTransactionMethods for MemoryStore {
    closed spec fn stored(&self) -> Map<Seq<u8>, ThesisView> {
        entries_map(self.theses@)
    }

    closed spec fn supported_kinds(&self) -> Seq<RelationKind> {
        self.kinds@
    }

    open spec fn reliable(&self) -> bool {
        true
    }

    closed spec fn order(&self) -> Seq<Seq<u8>> {
        self.theses@.map_values(|e: (DocumentId, Thesis)| e.0@)
    }

    fn get_thesis(&self, thesis_id: &DocumentId) -> (r: Result<Option<Thesis>, WoolError>) {
        proof {
            use_type_invariant(self);
        }
        match self.position(thesis_id) {
            Some(i) => {
                proof {
                    lemma_entry(self.theses@, i as int);
                }
                Ok(Some(self.theses[i].1.clone()))
            },
            None => Ok(None),
        }
    }

    fn iter_theses_ids_by_tags(
        &self,
        present_tags: &Vec<Tag>,
        absent_tags: &Vec<Tag>,
        start_after_thesis_id: Option<DocumentId>,
    ) -> (r: Result<Vec<DocumentId>, WoolError>) {
        proof {
            use_type_invariant(self);
        }
        let mut started = start_after_thesis_id.is_none();
        let mut ids: Vec<DocumentId> = Vec::new();
        let mut i: usize = 0;
        let ghost o = self.order();
        let ghost st = self.stored();
        let ghost pv = tags_view(present_tags@);
        let ghost av = tags_view(absent_tags@);
        let ghost mut begin: int = 0;
        assert(o.subrange(0, 0) =~= Seq::<Seq<u8>>::empty());
        while i < self.theses.len()
            invariant
                i <= self.theses@.len(),
                distinct_ids(self.theses@),
                o == self.order(),
                st == self.stored(),
                pv == tags_view(present_tags@),
                av == tags_view(absent_tags@),
                o.len() == self.theses@.len(),
                forall|m: int| 0 <= m < o.len() ==> #[trigger] o[m] == self.theses@[m].0@,
                started ==> 0 <= begin <= i && ids_view(ids@) == tagged_in_order(o.subrange(begin, i as int), st, pv, av),
                start_after_thesis_id is None ==> begin == 0,
                start_after_thesis_id matches Some(s) ==> (started ==> 1 <= begin && o[begin - 1] == s@),
                start_after_thesis_id matches Some(s) ==> (!started ==> forall|m: int| 0 <= m < i ==> o[m] != s@),
                !started ==> ids@.len() == 0,
                forall|m: int| 0 <= m < ids@.len() ==> self.stored().contains_key(#[trigger] ids@[m]@) && tagged(
                    self.stored()[ids@[m]@],
                    tags_view(present_tags@),
                    tags_view(absent_tags@),
                ),
                start_after_thesis_id is None ==> started,
                forall|n: int| 0 <= n < ids@.len() ==> exists|m: int| 0 <= m < i && #[trigger] ids@[n]@ == self.theses@[m].0@,
                ids_view(ids@).no_duplicates(),
                start_after_thesis_id is None ==> forall|m: int|
                    0 <= m < i && tagged(#[trigger] self.theses@[m].1@, tags_view(present_tags@), tags_view(absent_tags@))
                        ==> exists|n: int| 0 <= n < ids@.len() && ids@[n]@ == self.theses@[m].0@,
            decreases self.theses@.len() - i,
        {
            proof {
                lemma_entry(self.theses@, i as int);
                assert(o[i as int] == self.theses@[i as int].0@);
                if started {
                    let sub = o.subrange(begin, i + 1);
                    assert(sub.drop_last() =~= o.subrange(begin, i as int));
                    assert(sub.last() == o[i as int]);
                }
            }
            if !started {
                if let Some(start) = &start_after_thesis_id {
                    started = self.theses[i].0.same_as(start);
                    proof {
                        if started {
                            begin = i + 1;
                            assert(o.subrange(begin, i + 1) =~= Seq::<Seq<u8>>::empty());
                        }
                    }
                }
            } else if tagged_as(&self.theses[i].1.tags, present_tags, absent_tags) {
                let ghost before = ids@;
                ids.push(self.theses[i].0);
                assert(ids_view(ids@) =~= ids_view(before).push(o[i as int]));
                assert forall|n: int| 0 <= n < ids@.len() implies exists|m: int| 0 <= m < i + 1 && #[trigger] ids@[n]@ == self.theses@[m].0@ by {
                    if n < before.len() {
                        assert(ids@[n] == before[n]);
                    } else {
                        assert(ids@[n] == self.theses@[i as int].0);
                    }
                }
                assert(ids_view(ids@).no_duplicates()) by {
                    let v = ids_view(ids@);
                    assert forall|x: int, y: int| 0 <= x < v.len() && 0 <= y < v.len() && x != y implies v[x] != v[y] by {
                        if x == before.len() && y < before.len() {
                            assert(v[y] == before[y]@);
                            let m = choose|m: int| 0 <= m < i && #[trigger] before[y]@ == self.theses@[m].0@;
                            assert(self.theses@[m].0@ != self.theses@[i as int].0@);
                        } else if y == before.len() && x < before.len() {
                            assert(v[x] == before[x]@);
                            let m = choose|m: int| 0 <= m < i && #[trigger] before[x]@ == self.theses@[m].0@;
                            assert(self.theses@[m].0@ != self.theses@[i as int].0@);
                        } else if x < before.len() && y < before.len() {
                            assert(v[x] == ids_view(before)[x] && v[y] == ids_view(before)[y]);
                        }
                    }
                }
                assert forall|m: int| 0 <= m < ids@.len() implies self.stored().contains_key(#[trigger] ids@[m]@) && tagged(
                    self.stored()[ids@[m]@],
                    tags_view(present_tags@),
                    tags_view(absent_tags@),
                ) by {
                    if m < before.len() {
                        assert(ids@[m] == before[m]);
                    }
                }
                proof {
                    if start_after_thesis_id is None {
                        assert forall|m: int|
                            0 <= m < i + 1 && tagged(
                                #[trigger] self.theses@[m].1@,
                                tags_view(present_tags@),
                                tags_view(absent_tags@),
                            ) implies exists|n: int| 0 <= n < ids@.len() && ids@[n]@ == self.theses@[m].0@ by {
                            if m < i {
                                let n = choose|n: int| 0 <= n < before.len() && before[n]@ == self.theses@[m].0@;
                                assert(ids@[n] == before[n]);
                            } else {
                                assert(ids@[before.len() as int] == self.theses@[m].0);
                            }
                        }
                    }
                }
            } else {
                assert(!tagged(self.theses@[i as int].1@, tags_view(present_tags@), tags_view(absent_tags@)));
            }
            i = i + 1;
        }
        proof {
            self.lemma_order();
            match start_after_thesis_id {
                None => {
                    assert(o.subrange(0, i as int) =~= o);
                },
                Some(s) => {
                    assert forall|p: int| 0 <= p < o.len() && o[p] == s@ implies ids_view(ids@) == tagged_in_order(
                        #[trigger] o.skip(p + 1),
                        st,
                        pv,
                        av,
                    ) by {
                        assert(started);
                        if begin - 1 != p {
                            assert(self.theses@[begin - 1].0@ != self.theses@[p].0@);
                        }
                        assert(o.subrange(begin, i as int) =~= o.skip(p + 1));
                    }
                },
            }
        }
        proof {
            if start_after_thesis_id is None {
                assert forall|k: Seq<u8>| #[trigger] self.stored().contains_key(k) && tagged(
                    self.stored()[k],
                    tags_view(present_tags@),
                    tags_view(absent_tags@),
                ) implies exists|n: int| 0 <= n < ids@.len() && ids@[n]@ == k by {
                    let m = lemma_stored_entry(self.theses@, k);
                    assert(tagged(self.theses@[m].1@, tags_view(present_tags@), tags_view(absent_tags@)));
                }
            }
        }
        Ok(ids)
    }

    fn get_thesis_id_by_alias(&self, alias: &Alias) -> (r: Result<Option<DocumentId>, WoolError>) {
        proof {
            use_type_invariant(self);
        }
        let mut i: usize = 0;
        while i < self.theses.len()
            invariant
                i <= self.theses@.len(),
                distinct_ids(self.theses@),
                forall|j: int| 0 <= j < i ==> (#[trigger] self.theses@[j]).1@.alias != Some(alias@),
            decreases self.theses@.len() - i,
        {
            if let Some(a) = &self.theses[i].1.alias {
                if same_chars(a.0.as_str(), alias.0.as_str()) {
                    proof {
                        lemma_entry(self.theses@, i as int);
                    }
                    return Ok(Some(self.theses[i].0));
                }
            }
            i = i + 1;
        }
        assert forall|k: Seq<u8>| #[trigger] self.stored().contains_key(k) implies self.stored()[k].alias != Some(alias@) by {
            let j = lemma_stored_entry(self.theses@, k);
        }
        Ok(None)
    }

    fn get_alias_by_thesis_id(&self, thesis_id: &DocumentId) -> (r: Result<Option<Alias>, WoolError>) {
        proof {
            use_type_invariant(self);
        }
        match self.position(thesis_id) {
            Some(i) => {
                proof {
                    lemma_entry(self.theses@, i as int);
                }
                Ok(clone_alias(&self.theses[i].1.alias))
            },
            None => Ok(None),
        }
    }

    fn where_referenced(&self, thesis_id: &DocumentId) -> (r: Result<Vec<DocumentId>, WoolError>) {
        proof {
            use_type_invariant(self);
        }
        let ghost p = |t: ThesisView| refers_to(t, thesis_id@);
        let mut ids: Vec<DocumentId> = Vec::new();
        let mut i: usize = 0;
        while i < self.theses.len()
            invariant
                i <= self.theses@.len(),
                distinct_ids(self.theses@),
                p == |t: ThesisView| refers_to(t, thesis_id@),
                forall|m: int| 0 <= m < ids@.len() ==> self.stored().contains_key(#[trigger] ids@[m]@) && p(self.stored()[ids@[m]@]),
                forall|j: int| 0 <= j < i && p((#[trigger] self.theses@[j]).1@) ==> exists|m: int| 0 <= m < ids@.len() && ids@[m]@ == self.theses@[j].0@,
            decreases self.theses@.len() - i,
        {
            let refs = self.theses[i].1.references();
            proof {
                lemma_entry(self.theses@, i as int);
            }
            if contains_id(&refs, thesis_id) {
                let ghost before = ids@;
                proof {
                    let j = choose|j: int| 0 <= j < refs@.len() && (#[trigger] refs@[j])@ == thesis_id@;
                    assert(ids_view(refs@)[j] == thesis_id@);
                }
                ids.push(self.theses[i].0);
                assert forall|m: int| 0 <= m < ids@.len() implies self.stored().contains_key(#[trigger] ids@[m]@) && p(self.stored()[ids@[m]@]) by {
                    if m < before.len() {
                        assert(ids@[m] == before[m]);
                    }
                }
                assert forall|j: int| 0 <= j < i + 1 && p((#[trigger] self.theses@[j]).1@) implies exists|m: int|
                    0 <= m < ids@.len() && ids@[m]@ == self.theses@[j].0@ by {
                    if j < i {
                        let m = choose|m: int| 0 <= m < before.len() && before[m]@ == self.theses@[j].0@;
                        assert(ids@[m] == before[m]);
                    } else {
                        assert(ids@[before.len() as int] == self.theses@[i as int].0);
                    }
                }
            } else {
                proof {
                    if p(self.theses@[i as int].1@) {
                        let j = choose|j: int| 0 <= j < ids_view(refs@).len() && ids_view(refs@)[j] == thesis_id@;
                        assert(refs@[j]@ == thesis_id@);
                    }
                }
            }
            i = i + 1;
        }
        assert forall|k: Seq<u8>| #[trigger] self.stored().contains_key(k) && p(self.stored()[k]) implies exists|m: int|
            0 <= m < ids@.len() && ids@[m]@ == k by {
            let j = lemma_stored_entry(self.theses@, k);
        }
        Ok(ids)
    }

    fn iter_theses(&self) -> (r: Result<Vec<Thesis>, WoolError>) {
        proof {
            use_type_invariant(self);
        }
        let mut all: Vec<Thesis> = Vec::new();
        let mut i: usize = 0;
        while i < self.theses.len()
            invariant
                i <= self.theses@.len(),
                distinct_ids(self.theses@),
                all@.len() == i,
                forall|j: int| 0 <= j < i ==> (#[trigger] all@[j])@ == self.theses@[j].1@,
            decreases self.theses@.len() - i,
        {
            all.push(self.theses[i].1.clone());
            i = i + 1;
        }
        assert forall|j: int| 0 <= j < theses_view(all@).len() implies #[trigger] stored_value(self.stored(), theses_view(all@)[j]) by {
            lemma_entry(self.theses@, j);
            assert(theses_view(all@)[j] == all@[j]@);
            let k = self.theses@[j].0@;
            assert(self.stored().contains_key(k) && self.stored()[k] == theses_view(all@)[j]);
        }
        assert forall|k: Seq<u8>| #[trigger] self.stored().contains_key(k) implies theses_view(all@).contains(self.stored()[k]) by {
            let j = lemma_stored_entry(self.theses@, k);
            assert(theses_view(all@)[j] == all@[j]@);
            assert(theses_view(all@)[j] == self.stored()[k]);
        }
        proof {
            self.lemma_order();
            assert forall|j: int| 0 <= j < all@.len() implies (#[trigger] all@[j])@ == self.stored()[self.order()[j]] by {
                lemma_entry(self.theses@, j);
            }
        }
        Ok(all)
    }

    fn supported_relations_kinds(&self) -> (r: Vec<RelationKind>) {
        let mut kinds: Vec<RelationKind> = Vec::new();
        let mut i: usize = 0;
        while i < self.kinds.len()
            invariant
                i <= self.kinds@.len(),
                kinds@ == self.kinds@.take(i as int),
            decreases self.kinds@.len() - i,
        {
            kinds.push(self.kinds[i].clone());
            assert(self.kinds@.take(i + 1) =~= self.kinds@.take(i as int).push(self.kinds@[i as int]));
            i = i + 1;
        }
        assert(self.kinds@.take(i as int) =~= self.kinds@);
        kinds
    }
}

impl WriteTransactionMethods for MemoryStore {
    fn contains_thesis(&self, thesis_id: &DocumentId) -> (r: Result<bool, WoolError>) {
        proof {
            use_type_invariant(self);
        }
        match self.position(thesis_id) {
            Some(i) => {
                proof {
                    lemma_entry(self.theses@, i as int);
                }
                Ok(true)
            },
            None => Ok(false),
        }
    }

    fn put_thesis(&mut self, thesis_id: DocumentId, thesis: Thesis) -> (r: Result<(), WoolError>) {
        proof {
            use_type_invariant(&*self);
        }
        match self.position(&thesis_id) {
            Some(i) => {
                self.replace_entry(i, (thesis_id, thesis));
            },
            None => {
                proof {
                    lemma_push(self.theses@, (thesis_id, thesis));
                }
                let mut theses: Vec<(DocumentId, Thesis)> = Vec::new();
                std::mem::swap(&mut theses, &mut self.theses);
                theses.push((thesis_id, thesis));
                self.theses = theses;
            },
        }
        Ok(())
    }

    fn has_tag(&self, thesis_id: &DocumentId, tag: &Tag) -> (r: Result<bool, WoolError>) {
        proof {
            use_type_invariant(self);
        }
        match self.position(thesis_id) {
            Some(i) => {
                proof {
                    lemma_entry(self.theses@, i as int);
                }
                Ok(tag_in(&self.theses[i].1.tags, tag))
            },
            None => Ok(false),
        }
    }

    fn push_tags(&mut self, thesis_id: &DocumentId, tags: Vec<Tag>) -> (r: Result<(), WoolError>) {
        proof {
            use_type_invariant(&*self);
        }
        match self.position(thesis_id) {
            Some(i) => {
                proof {
                    lemma_entry(self.theses@, i as int);
                }
                let mut thesis = self.theses[i].1.clone();
                let ghost old_tags = thesis.tags@;
                let mut tags = tags;
                let ghost added = tags@;
                thesis.tags.append(&mut tags);
                assert(tags_view(thesis.tags@) =~= tags_view(old_tags) + tags_view(added));
                let id = self.theses[i].0;
                self.replace_entry(i, (id, thesis));
                Ok(())
            },
            None => Err(WoolError::UnknownThesis(thesis_id.to_string())),
        }
    }

    fn tag_position(&self, thesis_id: &DocumentId, tag: &Tag) -> (r: Result<Option<usize>, WoolError>) {
        proof {
            use_type_invariant(self);
        }
        match self.position(thesis_id) {
            Some(i) => {
                proof {
                    lemma_entry(self.theses@, i as int);
                }
                let tags = &self.theses[i].1.tags;
                let ghost ts = tags_view(tags@);
                let mut j: usize = 0;
                while j < tags.len()
                    invariant
                        j <= tags@.len(),
                        ts == tags_view(tags@),
                        i < self.theses@.len(),
                        tags@ == self.theses@[i as int].1.tags@,
                        self.stored().contains_key(thesis_id@),
                        self.stored()[thesis_id@] == self.theses@[i as int].1@,
                        first_position(ts.take(j as int), tag@) is None,
                    decreases tags@.len() - j,
                {
                    assert(ts.take(j + 1).drop_last() =~= ts.take(j as int));
                    assert(ts[j as int] == tags@[j as int]@);
                    if same_chars(tags[j].0.as_str(), tag.0.as_str()) {
                        proof {
                            assert(ts.take(j + 1).last() == tag@);
                            assert(first_position(ts.take(j + 1), tag@) == Some(j as int));
                            lemma_first_position_prefix(ts, j + 1, tag@);
                            assert(self.stored()[thesis_id@] == self.theses@[i as int].1@);
                            assert(self.stored()[thesis_id@].tags == ts);
                        }
                        return Ok(Some(j));
                    }
                    j = j + 1;
                }
                assert(ts.take(j as int) =~= ts);
                Ok(None)
            },
            None => Ok(None),
        }
    }

    fn remove_tag_at(&mut self, thesis_id: &DocumentId, index: usize) -> (r: Result<(), WoolError>) {
        proof {
            use_type_invariant(&*self);
        }
        match self.position(thesis_id) {
            Some(i) => {
                proof {
                    lemma_entry(self.theses@, i as int);
                }
                if index >= self.theses[i].1.tags.len() {
                    return Err(WoolError::UnknownThesis(thesis_id.to_string()));
                }
                let mut thesis = self.theses[i].1.clone();
                let ghost old_tags = thesis.tags@;
                thesis.tags.remove(index);
                assert(tags_view(thesis.tags@) =~= tags_view(old_tags).remove(index as int));
                let id = self.theses[i].0;
                self.replace_entry(i, (id, thesis));
                Ok(())
            },
            None => Err(WoolError::UnknownThesis(thesis_id.to_string())),
        }
    }

    fn set_alias(&mut self, thesis_id: DocumentId, new_alias: Alias) -> (r: Result<(), WoolError>) {
        proof {
            use_type_invariant(&*self);
        }
        match self.position(&thesis_id) {
            Some(i) => {
                proof {
                    lemma_entry(self.theses@, i as int);
                }
                let mut thesis = self.theses[i].1.clone();
                thesis.alias = Some(new_alias);
                let id = self.theses[i].0;
                self.replace_entry(i, (id, thesis));
                Ok(())
            },
            None => Err(WoolError::UnknownThesis(thesis_id.to_string())),
        }
    }

    fn remove_stored_thesis(&mut self, thesis_id: &DocumentId) -> (r: Result<(), WoolError>) {
        proof {
            use_type_invariant(&*self);
        }
        match self.position(thesis_id) {
            Some(i) => {
                proof {
                    lemma_remove(self.theses@, i as int);
                }
                let mut theses: Vec<(DocumentId, Thesis)> = Vec::new();
                std::mem::swap(&mut theses, &mut self.theses);
                theses.remove(i);
                self.theses = theses;
            },
            None => {
                assert(self.stored().remove(thesis_id@) =~= self.stored());
            },
        }
        Ok(())
    }

    fn relations_of(&self, thesis_id: &DocumentId) -> (r: Result<Vec<DocumentId>, WoolError>) {
        proof {
            use_type_invariant(self);
        }
        let ghost p = |t: ThesisView| relation_with_end(t, thesis_id@);
        let mut ids: Vec<DocumentId> = Vec::new();
        let mut i: usize = 0;
        while i < self.theses.len()
            invariant
                i <= self.theses@.len(),
                distinct_ids(self.theses@),
                p == |t: ThesisView| relation_with_end(t, thesis_id@),
                forall|m: int| 0 <= m < ids@.len() ==> self.stored().contains_key(#[trigger] ids@[m]@) && p(self.stored()[ids@[m]@]),
                forall|j: int| 0 <= j < i && p((#[trigger] self.theses@[j]).1@) ==> exists|m: int| 0 <= m < ids@.len() && ids@[m]@ == self.theses@[j].0@,
            decreases self.theses@.len() - i,
        {
            proof {
                lemma_entry(self.theses@, i as int);
            }
            let found = match &self.theses[i].1.content {
                Content::Relation(relation) => relation.from.same_as(thesis_id) || relation.to.same_as(thesis_id),
                Content::Text(_) => false,
            };
            if found {
                let ghost before = ids@;
                ids.push(self.theses[i].0);
                assert forall|m: int| 0 <= m < ids@.len() implies self.stored().contains_key(#[trigger] ids@[m]@) && p(self.stored()[ids@[m]@]) by {
                    if m < before.len() {
                        assert(ids@[m] == before[m]);
                    }
                }
                assert forall|j: int| 0 <= j < i + 1 && p((#[trigger] self.theses@[j]).1@) implies exists|m: int|
                    0 <= m < ids@.len() && ids@[m]@ == self.theses@[j].0@ by {
                    if j < i {
                        let m = choose|m: int| 0 <= m < before.len() && before[m]@ == self.theses@[j].0@;
                        assert(ids@[m] == before[m]);
                    } else {
                        assert(ids@[before.len() as int] == self.theses@[i as int].0);
                    }
                }
            }
            i = i + 1;
        }
        assert forall|k: Seq<u8>| #[trigger] self.stored().contains_key(k) && p(self.stored()[k]) implies exists|m: int|
            0 <= m < ids@.len() && ids@[m]@ == k by {
            let j = lemma_stored_entry(self.theses@, k);
        }
        Ok(ids)
    }
}

} // verus!
