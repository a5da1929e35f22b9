use vstd::prelude::*;

use crate::alias::Alias;
use crate::backup::{backup_commands, backs_up, fetches_by_id, once_each, sourced};
use crate::content::content_id;
use crate::command::Command;
use crate::thesis::commands_view;
use crate::document_id::DocumentId;
use crate::error::WoolError;
use crate::relation_kind::RelationKind;
use crate::tag::Tag;
use crate::text::{labelled_text, lemma_labelled_raw, raw_text, Entity, EntityView, Text};
use crate::thesis::{alias_view, content_references, ids_view, Thesis, ThesisView};
use crate::backup::theses_view;
use crate::command::tags_view;
use crate::writing::{aliases_view, compose_text_with, reference_labels};

verus! {

/// The alias of the thesis stored under `id`, if it is stored and has one.
pub open spec fn alias_in(stored: Map<Seq<u8>, ThesisView>, id: Seq<u8>) -> Option<Seq<char>> {
    if stored.contains_key(id) {
        stored[id].alias
    } else {
        None
    }
}

/// The thesis refers to `id`.
pub open spec fn refers_to(t: ThesisView, id: Seq<u8>) -> bool {
    content_references(t.content).contains(id)
}

/// `ids` are the identifiers of the stored theses that satisfy `p`, each of them.
pub open spec fn exactly_stored_ids(stored: Map<Seq<u8>, ThesisView>, ids: Seq<DocumentId>, p: spec_fn(ThesisView) -> bool) -> bool {
    &&& forall|i: int| 0 <= i < ids.len() ==> stored.contains_key(#[trigger] ids[i]@) && p(stored[ids[i]@])
    &&& forall|k: Seq<u8>| #[trigger] stored.contains_key(k) && p(stored[k]) ==> exists|i: int| 0 <= i < ids.len() && ids[i]@ == k
}

/// Each thesis is stored under its own identifier.
pub open spec fn keyed_by_id(stored: Map<Seq<u8>, ThesisView>) -> bool {
    forall|k: Seq<u8>| #[trigger] stored.contains_key(k) ==> content_id(stored[k].content) == k
}

/// The thesis is stored under some identifier.
pub open spec fn stored_value(stored: Map<Seq<u8>, ThesisView>, t: ThesisView) -> bool {
    exists|k: Seq<u8>| stored.contains_key(k) && stored[k] == t
}

/// `all` lists the stored theses: each is stored, and each stored one is among them.
pub open spec fn lists_stored(stored: Map<Seq<u8>, ThesisView>, all: Seq<ThesisView>) -> bool {
    &&& forall|i: int| 0 <= i < all.len() ==> #[trigger] stored_value(stored, all[i])
    &&& forall|k: Seq<u8>| #[trigger] stored.contains_key(k) ==> all.contains(stored[k])
}

/// The thesis has every tag of `present` and none of `absent`.
pub open spec fn tagged(t: ThesisView, present: Seq<Seq<char>>, absent: Seq<Seq<char>>) -> bool {
    &&& forall|i: int| 0 <= i < present.len() ==> t.tags.contains(#[trigger] present[i])
    &&& forall|i: int| 0 <= i < absent.len() ==> !t.tags.contains(#[trigger] absent[i])
}

/// The identifiers of `order` whose stored thesis has every tag of `present` and none of
/// `absent`, in the same order.
pub open spec fn tagged_in_order(
    order: Seq<Seq<u8>>,
    stored: Map<Seq<u8>, ThesisView>,
    present: Seq<Seq<char>>,
    absent: Seq<Seq<char>>,
) -> Seq<Seq<u8>>
    decreases order.len(),
{
    if order.len() == 0 {
        seq![]
    } else {
        let rest = tagged_in_order(order.drop_last(), stored, present, absent);
        if stored.contains_key(order.last()) && tagged(stored[order.last()], present, absent) {
            rest.push(order.last())
        } else {
            rest
        }
    }
}

/// Read access to a store of theses. The store itself (its files, indices and locks) lives
/// outside this library, or is the in-memory one of `memory`; each answer is stated over
/// `stored`, the theses the store holds by identifier. A store may also fail.
pub trait ReadTransactionMethods {
    /// The theses the store holds, by identifier.
    spec fn stored(&self) -> Map<Seq<u8>, ThesisView>;

    /// The relation kinds the store accepts.
    spec fn supported_kinds(&self) -> Seq<RelationKind>;

    /// The store never fails: it answers each question and carries out each change that it
    /// can.
    spec fn reliable(&self) -> bool;

    /// The identifiers of the stored theses, in the store's order.
    spec fn order(&self) -> Seq<Seq<u8>>;

    /// The stored thesis with this identifier, if any.
    fn get_thesis(&self, thesis_id: &DocumentId) -> (r: Result<Option<Thesis>, WoolError>)
        ensures
            r matches Ok(o) ==> match o {
                Some(t) => self.stored().contains_key(thesis_id@) && t@ == self.stored()[thesis_id@],
                None => !self.stored().contains_key(thesis_id@),
            },
            self.reliable() ==> r is Ok;

    /// The identifiers of the stored theses that have all `present_tags` and none of
    /// `absent_tags`, after `start_after_thesis_id` in the store's order, each once; with no
    /// start, the identifiers of all such theses.
    fn iter_theses_ids_by_tags(
        &self,
        present_tags: &Vec<Tag>,
        absent_tags: &Vec<Tag>,
        start_after_thesis_id: Option<DocumentId>,
    ) -> (r: Result<Vec<DocumentId>, WoolError>)
        ensures
            r matches Ok(ids) ==> forall|i: int| 0 <= i < ids@.len() ==> self.stored().contains_key(#[trigger] ids@[i]@)
                && tagged(self.stored()[ids@[i]@], tags_view(present_tags@), tags_view(absent_tags@)),
            r matches Ok(ids) ==> ids_view(ids@).no_duplicates(),
            r is Ok ==> self.order().no_duplicates() && forall|k: Seq<u8>|
                #![trigger self.order().contains(k)]
                #![trigger self.stored().contains_key(k)]
                self.stored().contains_key(k) <==> self.order().contains(k),
            r matches Ok(ids) ==> match start_after_thesis_id {
                None => ids_view(ids@) == tagged_in_order(
                    self.order(),
                    self.stored(),
                    tags_view(present_tags@),
                    tags_view(absent_tags@),
                ),
                Some(start) => forall|p: int|
                    0 <= p < self.order().len() && self.order()[p] == start@ ==> ids_view(ids@) == tagged_in_order(
                        #[trigger] self.order().skip(p + 1),
                        self.stored(),
                        tags_view(present_tags@),
                        tags_view(absent_tags@),
                    ),
            },
            start_after_thesis_id is None ==> (r matches Ok(ids) ==> exactly_stored_ids(
                self.stored(),
                ids@,
                |t: ThesisView| tagged(t, tags_view(present_tags@), tags_view(absent_tags@)),
            )),
            self.reliable() ==> r is Ok;

    /// The identifier of a stored thesis that has this alias, if any.
    fn get_thesis_id_by_alias(&self, alias: &Alias) -> (r: Result<Option<DocumentId>, WoolError>)
        ensures
            r matches Ok(Some(id)) ==> self.stored().contains_key(id@) && self.stored()[id@].alias == Some(alias@),
            r matches Ok(None) ==> forall|k: Seq<u8>| #[trigger] self.stored().contains_key(k) ==> self.stored()[k].alias != Some(alias@),
            self.reliable() ==> r is Ok;

    /// The alias of the thesis with this identifier, if it is stored and has one.
    fn get_alias_by_thesis_id(&self, thesis_id: &DocumentId) -> (r: Result<Option<Alias>, WoolError>)
        ensures
            r matches Ok(a) ==> alias_view(a) == alias_in(self.stored(), thesis_id@),
            self.reliable() ==> r is Ok;

    /// The identifiers of the stored theses that refer to this one, each of them.
    fn where_referenced(&self, thesis_id: &DocumentId) -> (r: Result<Vec<DocumentId>, WoolError>)
        ensures
            r matches Ok(ids) ==> exactly_stored_ids(self.stored(), ids@, |t: ThesisView| refers_to(t, thesis_id@)),
            self.reliable() ==> r is Ok;

    /// Every stored thesis, once each, in the store's order.
    fn iter_theses(&self) -> (r: Result<Vec<Thesis>, WoolError>)
        ensures
            r matches Ok(all) ==> lists_stored(self.stored(), theses_view(all@)),
            r is Ok ==> self.order().no_duplicates() && forall|k: Seq<u8>|
                #![trigger self.order().contains(k)]
                #![trigger self.stored().contains_key(k)]
                self.stored().contains_key(k) <==> self.order().contains(k),
            r matches Ok(all) ==> all@.len() == self.order().len() && forall|j: int|
                0 <= j < all@.len() ==> (#[trigger] all@[j])@ == self.stored()[self.order()[j]],
            self.reliable() ==> r is Ok;

    /// The relation kinds the store accepts.
    fn supported_relations_kinds(&self) -> (r: Vec<RelationKind>)
        ensures
            r@ == self.supported_kinds();

    /// Every stored thesis, each preceded by the theses it refers to, as the commands that
    /// recreate them. Besides the listed theses, one fetched thesis is emitted for each of
    /// some pairwise distinct identifiers, each fetched when asked for an identifier that an
    /// emitted thesis refers to; where each thesis is stored under its own identifier, the
    /// fetched identifiers are the ones asked for. Every emitted thesis is a stored one.
    fn backup_to_commands(&self) -> (r: Result<Vec<Command>, WoolError>)
        ensures
            r matches Ok(c) ==> exists|all: Seq<ThesisView>, emitted: Seq<ThesisView>| #[trigger] backs_up(all, emitted, commands_view(c@))
                && lists_stored(self.stored(), all)
                && exists|extra: Seq<Seq<u8>>, asked: Seq<Seq<u8>>| #[trigger] once_each(
                    emitted,
                    all.len(),
                    extra,
                    asked,
                    keyed_by_id(self.stored()),
                )
                && forall|i: int| 0 <= i < emitted.len() ==> stored_value(self.stored(), #[trigger] emitted[i]),
    {
        let all = self.iter_theses()?;
        let fetch = |id: &DocumentId| -> (f: Result<Option<Thesis>, WoolError>)
            ensures
                f matches Ok(Some(t)) ==> self.stored().contains_key(id@) && t@ == self.stored()[id@],
            { self.get_thesis(id) };
        let r = backup_commands(&all, fetch);
        proof {
            if keyed_by_id(self.stored()) {
                assert forall|id: &DocumentId, x: Result<Option<Thesis>, WoolError>| #[trigger] call_ensures(fetch, (id,), x)
                    implies (x matches Ok(Some(t)) ==> content_id(t@.content) == id@) by {}
                assert(fetches_by_id(fetch));
            }
            if r is Ok {
                let c = r->Ok_0;
                let emitted = choose|emitted: Seq<ThesisView>| #[trigger] backs_up(theses_view(all@), emitted, commands_view(c@))
                    && exists|extra: Seq<Seq<u8>>, asked: Seq<Seq<u8>>| #[trigger] once_each(
                        emitted,
                        all@.len(),
                        extra,
                        asked,
                        fetches_by_id(fetch),
                    )
                    && forall|i: int| 0 <= i < emitted.len() ==> sourced(theses_view(all@), fetch, #[trigger] emitted[i]);
                let (extra, asked) = choose|extra: Seq<Seq<u8>>, asked: Seq<Seq<u8>>| #[trigger] once_each(
                    emitted,
                    all@.len(),
                    extra,
                    asked,
                    fetches_by_id(fetch),
                );
                assert(theses_view(all@).len() == all@.len());
                assert(once_each(emitted, theses_view(all@).len(), extra, asked, keyed_by_id(self.stored())));
                assert(backs_up(theses_view(all@), emitted, commands_view(c@)));
                assert forall|i: int| 0 <= i < emitted.len() implies stored_value(self.stored(), #[trigger] emitted[i]) by {
                    assert(sourced(theses_view(all@), fetch, emitted[i]));
                    if theses_view(all@).contains(emitted[i]) {
                        let j = choose|j: int| 0 <= j < theses_view(all@).len() && theses_view(all@)[j] == emitted[i];
                        assert(stored_value(self.stored(), theses_view(all@)[j]));
                    } else {
                        let (id, x) = choose|id: &DocumentId, x: Thesis| #[trigger] call_ensures(fetch, (id,), Ok(Some(x)))
                            && x@ == emitted[i];
                        assert(self.stored().contains_key(id@) && self.stored()[id@] == emitted[i]);
                    }
                }
            }
        }
        r
    }
}

/// The store's alias of the thesis of each reference of a text (`None` for words and other
/// runs).
pub open spec fn text_store_aliases(t: Seq<EntityView>, stored: Map<Seq<u8>, ThesisView>) -> Seq<Option<Seq<char>>> {
    Seq::new(
        t.len(),
        |i: int|
            match t[i] {
                EntityView::Reference(id) => alias_in(stored, id),
                _ => None,
            },
    )
}

/// The text refers to no thesis: it is words and other runs only.
pub open spec fn refers_to_nothing(t: Seq<EntityView>) -> bool {
    forall|i: int| 0 <= i < t.len() ==> !(#[trigger] t[i] is Reference)
}

/// The alias of the thesis of each reference of a text (`None` for words and other runs).
/// The store is asked only for references, so a text that refers to nothing gets its
/// answer without it.
pub(crate) fn text_aliases<T: ReadTransactionMethods + ?Sized>(read_able_transaction: &T, text: &Text) -> (r: Result<Vec<Option<Alias>>, WoolError>)
    ensures
        r matches Ok(a) ==> a@.len() == text@.len(),
        r matches Ok(a) ==> forall|i: int| 0 <= i < text@.len() && !(#[trigger] text@[i] is Reference) ==> a@[i] is None,
        r matches Ok(a) ==> aliases_view(a@) == text_store_aliases(text@, read_able_transaction.stored()),
        refers_to_nothing(text@) ==> r is Ok,
{
    let mut aliases: Vec<Option<Alias>> = Vec::new();
    let n = text.entities.len();
    let mut i: usize = 0;
    while i < n
        invariant
            n == text.entities@.len(),
            i <= n,
            aliases@.len() == i,
            forall|j: int| 0 <= j < i && !(#[trigger] text@[j] is Reference) ==> aliases@[j] is None,
            aliases_view(aliases@) == text_store_aliases(text@, read_able_transaction.stored()).take(i as int),
        decreases n - i,
    {
        let ghost before = aliases@;
        assert(text@[i as int] == text.entities@[i as int]@);
        match &text.entities[i] {
            Entity::Reference(id) => {
                let alias = read_able_transaction.get_alias_by_thesis_id(id)?;
                aliases.push(alias);
            },
            _ => {
                aliases.push(None);
            },
        }
        assert(aliases_view(aliases@) =~= aliases_view(before).push(aliases_view(aliases@).last()));
        assert(text_store_aliases(text@, read_able_transaction.stored()).take(i + 1) =~= text_store_aliases(
            text@,
            read_able_transaction.stored(),
        ).take(i as int).push(text_store_aliases(text@, read_able_transaction.stored())[i as int]));
        i = i + 1;
    }
    assert(text_store_aliases(text@, read_able_transaction.stored()).take(n as int) =~= text_store_aliases(
        text@,
        read_able_transaction.stored(),
    ));
    Ok(aliases)
}

/// Writes a text with each reference as `[alias]`, or `[identifier]` when the thesis
/// has no alias. A text that refers to nothing is written as it is, without asking the
/// store.
pub fn compose_with_aliases<T: ReadTransactionMethods + ?Sized>(read_able_transaction: &T, text: &Text) -> (r: Result<String, WoolError>)
    ensures
        r matches Ok(s) ==> s@ == labelled_text(
            text@,
            reference_labels(text@, text_store_aliases(text@, read_able_transaction.stored())),
        ),
        refers_to_nothing(text@) ==> (r matches Ok(s) && s@ == raw_text(text@)),
{
    let aliases = text_aliases(read_able_transaction, text)?;
    let s = compose_text_with(text, &aliases);
    assert(s@ == labelled_text(text@, reference_labels(text@, aliases_view(aliases@))));
    proof {
        if refers_to_nothing(text@) {
            lemma_labelled_raw(text@, reference_labels(text@, aliases_view(aliases@)));
        }
    }
    Ok(s)
}

} // verus!
