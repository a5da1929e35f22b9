use vstd::prelude::*;

use crate::alias::Alias;
use crate::command::{kind_supported, kinds_contain, tags_view, Command, CommandView};
use crate::relation_kind::RelationKind;
use crate::content::{content_id, Content, ContentView};
use crate::document_id::{id_text, DocumentId};
use crate::error::WoolError;
use crate::tag::Tag;
use crate::thesis::{add_command, clone_tags, content_references, thesis_commands, Thesis, ThesisView};
use crate::transaction::{exactly_stored_ids, refers_to, ReadTransactionMethods};

verus! {

/// The thesis an adding command adds: its content and alias, without tags.
pub open spec fn added_thesis(c: CommandView) -> Option<ThesisView> {
    match c {
        CommandView::AddTextThesisWithAlias { text, alias } => Some(
            ThesisView { alias: Some(alias), content: ContentView::Text(text), tags: seq![] },
        ),
        CommandView::AddTextThesisWithoutAlias(text) => Some(
            ThesisView { alias: None, content: ContentView::Text(text), tags: seq![] },
        ),
        CommandView::AddRelationThesisWithAlias { relation, alias } => Some(
            ThesisView { alias: Some(alias), content: ContentView::Relation(relation), tags: seq![] },
        ),
        CommandView::AddRelationThesisWithoutAlias(relation) => Some(
            ThesisView { alias: None, content: ContentView::Relation(relation), tags: seq![] },
        ),
        _ => None,
    }
}

pub open spec fn without_tags(t: ThesisView) -> ThesisView {
    ThesisView { alias: t.alias, content: t.content, tags: seq![] }
}

/// The commands that recreate a thesis add it without tags, then, when it has tags, add
/// them all to the thesis under its identifier.
pub proof fn lemma_commands_recreate_thesis(t: ThesisView)
    ensures
        added_thesis(thesis_commands(t)[0]) == Some(without_tags(t)),
        t.tags.len() == 0 <==> thesis_commands(t).len() == 1,
        t.tags.len() > 0 ==> thesis_commands(t).len() == 2 && thesis_commands(t)[1] == (
        CommandView::AddTags { thesis_id: content_id(t.content), tags: t.tags }),
{
    match t.content {
        ContentView::Text(_) => {},
        ContentView::Relation(_) => {},
    }
}

/// The tags of `tags` whose entry in `present` is false, in order.
pub open spec fn absent_tags(tags: Seq<Seq<char>>, present: Seq<bool>) -> Seq<Seq<char>>
    decreases tags.len(),
{
    if tags.len() == 0 {
        seq![]
    } else {
        let rest = absent_tags(tags.drop_last(), present);
        if present[tags.len() - 1] {
            rest
        } else {
            rest.push(tags.last())
        }
    }
}

/// The tags that are not present yet, given whether each is.
pub fn tags_not_present(tags: &Vec<Tag>, present: &Vec<bool>) -> (r: Vec<Tag>)
    requires
        present@.len() == tags@.len(),
    ensures
        tags_view(r@) == absent_tags(tags_view(tags@), present@),
{
    let mut r: Vec<Tag> = Vec::new();
    let mut i: usize = 0;
    while i < tags.len()
        invariant
            i <= tags@.len(),
            present@.len() == tags@.len(),
            tags_view(r@) == absent_tags(tags_view(tags@).take(i as int), present@),
        decreases tags@.len() - i,
    {
        let ghost before = tags_view(r@);
        if !present[i] {
            r.push(tags[i].clone());
            assert(tags_view(r@) =~= before.push(tags@[i as int]@));
        }
        assert(tags_view(tags@).take(i + 1).drop_last() =~= tags_view(tags@).take(i as int));
        i = i + 1;
    }
    assert(tags_view(tags@).take(i as int) =~= tags_view(tags@));
    r
}

impl Command {
    /// The thesis this command adds, when it adds one.
    pub fn thesis_to_add(&self) -> (r: Option<Thesis>)
        ensures
            match r {
                Some(t) => added_thesis(self@) == Some(t@),
                None => added_thesis(self@) is None,
            },
    {
        let r = match self {
            Command::AddTextThesisWithAlias { text, alias } => Some(
                Thesis { alias: Some(alias.clone()), content: Content::Text(text.clone()), tags: Vec::new() },
            ),
            Command::AddTextThesisWithoutAlias(text) => Some(
                Thesis { alias: None, content: Content::Text(text.clone()), tags: Vec::new() },
            ),
            Command::AddRelationThesisWithAlias { relation, alias } => Some(
                Thesis {
                    alias: Some(alias.clone()),
                    content: Content::Relation(relation.clone()),
                    tags: Vec::new(),
                },
            ),
            Command::AddRelationThesisWithoutAlias(relation) => Some(
                Thesis { alias: None, content: Content::Relation(relation.clone()), tags: Vec::new() },
            ),
            _ => None,
        };
        proof {
            if r is Some {
                assert(r->0@.tags =~= Seq::<Seq<char>>::empty());
            }
        }
        r
    }
}

/// Why a store refuses a thesis, given its answers: whether a thesis is stored under the
/// thesis's identifier, whether a relation's kind is supported, and whether its `from` and
/// its `to` thesis are stored.
pub open spec fn refused_insertion(t: ThesisView, taken: bool, supported: bool, from_stored: bool, to_stored: bool) -> bool {
    taken || (t.content is Relation && !(supported && from_stored && to_stored))
}

/// The answer to adding `thesis` to a store that answered so: `None` when it may be stored,
/// else the refusal, for the first reason in the order above.
pub fn insertion_refusal(thesis: &Thesis, taken: bool, supported: bool, from_stored: bool, to_stored: bool) -> (r: Option<WoolError>)
    ensures
        r is None <==> !refused_insertion(thesis@, taken, supported, from_stored, to_stored),
        taken ==> (r matches Some(WoolError::AlreadyExists(x)) && x@ == id_text(content_id(thesis@.content))),
        !taken ==> (thesis@.content matches ContentView::Relation(rel) ==> (!supported ==> (r matches Some(
            WoolError::UnsupportedRelationKind(x),
        ) && x@ == rel.kind))),
        !taken ==> (thesis@.content matches ContentView::Relation(rel) ==> (supported && !from_stored ==> (r matches Some(
            WoolError::MissingRelated(x),
        ) && x@ == id_text(rel.from)))),
        !taken ==> (thesis@.content matches ContentView::Relation(rel) ==> (supported && from_stored && !to_stored
            ==> (r matches Some(WoolError::MissingRelated(x)) && x@ == id_text(rel.to)))),
{
    if taken {
        return Some(WoolError::AlreadyExists(thesis.id().to_string()));
    }
    match &thesis.content {
        Content::Relation(relation) => {
            if !supported {
                Some(WoolError::UnsupportedRelationKind(relation.kind.0.clone()))
            } else if !from_stored {
                Some(WoolError::MissingRelated(relation.from.to_string()))
            } else if !to_stored {
                Some(WoolError::MissingRelated(relation.to.to_string()))
            } else {
                None
            }
        },
        Content::Text(_) => None,
    }
}

/// The change to a store that carrying out a command asks for.
pub enum StoreChange {
    Insert(Thesis),
    SetAlias(DocumentId, Alias),
    AddTags(DocumentId, Vec<Tag>),
    RemoveTags(DocumentId, Vec<Tag>),
}

pub enum StoreChangeView {
    Insert(ThesisView),
    SetAlias(Seq<u8>, Seq<char>),
    AddTags(Seq<u8>, Seq<Seq<char>>),
    RemoveTags(Seq<u8>, Seq<Seq<char>>),
}

impl View for StoreChange {
    type V = StoreChangeView;

    open spec fn view(&self) -> StoreChangeView {
        match self {
            StoreChange::Insert(t) => StoreChangeView::Insert(t@),
            StoreChange::SetAlias(id, a) => StoreChangeView::SetAlias(id@, a@),
            StoreChange::AddTags(id, tags) => StoreChangeView::AddTags(id@, tags_view(tags@)),
            StoreChange::RemoveTags(id, tags) => StoreChangeView::RemoveTags(id@, tags_view(tags@)),
        }
    }
}

/// The change a command asks for: adding the thesis it adds, or setting the alias, adding
/// or removing the tags it names, on its thesis.
pub open spec fn change_of(c: CommandView) -> StoreChangeView {
    match c {
        CommandView::SetAlias { thesis_id, alias } => StoreChangeView::SetAlias(thesis_id, alias),
        CommandView::AddTags { thesis_id, tags } => StoreChangeView::AddTags(thesis_id, tags),
        CommandView::RemoveTags { thesis_id, tags } => StoreChangeView::RemoveTags(thesis_id, tags),
        _ => StoreChangeView::Insert(added_thesis(c)->0),
    }
}

impl Command {
    /// The change to a store this command asks for.
    pub fn store_change(&self) -> (r: StoreChange)
        ensures
            r@ == change_of(self@),
    {
        if let Some(thesis) = self.thesis_to_add() {
            return StoreChange::Insert(thesis);
        }
        match self {
            Command::SetAlias { thesis_id, alias } => StoreChange::SetAlias(*thesis_id, alias.clone()),
            Command::AddTags { thesis_id, tags } => StoreChange::AddTags(*thesis_id, clone_tags(tags)),
            Command::RemoveTags { thesis_id, tags } => StoreChange::RemoveTags(*thesis_id, clone_tags(tags)),
            _ => {
                assert(false);
                StoreChange::RemoveTags(DocumentId { value: [0u8; 16] }, Vec::new())
            },
        }
    }
}

/// The thesis with these tags in place of its own.
pub open spec fn with_tags(t: ThesisView, tags: Seq<Seq<char>>) -> ThesisView {
    ThesisView { alias: t.alias, content: t.content, tags }
}

/// The thesis with this alias in place of its own.
pub open spec fn with_alias(t: ThesisView, alias: Seq<char>) -> ThesisView {
    ThesisView { alias: Some(alias), content: t.content, tags: t.tags }
}

/// The thesis is a relation from or to `id`.
pub open spec fn relation_with_end(t: ThesisView, id: Seq<u8>) -> bool {
    t.content matches ContentView::Relation(r) && (r.from == id || r.to == id)
}

/// Where `x` first stands in `ts`.
pub open spec fn first_position(ts: Seq<Seq<char>>, x: Seq<char>) -> Option<int>
    decreases ts.len(),
{
    if ts.len() == 0 {
        None
    } else {
        match first_position(ts.drop_last(), x) {
            Some(i) => Some(i),
            None => if ts.last() == x {
                Some(ts.len() - 1)
            } else {
                None
            },
        }
    }
}

proof fn lemma_first_position_within(ts: Seq<Seq<char>>, x: Seq<char>)
    ensures
        first_position(ts, x) matches Some(i) ==> 0 <= i < ts.len(),
    decreases ts.len(),
{
    if ts.len() > 0 {
        lemma_first_position_within(ts.drop_last(), x);
    }
}

/// `ts` without the first `x` in it.
pub open spec fn without_first(ts: Seq<Seq<char>>, x: Seq<char>) -> Seq<Seq<char>> {
    match first_position(ts, x) {
        Some(i) => ts.remove(i),
        None => ts,
    }
}

/// `ts` without the first of each of `tags`, taken in turn.
pub open spec fn without_each(ts: Seq<Seq<char>>, tags: Seq<Seq<char>>) -> Seq<Seq<char>>
    decreases tags.len(),
{
    if tags.len() == 0 {
        ts
    } else {
        without_first(without_each(ts, tags.drop_last()), tags.last())
    }
}

/// `ts` followed by those of `tags` not among `ts`, in order.
pub open spec fn tags_added(ts: Seq<Seq<char>>, tags: Seq<Seq<char>>) -> Seq<Seq<char>> {
    ts + absent_tags(tags, Seq::new(tags.len(), |i: int| ts.contains(tags[i])))
}

/// The store after removing `tags` from the thesis under `id`, when it is stored.
pub open spec fn tags_removed_in(stored: Map<Seq<u8>, ThesisView>, id: Seq<u8>, tags: Seq<Seq<char>>) -> Map<Seq<u8>, ThesisView> {
    if stored.contains_key(id) {
        stored.insert(id, with_tags(stored[id], without_each(stored[id].tags, tags)))
    } else {
        stored
    }
}

/// The store refuses the thesis, by its theses and its kinds.
pub open spec fn store_refuses(stored: Map<Seq<u8>, ThesisView>, kinds: Seq<RelationKind>, t: ThesisView) -> bool {
    match t.content {
        ContentView::Relation(rel) => refused_insertion(
            t,
            stored.contains_key(content_id(t.content)),
            kind_supported(kinds, rel.kind),
            stored.contains_key(rel.from),
            stored.contains_key(rel.to),
        ),
        ContentView::Text(_) => stored.contains_key(content_id(t.content)),
    }
}

/// `new` is `old` with the change made.
pub open spec fn change_done(old: Map<Seq<u8>, ThesisView>, change: StoreChangeView, new: Map<Seq<u8>, ThesisView>) -> bool {
    match change {
        StoreChangeView::Insert(t) => new == old.insert(content_id(t.content), t),
        StoreChangeView::SetAlias(id, a) => old.contains_key(id) && new == old.insert(id, with_alias(old[id], a)),
        StoreChangeView::AddTags(id, tags) => old.contains_key(id) && new == old.insert(
            id,
            with_tags(old[id], tags_added(old[id].tags, tags)),
        ),
        StoreChangeView::RemoveTags(id, tags) => new == tags_removed_in(old, id, tags),
    }
}

/// The store can make the change: the thesis to add is not refused, and the thesis whose
/// alias is set or to which tags are added is stored; tags can always be removed.
pub open spec fn change_allowed(stored: Map<Seq<u8>, ThesisView>, kinds: Seq<RelationKind>, change: StoreChangeView) -> bool {
    match change {
        StoreChangeView::Insert(t) => !store_refuses(stored, kinds, t),
        StoreChangeView::SetAlias(id, _) => stored.contains_key(id),
        StoreChangeView::AddTags(id, _) => stored.contains_key(id),
        StoreChangeView::RemoveTags(_, _) => true,
    }
}

/// `new` holds only what `old` held, unchanged.
pub open spec fn shrunk(old: Map<Seq<u8>, ThesisView>, new: Map<Seq<u8>, ThesisView>) -> bool {
    forall|k: Seq<u8>| #[trigger] new.contains_key(k) ==> old.contains_key(k) && new[k] == old[k]
}

/// Changes to a store of theses. The store carries out the elementary changes; the rules
/// for when a thesis may be added and which tags are new are here.
pub trait WriteTransactionMethods: ReadTransactionMethods {
    /// Whether a thesis with this identifier is stored.
    fn contains_thesis(&self, thesis_id: &DocumentId) -> (r: Result<bool, WoolError>)
        ensures
            r matches Ok(b) ==> b == self.stored().contains_key(thesis_id@),
            self.reliable() ==> r is Ok;

    /// Stores a thesis under an identifier.
    fn put_thesis(&mut self, thesis_id: DocumentId, thesis: Thesis) -> (r: Result<(), WoolError>)
        ensures
            r is Ok ==> final(self).stored() == old(self).stored().insert(thesis_id@, thesis@),
            old(self).reliable() ==> r is Ok,
            final(self).supported_kinds() == old(self).supported_kinds(),
            final(self).reliable() == old(self).reliable();

    /// Whether the thesis is stored and has this tag.
    fn has_tag(&self, thesis_id: &DocumentId, tag: &Tag) -> (r: Result<bool, WoolError>)
        ensures
            r matches Ok(b) ==> b == (self.stored().contains_key(thesis_id@) && self.stored()[thesis_id@].tags.contains(tag@)),
            self.reliable() ==> r is Ok;

    /// Appends tags to the tags of a stored thesis.
    fn push_tags(&mut self, thesis_id: &DocumentId, tags: Vec<Tag>) -> (r: Result<(), WoolError>)
        ensures
            r is Ok ==> old(self).stored().contains_key(thesis_id@) && final(self).stored() == old(self).stored().insert(
                thesis_id@,
                with_tags(old(self).stored()[thesis_id@], old(self).stored()[thesis_id@].tags + tags_view(tags@)),
            ),
            old(self).reliable() && old(self).stored().contains_key(thesis_id@) ==> r is Ok,
            final(self).supported_kinds() == old(self).supported_kinds(),
            final(self).reliable() == old(self).reliable();

    /// Where the tag first stands among the thesis's tags (`None` when it is not there, or
    /// the thesis is not stored).
    fn tag_position(&self, thesis_id: &DocumentId, tag: &Tag) -> (r: Result<Option<usize>, WoolError>)
        ensures
            r matches Ok(o) ==> match o {
                Some(i) => self.stored().contains_key(thesis_id@) && first_position(self.stored()[thesis_id@].tags, tag@)
                    == Some(i as int),
                None => !self.stored().contains_key(thesis_id@) || first_position(self.stored()[thesis_id@].tags, tag@) is None,
            },
            self.reliable() ==> r is Ok;

    /// Removes the tag at this position from the tags of a stored thesis.
    fn remove_tag_at(&mut self, thesis_id: &DocumentId, index: usize) -> (r: Result<(), WoolError>)
        ensures
            r is Ok ==> old(self).stored().contains_key(thesis_id@) && index < old(self).stored()[thesis_id@].tags.len()
                && final(self).stored() == old(self).stored().insert(
                thesis_id@,
                with_tags(old(self).stored()[thesis_id@], old(self).stored()[thesis_id@].tags.remove(index as int)),
            ),
            old(self).reliable() && old(self).stored().contains_key(thesis_id@) && index < old(self).stored()[thesis_id@].tags.len()
                ==> r is Ok,
            final(self).supported_kinds() == old(self).supported_kinds(),
            final(self).reliable() == old(self).reliable();

    /// Gives a stored thesis this alias, replacing any other.
    fn set_alias(&mut self, thesis_id: DocumentId, new_alias: Alias) -> (r: Result<(), WoolError>)
        ensures
            r is Ok ==> old(self).stored().contains_key(thesis_id@) && final(self).stored() == old(self).stored().insert(
                thesis_id@,
                with_alias(old(self).stored()[thesis_id@], new_alias@),
            ),
            old(self).reliable() && old(self).stored().contains_key(thesis_id@) ==> r is Ok,
            final(self).supported_kinds() == old(self).supported_kinds(),
            final(self).reliable() == old(self).reliable();

    /// Removes the stored thesis with this identifier, and nothing else.
    fn remove_stored_thesis(&mut self, thesis_id: &DocumentId) -> (r: Result<(), WoolError>)
        ensures
            r is Ok ==> final(self).stored() == old(self).stored().remove(thesis_id@),
            old(self).reliable() ==> r is Ok,
            final(self).supported_kinds() == old(self).supported_kinds(),
            final(self).reliable() == old(self).reliable();

    /// The identifiers of the stored relations from or to this thesis, each of them.
    fn relations_of(&self, thesis_id: &DocumentId) -> (r: Result<Vec<DocumentId>, WoolError>)
        ensures
            r matches Ok(ids) ==> exactly_stored_ids(self.stored(), ids@, |t: ThesisView| relation_with_end(t, thesis_id@)),
            self.reliable() ==> r is Ok;

    /// Stores a thesis under its identifier. Refused when a thesis with that identifier is
    /// stored, when a relation's kind is not supported, and when a relation's `from` or
    /// `to` thesis is not stored (see `insertion_refusal`); the store is asked each question
    /// only when the earlier ones let the thesis in.
    fn insert_thesis(&mut self, thesis: Thesis) -> (r: Result<(), WoolError>)
        ensures
            r is Ok ==> !store_refuses(old(self).stored(), old(self).supported_kinds(), thesis@)
                && final(self).stored() == old(self).stored().insert(content_id(thesis@.content), thesis@),
            store_refuses(old(self).stored(), old(self).supported_kinds(), thesis@) ==> r is Err
                && final(self).stored() == old(self).stored(),
            old(self).reliable() ==> (r is Ok <==> !store_refuses(old(self).stored(), old(self).supported_kinds(), thesis@)),
            final(self).supported_kinds() == old(self).supported_kinds(),
            final(self).reliable() == old(self).reliable(),
    {
        let thesis_id = thesis.id();
        let taken = self.contains_thesis(&thesis_id)?;
        let mut supported = true;
        let mut from_stored = true;
        let mut to_stored = true;
        if !taken {
            if let Content::Relation(relation) = &thesis.content {
                let kinds = self.supported_relations_kinds();
                supported = kinds_contain(&kinds, &relation.kind);
                assert(relation@ == thesis@.content->Relation_0);
                if supported {
                    from_stored = self.contains_thesis(&relation.from)?;
                    if from_stored {
                        to_stored = self.contains_thesis(&relation.to)?;
                    }
                }
            }
        }
        match insertion_refusal(&thesis, taken, supported, from_stored, to_stored) {
            Some(refusal) => Err(refusal),
            None => self.put_thesis(thesis_id, thesis),
        }
    }

    /// Appends to the thesis's tags those of `tags` it does not have yet.
    fn add_tags(&mut self, thesis_id: &DocumentId, tags: Vec<Tag>) -> (r: Result<(), WoolError>)
        ensures
            r is Ok ==> old(self).stored().contains_key(thesis_id@) && final(self).stored() == old(self).stored().insert(
                thesis_id@,
                with_tags(
                    old(self).stored()[thesis_id@],
                    tags_added(old(self).stored()[thesis_id@].tags, tags_view(tags@)),
                ),
            ),
            old(self).reliable() && old(self).stored().contains_key(thesis_id@) ==> r is Ok,
            final(self).supported_kinds() == old(self).supported_kinds(),
            final(self).reliable() == old(self).reliable(),
    {
        let mut present: Vec<bool> = Vec::new();
        let mut i: usize = 0;
        while i < tags.len()
            invariant
                i <= tags@.len(),
                present@.len() == i,
                forall|j: int| 0 <= j < i ==> #[trigger] present@[j] == (self.stored().contains_key(thesis_id@)
                    && self.stored()[thesis_id@].tags.contains(tags@[j]@)),
            decreases tags@.len() - i,
        {
            present.push(self.has_tag(thesis_id, &tags[i])?);
            i = i + 1;
        }
        let ghost ts = self.stored()[thesis_id@].tags;
        let ghost tv = tags_view(tags@);
        let fresh = tags_not_present(&tags, &present);
        let r = self.push_tags(thesis_id, fresh);
        proof {
            if r is Ok {
                assert(present@ =~= Seq::new(tv.len(), |j: int| ts.contains(tv[j])));
                assert(ts + tags_view(fresh@) =~= tags_added(ts, tv));
            }
        }
        r
    }

    /// Removes each of `tags` from the thesis's tags, where it stands first; a tag the thesis
    /// does not have is passed over. The store is asked once for each tag, so removing no tag
    /// asks it nothing and succeeds, and only a failure of the store makes it fail.
    fn remove_tags(&mut self, thesis_id: &DocumentId, tags: &Vec<Tag>) -> (r: Result<(), WoolError>)
        ensures
            tags@.len() == 0 ==> r is Ok,
            old(self).reliable() ==> r is Ok,
            r is Ok ==> final(self).stored() == tags_removed_in(old(self).stored(), thesis_id@, tags_view(tags@)),
            final(self).supported_kinds() == old(self).supported_kinds(),
            final(self).reliable() == old(self).reliable(),
    {
        let mut i: usize = 0;
        let ghost tv = tags_view(tags@);
        assert(tags_removed_in(old(self).stored(), thesis_id@, tv.take(0)) =~= old(self).stored());
        while i < tags.len()
            invariant
                i <= tags@.len(),
                tv == tags_view(tags@),
                self.stored() == tags_removed_in(old(self).stored(), thesis_id@, tv.take(i as int)),
                self.supported_kinds() == old(self).supported_kinds(),
                self.reliable() == old(self).reliable(),
            decreases tags@.len() - i,
        {
            let ghost before = self.stored();
            assert(tv.take(i + 1).drop_last() =~= tv.take(i as int));
            assert(tv[i as int] == tags@[i as int]@);
            if let Some(index) = self.tag_position(thesis_id, &tags[i])? {
                proof {
                    lemma_first_position_within(self.stored()[thesis_id@].tags, tags@[i as int]@);
                }
                self.remove_tag_at(thesis_id, index)?;
                assert(self.stored() =~= tags_removed_in(old(self).stored(), thesis_id@, tv.take(i + 1)));
            } else {
                assert(before =~= tags_removed_in(old(self).stored(), thesis_id@, tv.take(i + 1)));
            }
            i = i + 1;
        }
        assert(tv.take(i as int) =~= tv);
        Ok(())
    }

    /// Carries out a command: adds the thesis an adding command adds, sets an alias, adds or
    /// removes tags. Removing no tag asks the store nothing and succeeds.
    fn execute_command(&mut self, command: &Command) -> (r: Result<(), WoolError>)
        ensures
            command@ matches CommandView::RemoveTags { tags, .. } ==> (tags.len() == 0 ==> r is Ok),
            r is Ok ==> change_done(old(self).stored(), change_of(command@), final(self).stored()),
            old(self).reliable() ==> (r is Ok <==> change_allowed(old(self).stored(), old(self).supported_kinds(), change_of(command@))),
            final(self).supported_kinds() == old(self).supported_kinds(),
            final(self).reliable() == old(self).reliable(),
    {
        match command.store_change() {
            StoreChange::Insert(thesis) => self.insert_thesis(thesis),
            StoreChange::SetAlias(thesis_id, alias) => self.set_alias(thesis_id, alias),
            StoreChange::AddTags(thesis_id, tags) => self.add_tags(&thesis_id, tags),
            StoreChange::RemoveTags(thesis_id, tags) => self.remove_tags(&thesis_id, &tags),
        }
    }
}

/// The `i`th identifier of `path` names a stored thesis that refers to the next one.
pub open spec fn step_along(stored: Map<Seq<u8>, ThesisView>, path: Seq<Seq<u8>>, i: int) -> bool {
    stored.contains_key(path[i]) && refers_to(stored[path[i]], path[i + 1])
}

/// Each identifier of `path` but the last names a stored thesis that refers to the next.
pub open spec fn refers_along(stored: Map<Seq<u8>, ThesisView>, path: Seq<Seq<u8>>) -> bool {
    forall|i: int| 0 <= i < path.len() - 1 ==> #[trigger] step_along(stored, path, i)
}

/// Following references from the thesis `from`, one thesis after another, leads to `to`
/// (in no step when `from` is `to`).
pub open spec fn reaches(stored: Map<Seq<u8>, ThesisView>, from: Seq<u8>, to: Seq<u8>) -> bool {
    exists|path: Seq<Seq<u8>>|
        #[trigger] refers_along(stored, path) && path.len() >= 1 && path[0] == from && path.last() == to
}

/// Every thesis of `old` from which references do not lead to `id` is still in `new`,
/// unchanged.
pub open spec fn keeps_unrelated(old: Map<Seq<u8>, ThesisView>, new: Map<Seq<u8>, ThesisView>, id: Seq<u8>) -> bool {
    forall|k: Seq<u8>| #[trigger] old.contains_key(k) && !reaches(old, k, id) ==> new.contains_key(k) && new[k] == old[k]
}

/// A thesis reaches itself, in no step.
pub proof fn lemma_reaches_itself(stored: Map<Seq<u8>, ThesisView>, a: Seq<u8>)
    ensures
        reaches(stored, a, a),
{
    let path = seq![a];
    assert(refers_along(stored, path));
}

/// A stored thesis reaches each thesis it refers to.
pub proof fn lemma_reaches_step(stored: Map<Seq<u8>, ThesisView>, a: Seq<u8>, b: Seq<u8>)
    requires
        stored.contains_key(a),
        refers_to(stored[a], b),
    ensures
        reaches(stored, a, b),
{
    let path = seq![a, b];
    assert forall|i: int| 0 <= i < path.len() - 1 implies #[trigger] step_along(stored, path, i) by {
        assert(i == 0);
    }
    assert(refers_along(stored, path));
}

/// Reaching is transitive: what `a` reaches through `b` it reaches.
pub proof fn lemma_reaches_trans(stored: Map<Seq<u8>, ThesisView>, a: Seq<u8>, b: Seq<u8>, c: Seq<u8>)
    requires
        reaches(stored, a, b),
        reaches(stored, b, c),
    ensures
        reaches(stored, a, c),
{
    let p = choose|path: Seq<Seq<u8>>|
        #[trigger] refers_along(stored, path) && path.len() >= 1 && path[0] == a && path.last() == b;
    let q = choose|path: Seq<Seq<u8>>|
        #[trigger] refers_along(stored, path) && path.len() >= 1 && path[0] == b && path.last() == c;
    let path = p + q.skip(1);
    assert forall|i: int| 0 <= i < path.len() - 1 implies #[trigger] step_along(stored, path, i) by {
        if i < p.len() - 1 {
            assert(step_along(stored, p, i));
            assert(path[i] == p[i] && path[i + 1] == p[i + 1]);
        } else {
            let j = i - (p.len() - 1);
            assert(step_along(stored, q, j));
            if i == p.len() - 1 {
                assert(path[i] == p.last());
            } else {
                assert(path[i] == q[j]);
            }
            assert(path[i + 1] == q[j + 1]);
        }
    }
    assert(refers_along(stored, path));
    if q.len() == 1 {
        assert(path.last() == p.last());
    } else {
        assert(path.last() == q.last());
    }
}

/// What references lead to in a store they lead to in any store that holds it.
pub proof fn lemma_reaches_shrunk(old: Map<Seq<u8>, ThesisView>, new: Map<Seq<u8>, ThesisView>, a: Seq<u8>, b: Seq<u8>)
    requires
        shrunk(old, new),
        reaches(new, a, b),
    ensures
        reaches(old, a, b),
{
    let p = choose|path: Seq<Seq<u8>>|
        #[trigger] refers_along(new, path) && path.len() >= 1 && path[0] == a && path.last() == b;
    assert forall|i: int| 0 <= i < p.len() - 1 implies #[trigger] step_along(old, p, i) by {
        assert(step_along(new, p, i));
    }
    assert(refers_along(old, p));
}

/// Removing a thesis keeps every other thesis that refers to nothing, such as the theses a
/// removed relation joins when they are texts without references.
pub proof fn lemma_removal_keeps_unreferring(old: Map<Seq<u8>, ThesisView>, new: Map<Seq<u8>, ThesisView>, id: Seq<u8>, k: Seq<u8>)
    requires
        keeps_unrelated(old, new, id),
        old.contains_key(k),
        k != id,
        content_references(old[k].content).len() == 0,
    ensures
        new.contains_key(k),
        new[k] == old[k],
{
    if reaches(old, k, id) {
        let p = choose|path: Seq<Seq<u8>>|
            #[trigger] refers_along(old, path) && path.len() >= 1 && path[0] == k && path.last() == id;
        assert(p.len() >= 2);
        assert(step_along(old, p, 0));
    }
}

/// A store that holds part of a finite store, without one of its theses, holds fewer.
proof fn lemma_shrunk_size(old: Map<Seq<u8>, ThesisView>, new: Map<Seq<u8>, ThesisView>, id: Seq<u8>)
    requires
        shrunk(old, new),
        old.dom().finite(),
        old.contains_key(id),
        !new.contains_key(id),
    ensures
        new.dom().finite(),
        new.dom().len() < old.dom().len(),
{
    assert(new.dom().subset_of(old.dom().remove(id)));
    vstd::set_lib::lemma_len_subset(new.dom(), old.dom().remove(id));
}

/// A step of removal that keeps what does not lead to `r`, where `r` leads to `id`, keeps
/// what does not lead to `id`.
proof fn lemma_keeps_through(
    start: Map<Seq<u8>, ThesisView>,
    before: Map<Seq<u8>, ThesisView>,
    after: Map<Seq<u8>, ThesisView>,
    r: Seq<u8>,
    id: Seq<u8>,
)
    requires
        keeps_unrelated(start, before, id),
        shrunk(start, before),
        keeps_unrelated(before, after, r),
        reaches(start, r, id),
    ensures
        keeps_unrelated(start, after, id),
{
    assert forall|k: Seq<u8>| #[trigger] start.contains_key(k) && !reaches(start, k, id) implies after.contains_key(k)
        && after[k] == start[k] by {
        assert(before.contains_key(k) && before[k] == start[k]);
        if reaches(before, k, r) {
            lemma_reaches_shrunk(start, before, k, r);
            lemma_reaches_trans(start, k, r, id);
        }
    }
}

/// Removes a thesis, the relations from or to it, and, in turn, every thesis that still
/// refers to it; nothing when no thesis with this identifier is stored. Every thesis from
/// which references do not lead to the removed one stays. On a store that never fails it
/// succeeds.
pub fn remove_thesis<W: WriteTransactionMethods + ?Sized>(store: &mut W, thesis_id: &DocumentId) -> (r: Result<(), WoolError>)
    ensures
        r is Ok ==> removed_from(old(store).stored(), final(store).stored(), thesis_id@),
        r is Ok ==> keeps_unrelated(old(store).stored(), final(store).stored(), thesis_id@),
        r is Ok && !old(store).stored().contains_key(thesis_id@) ==> final(store).stored() == old(store).stored(),
        old(store).reliable() && old(store).stored().dom().finite() && old(store).stored().dom().len() <= u64::MAX
            ==> r is Ok,
        final(store).reliable() == old(store).reliable(),
{
    remove_thesis_within(store, thesis_id, u64::MAX)
}

/// `new` is what is left of `old` after removing the thesis `id` and what refers to it: it
/// holds only what `old` held, not `id`, and, when `id` was stored, no thesis that refers
/// to it.
pub open spec fn removed_from(old: Map<Seq<u8>, ThesisView>, new: Map<Seq<u8>, ThesisView>, id: Seq<u8>) -> bool {
    &&& shrunk(old, new)
    &&& !new.contains_key(id)
    &&& old.contains_key(id) ==> forall|k: Seq<u8>| #[trigger] new.contains_key(k) ==> !refers_to(new[k], id)
}

/// Removes as `remove_thesis` does, going at most `depth` theses deep. Each level removes a
/// stored thesis before going down, so a store that holds fewer theses than `depth` is never
/// gone through that deep; one that seems to is refused.
fn remove_thesis_within<W: WriteTransactionMethods + ?Sized>(store: &mut W, thesis_id: &DocumentId, depth: u64) -> (r: Result<(), WoolError>)
    ensures
        r is Ok ==> removed_from(old(store).stored(), final(store).stored(), thesis_id@),
        r is Ok ==> keeps_unrelated(old(store).stored(), final(store).stored(), thesis_id@),
        r is Ok && !old(store).stored().contains_key(thesis_id@) ==> final(store).stored() == old(store).stored(),
        old(store).reliable() && old(store).stored().dom().finite() && old(store).stored().dom().len() <= depth
            ==> r is Ok,
        final(store).reliable() == old(store).reliable(),
    decreases depth,
{
    let ghost start = store.stored();
    let ghost rel = store.reliable();
    let ghost ok = rel && start.dom().finite() && start.dom().len() <= depth;
    if store.contains_thesis(thesis_id)? {
        proof {
            if ok {
                assert(start.dom().remove(thesis_id@).len() == start.dom().len() - 1);
            }
        }
        if depth == 0 {
            return Err(WoolError::Storage(thesis_id.to_string()));
        }
        store.remove_stored_thesis(thesis_id)?;
        proof {
            lemma_reaches_itself(start, thesis_id@);
        }
        let ghost mid = store.stored();
        let relations = store.relations_of(thesis_id)?;
        let mut i: usize = 0;
        while i < relations.len()
            invariant
                i <= relations@.len(),
                shrunk(start, store.stored()),
                shrunk(start, mid),
                !store.stored().contains_key(thesis_id@),
                keeps_unrelated(start, store.stored(), thesis_id@),
                exactly_stored_ids(mid, relations@, |t: ThesisView| relation_with_end(t, thesis_id@)),
                store.reliable() == rel,
                rel == old(store).reliable(),
                start == old(store).stored(),
                ok == (rel && start.dom().finite() && start.dom().len() <= depth),
            decreases relations@.len() - i,
        {
            proof {
                let rel = relations@[i as int]@;
                assert(mid.contains_key(rel) && relation_with_end(mid[rel], thesis_id@));
                assert(content_references(mid[rel].content)[0] == mid[rel].content->Relation_0.from);
                assert(content_references(mid[rel].content)[1] == mid[rel].content->Relation_0.to);
                assert(start[rel] == mid[rel]);
                lemma_reaches_step(start, rel, thesis_id@);
            }
            store.remove_stored_thesis(&relations[i])?;
            i = i + 1;
        }
        let ghost listed = store.stored();
        let referring = store.where_referenced(thesis_id)?;
        let mut j: usize = 0;
        while j < referring.len()
            invariant
                j <= referring@.len(),
                depth > 0,
                shrunk(start, store.stored()),
                shrunk(listed, store.stored()),
                !store.stored().contains_key(thesis_id@),
                exactly_stored_ids(listed, referring@, |t: ThesisView| refers_to(t, thesis_id@)),
                forall|m: int| 0 <= m < j ==> !store.stored().contains_key(#[trigger] referring@[m]@),
                shrunk(start, listed),
                keeps_unrelated(start, store.stored(), thesis_id@),
                store.reliable() == rel,
                rel == old(store).reliable(),
                start == old(store).stored(),
                ok == (rel && start.dom().finite() && start.dom().len() <= depth),
                start.contains_key(thesis_id@),
            decreases referring@.len() - j,
        {
            proof {
                if ok {
                    lemma_shrunk_size(start, store.stored(), thesis_id@);
                }
            }
            proof {
                let x = referring@[j as int]@;
                assert(listed.contains_key(x) && refers_to(listed[x], thesis_id@));
                lemma_reaches_step(start, x, thesis_id@);
            }
            let ghost before = store.stored();
            remove_thesis_within(store, &referring[j], depth - 1)?;
            proof {
                lemma_keeps_through(start, before, store.stored(), referring@[j as int]@, thesis_id@);
            }
            j = j + 1;
        }
        assert forall|k: Seq<u8>| #[trigger] store.stored().contains_key(k) implies !refers_to(store.stored()[k], thesis_id@) by {
            if refers_to(store.stored()[k], thesis_id@) {
                assert(listed.contains_key(k) && listed[k] == store.stored()[k]);
                let m = choose|m: int| 0 <= m < referring@.len() && referring@[m]@ == k;
            }
        }
    }
    Ok(())
}

} // verus!
