use vstd::prelude::*;

use crate::alias::{alias_valid, Alias};
use crate::command::{tags_valid, tags_view, validate_tags, Command, CommandView};
use crate::content::{content_id, content_valid, Content, ContentView};
use crate::document_id::DocumentId;
use crate::error::WoolError;
use crate::tag::Tag;
use crate::text::{Entity, EntityView};

verus! {

/// A statement kept in the store: its content, an optional alias and its tags.
#[derive(Debug, PartialEq, Eq)]
pub struct Thesis {
    pub alias: Option<Alias>,
    pub content: Content,
    pub tags: Vec<Tag>,
}

pub struct ThesisView {
    pub alias: Option<Seq<char>>,
    pub content: ContentView,
    pub tags: Seq<Seq<char>>,
}

pub open spec fn alias_view(a: Option<Alias>) -> Option<Seq<char>> {
    match a {
        Some(a) => Some(a@),
        None => None,
    }
}

impl View for Thesis {
    type V = ThesisView;

    open spec fn view(&self) -> ThesisView {
        ThesisView { alias: alias_view(self.alias), content: self.content@, tags: tags_view(self.tags@) }
    }
}

/// A copy of a list of tags.
pub fn clone_tags(tags: &Vec<Tag>) -> (r: Vec<Tag>)
    ensures
        r@ == tags@,
{
    let mut r: Vec<Tag> = Vec::new();
    let mut i: usize = 0;
    while i < tags.len()
        invariant
            i <= tags@.len(),
            r@ == tags@.take(i as int),
        decreases tags@.len() - i,
    {
        r.push(tags[i].clone());
        assert(tags@.take(i + 1) =~= tags@.take(i as int).push(tags@[i as int]));
        i = i + 1;
    }
    assert(tags@.take(i as int) =~= tags@);
    r
}

pub fn clone_alias(alias: &Option<Alias>) -> (r: Option<Alias>)
    ensures
        r == *alias,
{
    match alias {
        Some(a) => Some(a.clone()),
        None => None,
    }
}

impl Clone for Thesis {
    fn clone(&self) -> (r: Self)
        ensures
            r@ == self@,
    {
        Thesis { alias: clone_alias(&self.alias), content: self.content.clone(), tags: clone_tags(&self.tags) }
    }
}

/// The identifiers a text refers to, in order of appearance.
pub open spec fn text_references(t: Seq<EntityView>) -> Seq<Seq<u8>>
    decreases t.len(),
{
    if t.len() == 0 {
        seq![]
    } else {
        text_references(t.drop_last()) + match t.last() {
            EntityView::Reference(id) => seq![id],
            _ => seq![],
        }
    }
}

/// The identifiers of the theses a content refers to.
pub open spec fn content_references(c: ContentView) -> Seq<Seq<u8>> {
    match c {
        ContentView::Text(t) => text_references(t),
        ContentView::Relation(r) => seq![r.from, r.to],
    }
}

pub open spec fn thesis_valid(t: ThesisView) -> bool {
    &&& t.alias matches Some(a) ==> alias_valid(a)
    &&& content_valid(t.content)
    &&& tags_valid(t.tags)
}

/// The command that adds a thesis with this content and alias and no tags.
pub open spec fn add_command(content: ContentView, alias: Option<Seq<char>>) -> CommandView {
    match content {
        ContentView::Text(text) => match alias {
            Some(alias) => CommandView::AddTextThesisWithAlias { text, alias },
            None => CommandView::AddTextThesisWithoutAlias(text),
        },
        ContentView::Relation(relation) => match alias {
            Some(alias) => CommandView::AddRelationThesisWithAlias { relation, alias },
            None => CommandView::AddRelationThesisWithoutAlias(relation),
        },
    }
}

/// The commands that recreate a thesis: adding it without tags, then tagging it when it
/// has tags.
pub open spec fn thesis_commands(t: ThesisView) -> Seq<CommandView> {
    let first = add_command(t.content, t.alias);
    if t.tags.len() == 0 {
        seq![first]
    } else {
        seq![first, CommandView::AddTags { thesis_id: content_id(t.content), tags: t.tags }]
    }
}

pub open spec fn ids_view(ids: Seq<DocumentId>) -> Seq<Seq<u8>> {
    ids.map_values(|id: DocumentId| id@)
}

pub open spec fn commands_view(c: Seq<Command>) -> Seq<CommandView> {
    c.map_values(|c: Command| c@)
}

impl Thesis {
    /// The identifier, which only depends on the content.
    pub fn id(&self) -> (id: DocumentId)
        ensures
            id@ == content_id(self@.content),
    {
        self.content.id()
    }

    pub fn validated(&self) -> (r: Result<&Self, WoolError>)
        ensures
            r is Ok <==> thesis_valid(self@),
            r matches Ok(x) ==> x == self,
    {
        if let Some(alias) = &self.alias {
            alias.validated()?;
        }
        self.content.validated()?;
        validate_tags(&self.tags)?;
        Ok(self)
    }

    /// The identifiers of the theses this one refers to.
    pub fn references(&self) -> (r: Vec<DocumentId>)
        ensures
            ids_view(r@) == content_references(self@.content),
    {
        match &self.content {
            Content::Text(text) => {
                let mut r: Vec<DocumentId> = Vec::new();
                let n = text.entities.len();
                let mut i: usize = 0;
                while i < n
                    invariant
                        n == text.entities@.len(),
                        i <= n,
                        ids_view(r@) == text_references(text@.take(i as int)),
                    decreases n - i,
                {
                    if let Entity::Reference(id) = &text.entities[i] {
                        r.push(*id);
                    }
                    assert(text@.take(i + 1).drop_last() =~= text@.take(i as int));
                    assert(ids_view(r@) =~= text_references(text@.take(i + 1)));
                    i = i + 1;
                }
                assert(text@.take(n as int) =~= text@);
                r
            },
            Content::Relation(relation) => {
                let r = vec![relation.from, relation.to];
                assert(ids_view(r@) =~= seq![relation.from@, relation.to@]);
                r
            },
        }
    }

    /// The commands that recreate this thesis.
    pub fn to_commands(&self) -> (r: Vec<Command>)
        ensures
            commands_view(r@) == thesis_commands(self@),
    {
        let mut result: Vec<Command> = Vec::new();
        let first = match &self.content {
            Content::Text(text) => match &self.alias {
                Some(alias) => Command::AddTextThesisWithAlias { text: text.clone(), alias: alias.clone() },
                None => Command::AddTextThesisWithoutAlias(text.clone()),
            },
            Content::Relation(relation) => match &self.alias {
                Some(alias) => Command::AddRelationThesisWithAlias {
                    relation: relation.clone(),
                    alias: alias.clone(),
                },
                None => Command::AddRelationThesisWithoutAlias(relation.clone()),
            },
        };
        result.push(first);
        if self.tags.len() > 0 {
            result.push(Command::AddTags { thesis_id: self.id(), tags: clone_tags(&self.tags) });
        }
        assert(commands_view(result@) =~= thesis_commands(self@));
        result
    }
}

} // verus!

verus! {

/// The commands that recreate a valid thesis are valid commands.
pub proof fn lemma_valid_thesis_valid_commands(t: ThesisView)
    requires
        thesis_valid(t),
    ensures
        forall|i: int| 0 <= i < thesis_commands(t).len() ==> crate::command::command_valid(#[trigger] thesis_commands(t)[i]),
{
    match t.content {
        ContentView::Text(_) => {},
        ContentView::Relation(_) => {},
    }
}

} // verus!
