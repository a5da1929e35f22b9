use vstd::prelude::*;

use crate::alias::Alias;
use crate::command::{Command, CommandView};
use crate::document_id::{id_text, DocumentId};
use crate::error::WoolError;
use crate::strings::{push_char, push_str};
use crate::tag::Tag;
use crate::text::{labelled_text, Entity, EntityView, Text};
use crate::transaction::{alias_in, refers_to_nothing, text_store_aliases, ReadTransactionMethods};
use crate::thesis::ThesisView;

verus! {

/// How a thesis is named in a written command: by its alias, or else by its identifier.
pub open spec fn id_label(id: Seq<u8>, alias: Option<Seq<char>>) -> Seq<char> {
    match alias {
        Some(a) => a,
        None => id_text(id),
    }
}

/// The labels of the references of a text, given the alias (if any) of each entity's thesis.
pub open spec fn reference_labels(t: Seq<EntityView>, aliases: Seq<Option<Seq<char>>>) -> Seq<Seq<char>> {
    Seq::new(
        t.len(),
        |i: int|
            match t[i] {
                EntityView::Reference(id) => id_label(id, aliases[i]),
                _ => seq![],
            },
    )
}

pub open spec fn aliases_view(a: Seq<Option<Alias>>) -> Seq<Option<Seq<char>>> {
    a.map_values(|x: Option<Alias>| match x {
        Some(x) => Some(x@),
        None => None,
    })
}

/// Tags joined by single spaces.
pub open spec fn join_tags(tags: Seq<Seq<char>>) -> Seq<char>
    decreases tags.len(),
{
    if tags.len() == 0 {
        seq![]
    } else if tags.len() == 1 {
        tags[0]
    } else {
        join_tags(tags.drop_last()) + seq![' '] + tags.last()
    }
}

pub open spec fn may_prefix() -> Seq<char> {
    seq!['/', 'm', 'a', 'y', ' ']
}

pub open spec fn alias_infix() -> Seq<char> {
    seq![' ', 'a', 'l', 'i', 'a', 's', ' ']
}

pub open spec fn tag_infix() -> Seq<char> {
    seq![' ', 't', 'a', 'g', ' ']
}

pub open spec fn not_tag_infix() -> Seq<char> {
    seq![' ', 'n', 'o', 't', ' ', 't', 'a', 'g', ' ']
}

/// How a relation is written: `from kind to`, each thesis by its label.
pub open spec fn relation_line(from: Seq<char>, kind: Seq<char>, to: Seq<char>) -> Seq<char> {
    from + seq![' '] + kind + seq![' '] + to
}

/// The line that writes a command, given the aliases (if any) of the theses it names:
/// for a text, one per entity; for a relation, of `from` and `to`; else of its thesis.
pub open spec fn command_line(c: CommandView, aliases: Seq<Option<Seq<char>>>) -> Seq<char> {
    match c {
        CommandView::AddTextThesisWithAlias { text, alias } => may_prefix() + alias + alias_infix()
            + labelled_text(text, reference_labels(text, aliases)),
        CommandView::AddTextThesisWithoutAlias(text) => may_prefix() + labelled_text(
            text,
            reference_labels(text, aliases),
        ),
        CommandView::AddRelationThesisWithAlias { relation, alias } => may_prefix() + alias
            + alias_infix() + relation_line(
            id_label(relation.from, aliases[0]),
            relation.kind,
            id_label(relation.to, aliases[1]),
        ),
        CommandView::AddRelationThesisWithoutAlias(relation) => may_prefix() + relation_line(
            id_label(relation.from, aliases[0]),
            relation.kind,
            id_label(relation.to, aliases[1]),
        ),
        CommandView::SetAlias { thesis_id, alias } => may_prefix() + alias + alias_infix() + id_label(
            thesis_id,
            aliases[0],
        ),
        CommandView::AddTags { thesis_id, tags } => may_prefix() + join_tags(tags) + tag_infix()
            + id_label(thesis_id, aliases[0]),
        CommandView::RemoveTags { thesis_id, tags } => may_prefix() + join_tags(tags)
            + not_tag_infix() + id_label(thesis_id, aliases[0]),
    }
}

/// How many aliases writing a command needs.
pub open spec fn aliases_needed(c: CommandView) -> nat {
    match c {
        CommandView::AddTextThesisWithAlias { text, .. } => text.len(),
        CommandView::AddTextThesisWithoutAlias(text) => text.len(),
        CommandView::AddRelationThesisWithAlias { .. } => 2,
        CommandView::AddRelationThesisWithoutAlias(_) => 2,
        _ => 1,
    }
}

/// The store's aliases of the theses a command names: of each reference of a text, of a
/// relation's `from` and `to`, or of the command's thesis.
pub open spec fn command_store_aliases(c: CommandView, stored: Map<Seq<u8>, ThesisView>) -> Seq<Option<Seq<char>>> {
    match c {
        CommandView::AddTextThesisWithAlias { text, .. } => text_store_aliases(text, stored),
        CommandView::AddTextThesisWithoutAlias(text) => text_store_aliases(text, stored),
        CommandView::AddRelationThesisWithAlias { relation, .. } => seq![alias_in(stored, relation.from), alias_in(stored, relation.to)],
        CommandView::AddRelationThesisWithoutAlias(relation) => seq![alias_in(stored, relation.from), alias_in(stored, relation.to)],
        CommandView::SetAlias { thesis_id, .. } => seq![alias_in(stored, thesis_id)],
        CommandView::AddTags { thesis_id, .. } => seq![alias_in(stored, thesis_id)],
        CommandView::RemoveTags { thesis_id, .. } => seq![alias_in(stored, thesis_id)],
    }
}

/// The command names no thesis: it is a text command whose text refers to nothing.
pub open spec fn names_no_thesis(c: CommandView) -> bool {
    match c {
        CommandView::AddTextThesisWithAlias { text, .. } => refers_to_nothing(text),
        CommandView::AddTextThesisWithoutAlias(text) => refers_to_nothing(text),
        _ => false,
    }
}

/// Appends the label of a thesis.
pub fn push_label(out: &mut String, id: &DocumentId, alias: &Option<Alias>)
    ensures
        final(out)@ == old(out)@ + id_label(id@, match alias {
            Some(a) => Some(a@),
            None => None,
        }),
{
    match alias {
        Some(a) => push_str(out, a.0.as_str()),
        None => {
            let written = id.to_string();
            push_str(out, written.as_str());
        },
    }
}

/// Writes a text with each reference as `[alias]`, or `[identifier]` when its thesis has no
/// alias; `aliases[i]` belongs to the `i`-th entity.
pub fn compose_text_with(text: &Text, aliases: &Vec<Option<Alias>>) -> (s: String)
    requires
        aliases@.len() >= text@.len(),
    ensures
        s@ == labelled_text(text@, reference_labels(text@, aliases_view(aliases@))),
{
    let mut s = String::new();
    let n = text.entities.len();
    let mut i: usize = 0;
    let ghost labels = reference_labels(text@, aliases_view(aliases@));
    while i < n
        invariant
            n == text.entities@.len(),
            i <= n,
            aliases@.len() >= n,
            labels == reference_labels(text@, aliases_view(aliases@)),
            s@ == labelled_text(text@.take(i as int), labels),
        decreases n - i,
    {
        match &text.entities[i] {
            Entity::Word(w) => push_str(&mut s, w.as_str()),
            Entity::Other(o) => push_str(&mut s, o.as_str()),
            Entity::Reference(id) => {
                push_char(&mut s, '[');
                push_label(&mut s, id, &aliases[i]);
                push_char(&mut s, ']');
            },
        }
        assert(text@.take(i + 1).drop_last() =~= text@.take(i as int));
        assert(s@ =~= labelled_text(text@.take(i + 1), labels));
        i = i + 1;
    }
    assert(text@.take(n as int) =~= text@);
    s
}

/// Appends tags joined by single spaces.
pub fn push_tags(out: &mut String, tags: &Vec<Tag>)
    ensures
        final(out)@ == old(out)@ + join_tags(crate::command::tags_view(tags@)),
{
    let n = tags.len();
    let mut i: usize = 0;
    let ghost tv = crate::command::tags_view(tags@);
    while i < n
        invariant
            n == tags@.len(),
            i <= n,
            tv == crate::command::tags_view(tags@),
            out@ == old(out)@ + join_tags(tv.take(i as int)),
        decreases n - i,
    {
        if i > 0 {
            push_char(out, ' ');
        }
        push_str(out, tags[i].0.as_str());
        assert(tv.take(i + 1).drop_last() =~= tv.take(i as int));
        proof {
            if i == 0 {
                assert(join_tags(tv.take(1)) == tv[0]);
            }
        }
        assert(out@ =~= old(out)@ + join_tags(tv.take(i + 1)));
        i = i + 1;
    }
    assert(tv.take(n as int) =~= tv);
}

impl Command {
    /// Writes the command as a line, naming theses by their aliases in the store, or else by
    /// their identifiers. A text command whose text refers to no thesis names none, and is
    /// written without asking the store.
    pub fn to_parsable<T: ReadTransactionMethods>(&self, read_able_transaction: &T) -> (r: Result<String, WoolError>)
        ensures
            r matches Ok(s) ==> s@ == command_line(self@, command_store_aliases(self@, read_able_transaction.stored())),
            names_no_thesis(self@) ==> (r matches Ok(s) && s@ == command_line(self@, seq![])),
    {
        let aliases: Vec<Option<Alias>> = match self {
            Command::AddTextThesisWithAlias { text, .. } => crate::transaction::text_aliases(read_able_transaction, text)?,
            Command::AddTextThesisWithoutAlias(text) => crate::transaction::text_aliases(read_able_transaction, text)?,
            Command::AddRelationThesisWithAlias { relation, .. } => {
                let from = read_able_transaction.get_alias_by_thesis_id(&relation.from)?;
                let to = read_able_transaction.get_alias_by_thesis_id(&relation.to)?;
                vec![from, to]
            },
            Command::AddRelationThesisWithoutAlias(relation) => {
                let from = read_able_transaction.get_alias_by_thesis_id(&relation.from)?;
                let to = read_able_transaction.get_alias_by_thesis_id(&relation.to)?;
                vec![from, to]
            },
            Command::SetAlias { thesis_id, .. } => vec![read_able_transaction.get_alias_by_thesis_id(thesis_id)?],
            Command::AddTags { thesis_id, .. } => vec![read_able_transaction.get_alias_by_thesis_id(thesis_id)?],
            Command::RemoveTags { thesis_id, .. } => vec![read_able_transaction.get_alias_by_thesis_id(thesis_id)?],
        };
        let s = self.to_parsable_with(&aliases);
        assert(s@ == command_line(self@, aliases_view(aliases@)));
        assert(aliases_view(aliases@) =~= command_store_aliases(self@, read_able_transaction.stored()));
        proof {
            match self@ {
                CommandView::AddTextThesisWithAlias { text, .. } => {
                    if refers_to_nothing(text) {
                        assert(reference_labels(text, aliases_view(aliases@)) =~= reference_labels(text, seq![]));
                    }
                },
                CommandView::AddTextThesisWithoutAlias(text) => {
                    if refers_to_nothing(text) {
                        assert(reference_labels(text, aliases_view(aliases@)) =~= reference_labels(text, seq![]));
                    }
                },
                _ => {},
            }
        }
        Ok(s)
    }

    /// Writes the command as a line, naming theses by the given aliases (see `command_line`).
    pub fn to_parsable_with(&self, aliases: &Vec<Option<Alias>>) -> (s: String)
        requires
            aliases@.len() >= aliases_needed(self@),
        ensures
            s@ == command_line(self@, aliases_view(aliases@)),
    {
        let mut s = String::new();
        proof {
            reveal_strlit("/may ");
            reveal_strlit(" alias ");
            reveal_strlit(" tag ");
            reveal_strlit(" not tag ");
        }
        push_str(&mut s, "/may ");
        match self {
            Command::AddTextThesisWithAlias { text, alias } => {
                push_str(&mut s, alias.0.as_str());
                push_str(&mut s, " alias ");
                let written = compose_text_with(text, aliases);
                push_str(&mut s, written.as_str());
            },
            Command::AddTextThesisWithoutAlias(text) => {
                let written = compose_text_with(text, aliases);
                push_str(&mut s, written.as_str());
            },
            Command::AddRelationThesisWithAlias { relation, alias } => {
                push_str(&mut s, alias.0.as_str());
                push_str(&mut s, " alias ");
                push_label(&mut s, &relation.from, &aliases[0]);
                push_char(&mut s, ' ');
                push_str(&mut s, relation.kind.0.as_str());
                push_char(&mut s, ' ');
                push_label(&mut s, &relation.to, &aliases[1]);
            },
            Command::AddRelationThesisWithoutAlias(relation) => {
                push_label(&mut s, &relation.from, &aliases[0]);
                push_char(&mut s, ' ');
                push_str(&mut s, relation.kind.0.as_str());
                push_char(&mut s, ' ');
                push_label(&mut s, &relation.to, &aliases[1]);
            },
            Command::SetAlias { thesis_id, alias } => {
                push_str(&mut s, alias.0.as_str());
                push_str(&mut s, " alias ");
                push_label(&mut s, thesis_id, &aliases[0]);
            },
            Command::AddTags { thesis_id, tags } => {
                push_tags(&mut s, tags);
                push_str(&mut s, " tag ");
                push_label(&mut s, thesis_id, &aliases[0]);
            },
            Command::RemoveTags { thesis_id, tags } => {
                push_tags(&mut s, tags);
                push_str(&mut s, " not tag ");
                push_label(&mut s, thesis_id, &aliases[0]);
            },
        }
        assert(s@ =~= command_line(self@, aliases_view(aliases@)));
        s
    }
}

} // verus!
