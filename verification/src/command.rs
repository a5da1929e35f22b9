use vstd::prelude::*;

use crate::alias::{alias_valid, Alias};
use crate::content::{content_id, Content, ContentView};
use crate::document_id::DocumentId;
use crate::error::WoolError;
use crate::grammar::{
    match_add_tags, match_add_tags_exec, match_relation, match_relation_exec,
    match_relation_with_alias, match_relation_with_alias_exec, match_remove_tags,
    match_remove_tags_exec, match_set_alias, match_set_alias_exec, match_text, match_text_exec,
    match_text_with_alias, match_text_with_alias_exec, split_at_spaces, split_at_spaces_exec,
    strings_view,
};
use crate::reference::{reference_of, reference_readable, Reference};
use crate::relation::{relation_valid, Relation, RelationView};
use crate::relation_kind::relation_kind_valid;
use crate::relation_kind::RelationKind;
use crate::resolver::{others_kept, AliasesResolver};
use crate::strings::{chars_of, same_chars, string_of};
use crate::tag::{tag_valid, Tag};
use crate::text::{text_valid, EntityView, Text};

verus! {

/// A change to a store of theses, as read from or written to one command line.
#[derive(Debug, PartialEq, Eq)]
pub enum Command {
    AddTextThesisWithAlias { text: Text, alias: Alias },
    AddTextThesisWithoutAlias(Text),
    AddRelationThesisWithAlias { relation: Relation, alias: Alias },
    AddRelationThesisWithoutAlias(Relation),
    SetAlias { thesis_id: DocumentId, alias: Alias },
    AddTags { thesis_id: DocumentId, tags: Vec<Tag> },
    RemoveTags { thesis_id: DocumentId, tags: Vec<Tag> },
}

pub enum CommandView {
    AddTextThesisWithAlias { text: Seq<EntityView>, alias: Seq<char> },
    AddTextThesisWithoutAlias(Seq<EntityView>),
    AddRelationThesisWithAlias { relation: RelationView, alias: Seq<char> },
    AddRelationThesisWithoutAlias(RelationView),
    SetAlias { thesis_id: Seq<u8>, alias: Seq<char> },
    AddTags { thesis_id: Seq<u8>, tags: Seq<Seq<char>> },
    RemoveTags { thesis_id: Seq<u8>, tags: Seq<Seq<char>> },
}

pub open spec fn tags_view(tags: Seq<Tag>) -> Seq<Seq<char>> {
    tags.map_values(|t: Tag| t@)
}

impl View for Command {
    type V = CommandView;

    open spec fn view(&self) -> CommandView {
        match self {
            Command::AddTextThesisWithAlias { text, alias } => CommandView::AddTextThesisWithAlias {
                text: text@,
                alias: alias@,
            },
            Command::AddTextThesisWithoutAlias(text) => CommandView::AddTextThesisWithoutAlias(text@),
            Command::AddRelationThesisWithAlias { relation, alias } => CommandView::AddRelationThesisWithAlias {
                relation: relation@,
                alias: alias@,
            },
            Command::AddRelationThesisWithoutAlias(relation) => CommandView::AddRelationThesisWithoutAlias(
                relation@,
            ),
            Command::SetAlias { thesis_id, alias } => CommandView::SetAlias {
                thesis_id: thesis_id@,
                alias: alias@,
            },
            Command::AddTags { thesis_id, tags } => CommandView::AddTags {
                thesis_id: thesis_id@,
                tags: tags_view(tags@),
            },
            Command::RemoveTags { thesis_id, tags } => CommandView::RemoveTags {
                thesis_id: thesis_id@,
                tags: tags_view(tags@),
            },
        }
    }
}

pub open spec fn tags_valid(tags: Seq<Seq<char>>) -> bool {
    forall|i: int| 0 <= i < tags.len() ==> tag_valid(#[trigger] tags[i])
}

/// Every part of the command that has a form (alias, tags, text words, relation kind) has it.
pub open spec fn command_valid(c: CommandView) -> bool {
    match c {
        CommandView::AddTextThesisWithAlias { text, alias } => text_valid(text) && alias_valid(alias),
        CommandView::AddTextThesisWithoutAlias(text) => text_valid(text),
        CommandView::AddRelationThesisWithAlias { relation, alias } => relation_valid(relation)
            && alias_valid(alias),
        CommandView::AddRelationThesisWithoutAlias(relation) => relation_valid(relation),
        CommandView::SetAlias { alias, .. } => alias_valid(alias),
        CommandView::AddTags { tags, .. } => tags_valid(tags),
        CommandView::RemoveTags { tags, .. } => tags_valid(tags),
    }
}

impl Clone for Command {
    fn clone(&self) -> (r: Self)
        ensures
            r@ == self@,
    {
        match self {
            Command::AddTextThesisWithAlias { text, alias } => Command::AddTextThesisWithAlias {
                text: text.clone(),
                alias: alias.clone(),
            },
            Command::AddTextThesisWithoutAlias(text) => Command::AddTextThesisWithoutAlias(text.clone()),
            Command::AddRelationThesisWithAlias { relation, alias } => Command::AddRelationThesisWithAlias {
                relation: relation.clone(),
                alias: alias.clone(),
            },
            Command::AddRelationThesisWithoutAlias(relation) => Command::AddRelationThesisWithoutAlias(
                relation.clone(),
            ),
            Command::SetAlias { thesis_id, alias } => Command::SetAlias {
                thesis_id: *thesis_id,
                alias: alias.clone(),
            },
            Command::AddTags { thesis_id, tags } => Command::AddTags {
                thesis_id: *thesis_id,
                tags: crate::thesis::clone_tags(tags),
            },
            Command::RemoveTags { thesis_id, tags } => Command::RemoveTags {
                thesis_id: *thesis_id,
                tags: crate::thesis::clone_tags(tags),
            },
        }
    }
}

/// Checks every tag of the list, in order.
pub fn validate_tags(tags: &Vec<Tag>) -> (r: Result<(), WoolError>)
    ensures
        r is Ok <==> tags_valid(tags_view(tags@)),
{
    let mut i: usize = 0;
    while i < tags.len()
        invariant
            i <= tags@.len(),
            forall|j: int| 0 <= j < i ==> tag_valid(#[trigger] tags_view(tags@)[j]),
        decreases tags@.len() - i,
    {
        let checked = tags[i].validated();
        if checked.is_err() {
            assert(tags_view(tags@)[i as int] == tags@[i as int]@);
            return Err(WoolError::InvalidTag(tags[i].0.clone()));
        }
        i = i + 1;
    }
    Ok(())
}

/// The kind `k` is among `kinds`.
pub open spec fn kind_supported(kinds: Seq<RelationKind>, k: Seq<char>) -> bool {
    exists|i: int| 0 <= i < kinds.len() && (#[trigger] kinds[i])@ == k
}

pub fn kinds_contain(kinds: &Vec<RelationKind>, kind: &RelationKind) -> (r: bool)
    ensures
        r == kind_supported(kinds@, kind@),
{
    let mut i: usize = 0;
    while i < kinds.len()
        invariant
            i <= kinds@.len(),
            forall|j: int| 0 <= j < i ==> (#[trigger] kinds@[j])@ != kind@,
        decreases kinds@.len() - i,
    {
        if same_chars(kinds[i].0.as_str(), kind.0.as_str()) {
            assert(kinds@[i as int]@ == kind@);
            return true;
        }
        i = i + 1;
    }
    false
}

/// The command is of the form the line has, and holds what the line says directly: the
/// alias, the tags, the relation kind (which must be supported). What references stand for
/// and what texts are read into comes from the resolver.
pub open spec fn read_as(c: CommandView, s: Seq<char>, kinds: Seq<RelationKind>) -> bool {
    match c {
        CommandView::SetAlias { alias, .. } => match_set_alias(s) matches Some((a, _)) && a == alias,
        CommandView::RemoveTags { tags, .. } => match_remove_tags(s) matches Some((g, _)) && tags
            == split_at_spaces(g),
        CommandView::AddTags { tags, .. } => match_add_tags(s) matches Some((g, _)) && tags
            == split_at_spaces(g),
        CommandView::AddRelationThesisWithAlias { relation, alias } => match_relation_with_alias(
            s,
        ) matches Some((a, _, k, _)) && a == alias && relation.kind == k && kind_supported(kinds, k),
        CommandView::AddRelationThesisWithoutAlias(relation) => match_relation(s) matches Some(
            (_, k, _),
        ) && relation.kind == k && kind_supported(kinds, k),
        CommandView::AddTextThesisWithAlias { alias, .. } => match_text_with_alias(s) matches Some(
            (a, _),
        ) && a == alias,
        CommandView::AddTextThesisWithoutAlias(_) => match_text(s) is Some,
    }
}

/// The command's theses are those that `res` takes the references written in the line to
/// stand for, and its text is what `res` reads the line's text into.
pub open spec fn resolved_by<R: AliasesResolver>(c: CommandView, s: Seq<char>, res: R) -> bool {
    match c {
        CommandView::SetAlias { thesis_id, .. } => match_set_alias(s) matches Some((_, l))
            && res.stands_for(reference_of(l), thesis_id),
        CommandView::RemoveTags { thesis_id, .. } => match_remove_tags(s) matches Some((_, l))
            && res.stands_for(reference_of(l), thesis_id),
        CommandView::AddTags { thesis_id, .. } => match_add_tags(s) matches Some((_, l))
            && res.stands_for(reference_of(l), thesis_id),
        CommandView::AddRelationThesisWithAlias { relation, .. } => match_relation_with_alias(
            s,
        ) matches Some((_, f, _, t)) && res.stands_for(reference_of(f), relation.from)
            && res.stands_for(reference_of(t), relation.to),
        CommandView::AddRelationThesisWithoutAlias(relation) => match_relation(s) matches Some(
            (f, _, t),
        ) && res.stands_for(reference_of(f), relation.from) && res.stands_for(
            reference_of(t),
            relation.to,
        ),
        CommandView::AddTextThesisWithAlias { text, .. } => match_text_with_alias(s) matches Some(
            (_, x),
        ) && res.reads_text(x, text),
        CommandView::AddTextThesisWithoutAlias(text) => match_text(s) matches Some(x)
            && res.reads_text(x, text),
    }
}

/// The command gives a thesis an alias.
pub open spec fn gives_alias(c: CommandView) -> bool {
    c is SetAlias || c is AddRelationThesisWithAlias || c is AddTextThesisWithAlias
}

/// The alias the command gives a thesis (empty for the commands that give none).
pub open spec fn given_alias(c: CommandView) -> Seq<char> {
    match c {
        CommandView::SetAlias { alias, .. } => alias,
        CommandView::AddRelationThesisWithAlias { alias, .. } => alias,
        CommandView::AddTextThesisWithAlias { alias, .. } => alias,
        _ => seq![],
    }
}

/// `res` remembers the alias that the command gives, for the thesis it gives it to.
pub open spec fn remembered_by<R: AliasesResolver>(c: CommandView, res: R) -> bool {
    match c {
        CommandView::SetAlias { thesis_id, alias } => res.remembers(alias, thesis_id),
        CommandView::AddRelationThesisWithAlias { relation, alias } => res.remembers(
            alias,
            content_id(ContentView::Relation(relation)),
        ),
        CommandView::AddTextThesisWithAlias { text, alias } => res.remembers(
            alias,
            content_id(ContentView::Text(text)),
        ),
        _ => true,
    }
}

/// No form tried before the command's own that can remember an alias and still fail got
/// that far on the line, so the command was read with the resolver as it was given.
pub open spec fn read_first_hand(c: CommandView, s: Seq<char>, kinds: Seq<RelationKind>) -> bool {
    match c {
        CommandView::AddRelationThesisWithoutAlias(_) => relation_with_alias_refused(s, kinds),
        CommandView::AddTextThesisWithAlias { .. } => relation_with_alias_refused(s, kinds),
        CommandView::AddTextThesisWithoutAlias(_) => relation_with_alias_refused(s, kinds)
            && text_with_alias_refused(s),
        _ => true,
    }
}

//  When each form gives a command. A form is refused when the line alone rules it out (the
//  line has another form, or a part of it is malformed or not allowed), before the resolver
//  is asked; it is ready when the line has it, its parts are valid and the resolver is sure
//  of every reference and text it is asked about.

/// The set-alias form is refused by the line.
pub open spec fn set_alias_refused(s: Seq<char>) -> bool {
    match match_set_alias(s) {
        None => true,
        Some((a, l)) => !alias_valid(a) || !reference_readable(l),
    }
}

/// The set-alias form is ready.
pub open spec fn set_alias_ready<R: AliasesResolver>(s: Seq<char>, res: R) -> bool {
    match_set_alias(s) matches Some((a, l)) && alias_valid(a) && reference_readable(l)
        && res.surely_resolves(reference_of(l))
}

/// A tags form (found as `m`) is refused: not there, its reference malformed, or its thesis
/// found and a tag malformed.
pub open spec fn tags_refused<R: AliasesResolver>(m: Option<(Seq<char>, Seq<char>)>, res: R) -> bool {
    match m {
        None => true,
        Some((g, l)) => !reference_readable(l) || (res.surely_resolves(reference_of(l)) && !tags_valid(
            split_at_spaces(g),
        )),
    }
}

/// A tags form (found as `m`) is ready.
pub open spec fn tags_ready<R: AliasesResolver>(m: Option<(Seq<char>, Seq<char>)>, res: R) -> bool {
    m matches Some((g, l)) && reference_readable(l) && res.surely_resolves(reference_of(l))
        && tags_valid(split_at_spaces(g))
}

/// The relation-with-alias form is refused by the line.
pub open spec fn relation_with_alias_refused(s: Seq<char>, kinds: Seq<RelationKind>) -> bool {
    match match_relation_with_alias(s) {
        None => true,
        Some((a, f, k, t)) => !kind_supported(kinds, k) || !alias_valid(a) || !reference_readable(f),
    }
}

/// The relation-with-alias form is ready.
pub open spec fn relation_with_alias_ready<R: AliasesResolver>(s: Seq<char>, kinds: Seq<RelationKind>, res: R) -> bool {
    match_relation_with_alias(s) matches Some((a, f, k, t)) && kind_supported(kinds, k) && alias_valid(a)
        && reference_readable(f) && reference_readable(t) && res.surely_resolves(reference_of(f))
        && res.surely_resolves(reference_of(t)) && relation_kind_valid(k)
}

/// The relation form is refused by the line.
pub open spec fn relation_refused(s: Seq<char>, kinds: Seq<RelationKind>) -> bool {
    match match_relation(s) {
        None => true,
        Some((f, k, t)) => !kind_supported(kinds, k) || !reference_readable(t),
    }
}

/// The relation form is ready.
pub open spec fn relation_ready<R: AliasesResolver>(s: Seq<char>, kinds: Seq<RelationKind>, res: R) -> bool {
    match_relation(s) matches Some((f, k, t)) && kind_supported(kinds, k) && reference_readable(f)
        && reference_readable(t) && res.surely_resolves(reference_of(f)) && res.surely_resolves(
        reference_of(t),
    ) && relation_kind_valid(k)
}

/// The text-with-alias form is refused by the line.
pub open spec fn text_with_alias_refused(s: Seq<char>) -> bool {
    match match_text_with_alias(s) {
        None => true,
        Some((a, x)) => !alias_valid(a),
    }
}

/// The text-with-alias form is ready.
pub open spec fn text_with_alias_ready<R: AliasesResolver>(s: Seq<char>, res: R) -> bool {
    match_text_with_alias(s) matches Some((a, x)) && alias_valid(a) && res.surely_reads(x)
}

/// The text form is ready.
pub open spec fn text_ready<R: AliasesResolver>(s: Seq<char>, res: R) -> bool {
    match_text(s) matches Some(x) && res.surely_reads(x)
}

/// The first `n` forms, in the order `parse` tries them, are refused.
pub open spec fn first_forms_refused<R: AliasesResolver>(n: nat, s: Seq<char>, kinds: Seq<RelationKind>, res: R) -> bool {
    &&& n > 0 ==> set_alias_refused(s)
    &&& n > 1 ==> tags_refused(match_remove_tags(s), res)
    &&& n > 2 ==> tags_refused(match_add_tags(s), res)
    &&& n > 3 ==> relation_with_alias_refused(s, kinds)
    &&& n > 4 ==> relation_refused(s, kinds)
    &&& n > 5 ==> text_with_alias_refused(s)
}

/// Tags made of the given strings.
pub fn tags_from_strings(v: Vec<String>) -> (r: Vec<Tag>)
    ensures
        tags_view(r@) == strings_view(v@),
{
    let mut r: Vec<Tag> = Vec::new();
    let mut i: usize = 0;
    let n = v.len();
    while i < n
        invariant
            n == v@.len(),
            i <= n,
            tags_view(r@) == strings_view(v@.take(i as int)),
        decreases n - i,
    {
        r.push(Tag(v[i].clone()));
        assert(strings_view(v@.take(i + 1)) =~= strings_view(v@.take(i as int)).push(v@[i as int]@));
        assert(tags_view(r@) =~= strings_view(v@.take(i + 1)));
        i = i + 1;
    }
    assert(v@.take(n as int) =~= v@);
    r
}

impl Command {
    /// The command itself when every part of it has its form.
    pub fn validated(self) -> (r: Result<Self, WoolError>)
        ensures
            r is Ok <==> command_valid(self@),
            r matches Ok(c) ==> c@ == self@,
    {
        match &self {
            Command::AddTextThesisWithAlias { text, alias } => {
                text.validated()?;
                alias.validated()?;
            },
            Command::AddTextThesisWithoutAlias(text) => {
                text.validated()?;
            },
            Command::AddRelationThesisWithAlias { relation, alias } => {
                relation.validated()?;
                alias.validated()?;
            },
            Command::AddRelationThesisWithoutAlias(relation) => {
                relation.validated()?;
            },
            Command::SetAlias { alias, .. } => {
                alias.validated()?;
            },
            Command::AddTags { tags, .. } => {
                validate_tags(tags)?;
            },
            Command::RemoveTags { tags, .. } => {
                validate_tags(tags)?;
            },
        }
        Ok(self)
    }

    fn parse_as_set_alias<R: AliasesResolver>(line: &str, aliases_resolver: &mut R) -> (r: Result<Self, WoolError>)
        ensures
            r matches Ok(c) ==> c@ is SetAlias && read_as(c@, line@, seq![]) && command_valid(c@),
            r matches Ok(c) ==> resolved_by(c@, line@, *old(aliases_resolver)) && remembered_by(c@, *final(aliases_resolver)),
            r matches Ok(c) ==> others_kept(*old(aliases_resolver), *final(aliases_resolver), given_alias(c@)),
            r is Err ==> *final(aliases_resolver) == *old(aliases_resolver),
            match_set_alias(line@) is None ==> (r matches Err(e) && e is NotMatched),
            match_set_alias(line@) matches Some((a, l)) ==> (!alias_valid(a) || !reference_readable(l)
                ==> (r matches Err(e) && e is InvalidAlias)),
            match_set_alias(line@) matches Some((a, l)) ==> (alias_valid(a) && reference_readable(l)
                && old(aliases_resolver).surely_resolves(reference_of(l)) ==> r is Ok),
    {
        let v = chars_of(line);
        let n = v.len();
        match match_set_alias_exec(&v) {
            None => Err(WoolError::NotMatched(line.to_owned())),
            Some((a, b, e)) => {
                let alias = Alias(string_of(&v, a, b));
                alias.validated()?;
                let reference_text = string_of(&v, e, n);
                let thesis_id = aliases_resolver.get_thesis_id_by_reference(&Reference::new(reference_text.as_str())?)?;
                let result = Command::SetAlias { thesis_id, alias: alias.clone() }.validated()?;
                aliases_resolver.remember(alias, thesis_id);
                Ok(result)
            },
        }
    }

    fn parse_as_add_relation_thesis_with_alias<R: AliasesResolver>(
        line: &str,
        aliases_resolver: &mut R,
        supported_relations_kinds: &Vec<RelationKind>,
    ) -> (r: Result<Self, WoolError>)
        ensures
            r matches Ok(c) ==> c@ is AddRelationThesisWithAlias && read_as(c@, line@, supported_relations_kinds@) && command_valid(c@),
            r matches Ok(c) ==> resolved_by(c@, line@, *old(aliases_resolver)) && remembered_by(c@, *final(aliases_resolver)),
            r matches Ok(c) ==> others_kept(*old(aliases_resolver), *final(aliases_resolver), given_alias(c@)),
            match_relation_with_alias(line@) is None ==> (r matches Err(e) && e is NotMatched) && *final(aliases_resolver) == *old(aliases_resolver),
            relation_with_alias_refused(line@, supported_relations_kinds@) ==> r is Err && *final(aliases_resolver) == *old(aliases_resolver),
            match_relation_with_alias(line@) matches Some((a, f, k, t)) ==> (!kind_supported(
                supported_relations_kinds@,
                k,
            ) ==> (r matches Err(e) && e is UnsupportedRelationKind)),
            match_relation_with_alias(line@) matches Some((a, f, k, t)) ==> (kind_supported(
                supported_relations_kinds@,
                k,
            ) && (!alias_valid(a) || !reference_readable(f) || (old(aliases_resolver).surely_resolves(
                reference_of(f),
            ) && !reference_readable(t))) ==> (r matches Err(e) && e is InvalidAlias)),
            match_relation_with_alias(line@) matches Some((a, f, k, t)) ==> (kind_supported(
                supported_relations_kinds@,
                k,
            ) && alias_valid(a) && reference_readable(f) && reference_readable(t)
                && old(aliases_resolver).surely_resolves(reference_of(f)) && old(aliases_resolver).surely_resolves(reference_of(t)) ==> (r is Ok <==> relation_kind_valid(k))),
    {
        let v = chars_of(line);
        let n = v.len();
        match match_relation_with_alias_exec(&v) {
            None => Err(WoolError::NotMatched(line.to_owned())),
            Some((a, b, f, g, start, e, ys)) => {
                let relation_kind = RelationKind(string_of(&v, start, e));
                if !kinds_contain(supported_relations_kinds, &relation_kind) {
                    return Err(WoolError::UnsupportedRelationKind(relation_kind.0));
                }
                let alias = Alias(string_of(&v, a, b));
                alias.validated()?;
                let from_text = string_of(&v, f, g);
                let from = aliases_resolver.get_thesis_id_by_reference(&Reference::new(from_text.as_str())?)?;
                let to_text = string_of(&v, ys, n);
                let to = aliases_resolver.get_thesis_id_by_reference(&Reference::new(to_text.as_str())?)?;
                let relation = Relation { from, kind: relation_kind, to };
                let id = Content::Relation(relation.clone()).id();
                aliases_resolver.remember(alias.clone(), id);
                Command::AddRelationThesisWithAlias { relation, alias }.validated()
            },
        }
    }

    fn parse_as_add_relation_thesis_without_alias<R: AliasesResolver>(
        line: &str,
        aliases_resolver: &mut R,
        supported_relations_kinds: &Vec<RelationKind>,
    ) -> (r: Result<Self, WoolError>)
        ensures
            r matches Ok(c) ==> c@ is AddRelationThesisWithoutAlias && read_as(c@, line@, supported_relations_kinds@) && command_valid(c@),
            r matches Ok(c) ==> resolved_by(c@, line@, *old(aliases_resolver)),
            *final(aliases_resolver) == *old(aliases_resolver),
            match_relation(line@) is None ==> (r matches Err(e) && e is NotMatched),
            match_relation(line@) matches Some((f, k, t)) ==> (!kind_supported(
                supported_relations_kinds@,
                k,
            ) ==> (r matches Err(e) && e is UnsupportedRelationKind)),
            match_relation(line@) matches Some((f, k, t)) ==> (kind_supported(
                supported_relations_kinds@,
                k,
            ) && (!reference_readable(t) || (old(aliases_resolver).surely_resolves(reference_of(t))
                && !reference_readable(f))) ==> (r matches Err(e) && e is InvalidAlias)),
            match_relation(line@) matches Some((f, k, t)) ==> (kind_supported(
                supported_relations_kinds@,
                k,
            ) && reference_readable(f) && reference_readable(t) && old(aliases_resolver).surely_resolves(reference_of(f)) && old(aliases_resolver).surely_resolves(
                reference_of(t),
            ) ==> (r is Ok <==> relation_kind_valid(k))),
    {
        let v = chars_of(line);
        let n = v.len();
        match match_relation_exec(&v) {
            None => Err(WoolError::NotMatched(line.to_owned())),
            Some((a, b, start, e, ys)) => {
                let relation_kind = RelationKind(string_of(&v, start, e));
                if !kinds_contain(supported_relations_kinds, &relation_kind) {
                    return Err(WoolError::UnsupportedRelationKind(relation_kind.0));
                }
                let to_text = string_of(&v, ys, n);
                let to = aliases_resolver.get_thesis_id_by_reference(&Reference::new(to_text.as_str())?)?;
                let from_text = string_of(&v, a, b);
                let from = aliases_resolver.get_thesis_id_by_reference(&Reference::new(from_text.as_str())?)?;
                Command::AddRelationThesisWithoutAlias(Relation { from, kind: relation_kind, to }).validated()
            },
        }
    }

    fn parse_as_add_text_thesis_with_alias<R: AliasesResolver>(line: &str, aliases_resolver: &mut R) -> (r: Result<Self, WoolError>)
        ensures
            r matches Ok(c) ==> c@ is AddTextThesisWithAlias && read_as(c@, line@, seq![]) && command_valid(c@),
            r matches Ok(c) ==> resolved_by(c@, line@, *old(aliases_resolver)) && remembered_by(c@, *final(aliases_resolver)),
            r matches Ok(c) ==> others_kept(*old(aliases_resolver), *final(aliases_resolver), given_alias(c@)),
            match_text_with_alias(line@) is None ==> (r matches Err(e) && e is NotMatched) && *final(aliases_resolver) == *old(aliases_resolver),
            text_with_alias_refused(line@) ==> r is Err && *final(aliases_resolver) == *old(aliases_resolver),
            match_text_with_alias(line@) matches Some((a, x)) ==> (!alias_valid(a) ==> (r matches Err(e)
                && e is InvalidAlias)),
            match_text_with_alias(line@) matches Some((a, x)) ==> (alias_valid(a) && old(aliases_resolver).surely_reads(x) ==> r is Ok),
    {
        let v = chars_of(line);
        let n = v.len();
        match match_text_with_alias_exec(&v) {
            None => Err(WoolError::NotMatched(line.to_owned())),
            Some((a, b, start)) => {
                let alias = Alias(string_of(&v, a, b));
                alias.validated()?;
                let text_capture = string_of(&v, start, n);
                let text = aliases_resolver.new_text(text_capture.as_str())?;
                let id = Content::Text(text.clone()).id();
                aliases_resolver.remember(alias.clone(), id);
                Command::AddTextThesisWithAlias { text, alias }.validated()
            },
        }
    }

    fn parse_as_add_text_thesis_without_alias<R: AliasesResolver>(line: &str, aliases_resolver: &mut R) -> (r: Result<Self, WoolError>)
        ensures
            r matches Ok(c) ==> c@ is AddTextThesisWithoutAlias && read_as(c@, line@, seq![]) && command_valid(c@),
            r matches Ok(c) ==> resolved_by(c@, line@, *old(aliases_resolver)),
            *final(aliases_resolver) == *old(aliases_resolver),
            match_text(line@) is None ==> (r matches Err(e) && e is NotMatched),
            match_text(line@) matches Some(x) ==> (old(aliases_resolver).surely_reads(x) ==> r is Ok),
    {
        let v = chars_of(line);
        let n = v.len();
        match match_text_exec(&v) {
            None => Err(WoolError::NotMatched(line.to_owned())),
            Some(start) => {
                let text_capture = string_of(&v, start, n);
                Command::AddTextThesisWithoutAlias(aliases_resolver.new_text(text_capture.as_str())?).validated()
            },
        }
    }

    fn parse_as_add_tags<R: AliasesResolver>(line: &str, aliases_resolver: &mut R) -> (r: Result<Self, WoolError>)
        ensures
            r matches Ok(c) ==> c@ is AddTags && read_as(c@, line@, seq![]) && command_valid(c@),
            r matches Ok(c) ==> resolved_by(c@, line@, *old(aliases_resolver)),
            *final(aliases_resolver) == *old(aliases_resolver),
            match_add_tags(line@) is None ==> (r matches Err(e) && e is NotMatched),
            match_add_tags(line@) matches Some((g, l)) ==> (!reference_readable(l) ==> (r matches Err(e)
                && e is InvalidAlias)),
            match_add_tags(line@) matches Some((g, l)) ==> (reference_readable(l) && old(aliases_resolver).surely_resolves(reference_of(l)) ==> (r is Ok <==> tags_valid(split_at_spaces(g)))),
    {
        let v = chars_of(line);
        let n = v.len();
        match match_add_tags_exec(&v) {
            None => Err(WoolError::NotMatched(line.to_owned())),
            Some((a, g, ys)) => {
                let reference_text = string_of(&v, ys, n);
                let thesis_id = aliases_resolver.get_thesis_id_by_reference(&Reference::new(reference_text.as_str())?)?;
                let tags = tags_from_strings(split_at_spaces_exec(&v, a, g));
                Command::AddTags { thesis_id, tags }.validated()
            },
        }
    }

    fn parse_as_remove_tags<R: AliasesResolver>(line: &str, aliases_resolver: &mut R) -> (r: Result<Self, WoolError>)
        ensures
            r matches Ok(c) ==> c@ is RemoveTags && read_as(c@, line@, seq![]) && command_valid(c@),
            r matches Ok(c) ==> resolved_by(c@, line@, *old(aliases_resolver)),
            *final(aliases_resolver) == *old(aliases_resolver),
            match_remove_tags(line@) is None ==> (r matches Err(e) && e is NotMatched),
            match_remove_tags(line@) matches Some((g, l)) ==> (!reference_readable(l) ==> (r matches Err(e)
                && e is InvalidAlias)),
            match_remove_tags(line@) matches Some((g, l)) ==> (reference_readable(l) && old(aliases_resolver).surely_resolves(reference_of(l)) ==> (r is Ok <==> tags_valid(split_at_spaces(g)))),
    {
        let v = chars_of(line);
        let n = v.len();
        match match_remove_tags_exec(&v) {
            None => Err(WoolError::NotMatched(line.to_owned())),
            Some((a, g, ys)) => {
                let reference_text = string_of(&v, ys, n);
                let thesis_id = aliases_resolver.get_thesis_id_by_reference(&Reference::new(reference_text.as_str())?)?;
                let tags = tags_from_strings(split_at_spaces_exec(&v, a, g));
                Command::RemoveTags { thesis_id, tags }.validated()
            },
        }
    }

    /// Reads a command line, trying its forms in turn: set alias, remove tags, add tags,
    /// relation with alias, relation, text with alias, text. The first form that the line
    /// has and whose references, relation kind and parts are accepted gives the command: when
    /// every earlier form is refused by the line and this one is ready, it is this one.
    pub fn parse<R: AliasesResolver>(
        line: &str,
        aliases_resolver: &mut R,
        supported_relations_kinds: &Vec<RelationKind>,
    ) -> (r: Result<Self, WoolError>)
        ensures
            r matches Ok(c) ==> read_as(c@, line@, supported_relations_kinds@) && command_valid(c@),
            r matches Ok(c) ==> (read_first_hand(c@, line@, supported_relations_kinds@) ==> resolved_by(
                c@,
                line@,
                *old(aliases_resolver),
            )),
            r matches Ok(c) ==> remembered_by(c@, *final(aliases_resolver)),
            r matches Ok(c) ==> (read_first_hand(c@, line@, supported_relations_kinds@) ==> others_kept(
                *old(aliases_resolver),
                *final(aliases_resolver),
                given_alias(c@),
            )),
            r matches Ok(c) ==> (read_first_hand(c@, line@, supported_relations_kinds@) && !gives_alias(c@)
                ==> *final(aliases_resolver) == *old(aliases_resolver)),
            (match_set_alias(line@) is None && match_remove_tags(line@) is None && match_add_tags(line@) is None
                && match_relation_with_alias(line@) is None && match_relation(line@) is None
                && match_text_with_alias(line@) is None && match_text(line@) is None) ==> r is Err
                && *final(aliases_resolver) == *old(aliases_resolver),
            r matches Err(e) ==> e is Unparsable,
            set_alias_ready(line@, *old(aliases_resolver)) ==> (r matches Ok(c) && c@ is SetAlias),
            first_forms_refused(1, line@, supported_relations_kinds@, *old(aliases_resolver)) && tags_ready(
                match_remove_tags(line@),
                *old(aliases_resolver),
            ) ==> (r matches Ok(c) && c@ is RemoveTags),
            first_forms_refused(2, line@, supported_relations_kinds@, *old(aliases_resolver)) && tags_ready(
                match_add_tags(line@),
                *old(aliases_resolver),
            ) ==> (r matches Ok(c) && c@ is AddTags),
            first_forms_refused(3, line@, supported_relations_kinds@, *old(aliases_resolver))
                && relation_with_alias_ready(line@, supported_relations_kinds@, *old(aliases_resolver))
                ==> (r matches Ok(c) && c@ is AddRelationThesisWithAlias),
            first_forms_refused(4, line@, supported_relations_kinds@, *old(aliases_resolver))
                && relation_ready(line@, supported_relations_kinds@, *old(aliases_resolver))
                ==> (r matches Ok(c) && c@ is AddRelationThesisWithoutAlias),
            first_forms_refused(5, line@, supported_relations_kinds@, *old(aliases_resolver))
                && text_with_alias_ready(line@, *old(aliases_resolver))
                ==> (r matches Ok(c) && c@ is AddTextThesisWithAlias),
            first_forms_refused(6, line@, supported_relations_kinds@, *old(aliases_resolver))
                && text_ready(line@, *old(aliases_resolver))
                ==> (r matches Ok(c) && c@ is AddTextThesisWithoutAlias),
    {
        if let Ok(result) = Self::parse_as_set_alias(line, aliases_resolver) {
            return Ok(result);
        }
        if let Ok(result) = Self::parse_as_remove_tags(line, aliases_resolver) {
            return Ok(result);
        }
        if let Ok(result) = Self::parse_as_add_tags(line, aliases_resolver) {
            return Ok(result);
        }
        if let Ok(result) = Self::parse_as_add_relation_thesis_with_alias(line, aliases_resolver, supported_relations_kinds) {
            return Ok(result);
        }
        if let Ok(result) = Self::parse_as_add_relation_thesis_without_alias(line, aliases_resolver, supported_relations_kinds) {
            return Ok(result);
        }
        if let Ok(result) = Self::parse_as_add_text_thesis_with_alias(line, aliases_resolver) {
            return Ok(result);
        }
        if let Ok(result) = Self::parse_as_add_text_thesis_without_alias(line, aliases_resolver) {
            return Ok(result);
        }
        Err(WoolError::Unparsable(line.to_owned()))
    }
}

} // verus!
