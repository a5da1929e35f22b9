use vstd::prelude::*;

use crate::alias::{alias_valid, Alias};
use crate::document_id::{
    id_from_text, id_text, lemma_encode_len, lemma_id_text_roundtrip, lemma_text_id_roundtrip,
    DocumentId,
};
use crate::error::WoolError;
use crate::reading::{
    id_part, lemma_text_pieces_text, piece_text, pieces_text, pieces_view, read_text_pieces,
    text_pieces, TextPiece, TextPieceView,
};
use crate::reference::{Reference, ReferenceView};
use crate::strings::{chars_of, string_of};
use crate::text::{other_valid, raw_piece, raw_text, text_valid, word_valid, Entity, EntityView, Text};
use crate::transaction::ReadTransactionMethods;
use crate::thesis::ThesisView;

verus! {

/// What reading a command needs besides the line: finding the thesis a reference points
/// at, remembering aliases given by earlier commands, and reading texts.
pub trait AliasesResolver: Sized {
    /// Whether, by what this resolver holds, `reference` may stand for the thesis `id`.
    spec fn stands_for(&self, reference: ReferenceView, id: Seq<u8>) -> bool;

    /// Whether this resolver may read the written text `input` into the entities `text`.
    spec fn reads_text(&self, input: Seq<char>, text: Seq<EntityView>) -> bool;

    /// Whether the alias now stands for the thesis `id`.
    spec fn remembers(&self, alias: Seq<char>, id: Seq<u8>) -> bool;

    /// Whether this resolver finds, by what it holds, the thesis `reference` stands for.
    spec fn surely_resolves(&self, reference: ReferenceView) -> bool;

    /// Whether this resolver reads, by what it holds, the written text `input` into a text
    /// whose words are valid.
    spec fn surely_reads(&self, input: Seq<char>) -> bool;

    fn get_thesis_id_by_reference(&self, reference: &Reference) -> (r: Result<DocumentId, WoolError>)
        ensures
            r matches Ok(id) ==> self.stands_for(reference@, id@),
            self.surely_resolves(reference@) ==> r is Ok;

    fn remember(&mut self, alias: Alias, document_id: DocumentId)
        ensures
            final(self).remembers(alias@, document_id@),
            forall|a: Seq<char>, id: Seq<u8>| a != alias@ ==> #[trigger] final(self).remembers(a, id)
                == old(self).remembers(a, id);

    fn new_text(&self, input: &str) -> (r: Result<Text, WoolError>)
        ensures
            r matches Ok(t) ==> self.reads_text(input@, t@),
            self.surely_reads(input@) ==> (r matches Ok(t) && text_valid(t@));
}

/// `new` remembers what `old` remembered for every alias but `alias`.
pub open spec fn others_kept<R: AliasesResolver>(old: R, new: R, alias: Seq<char>) -> bool {
    forall|a: Seq<char>, id: Seq<u8>| a != alias ==> #[trigger] new.remembers(a, id) == old.remembers(a, id)
}

/// The thesis an alias was last remembered for.
pub open spec fn known_lookup(known: Seq<(Alias, DocumentId)>, a: Seq<char>) -> Option<Seq<u8>>
    decreases known.len(),
{
    if known.len() == 0 {
        None
    } else if known.last().0@ == a {
        Some(known.last().1@)
    } else {
        known_lookup(known.drop_last(), a)
    }
}

/// The piece `p` is read into the entity `e`: words and other runs as they are, identifiers
/// as the theses they write, aliases (which must be valid) as the thesis they were last
/// remembered for in `known`, or, when they were not, as a thesis of `stored` that carries
/// the alias.
pub open spec fn piece_read(
    p: TextPieceView,
    e: EntityView,
    known: Seq<(Alias, DocumentId)>,
    stored: Map<Seq<u8>, ThesisView>,
) -> bool {
    match p {
        TextPieceView::Word(w) => e == EntityView::Word(w),
        TextPieceView::Other(o) => e == EntityView::Other(o),
        TextPieceView::Identifier(c) => id_from_text(id_part(c)) matches Some(id) && e == EntityView::Reference(id),
        TextPieceView::AliasName(a) => alias_valid(a) && match known_lookup(known, a) {
            Some(x) => e == EntityView::Reference(x),
            None => e matches EntityView::Reference(x) && stored.contains_key(x) && stored[x].alias == Some(a),
        },
    }
}

/// The entities `t` are what the pieces `p` were read into, one for one (see `piece_read`).
pub open spec fn text_read_from(
    t: Seq<EntityView>,
    p: Seq<TextPieceView>,
    known: Seq<(Alias, DocumentId)>,
    stored: Map<Seq<u8>, ThesisView>,
) -> bool {
    &&& t.len() == p.len()
    &&& forall|i: int| 0 <= i < p.len() ==> piece_read(#[trigger] p[i], t[i], known, stored)
}

/// The piece reads without the store: an identifier that reads as one, or a valid alias
/// remembered in `known`.
pub open spec fn piece_read_locally(p: TextPieceView, known: Seq<(Alias, DocumentId)>) -> bool {
    match p {
        TextPieceView::Identifier(c) => id_from_text(id_part(c)) is Some,
        TextPieceView::AliasName(a) => alias_valid(a) && known_lookup(known, a) is Some,
        _ => true,
    }
}

/// The piece is a malformed identifier or an invalid alias.
pub open spec fn piece_bad(p: TextPieceView) -> bool {
    match p {
        TextPieceView::Identifier(c) => id_from_text(id_part(c)) is None,
        TextPieceView::AliasName(a) => !alias_valid(a),
        _ => false,
    }
}

/// Every piece before the `i`-th reads without the store.
pub open spec fn read_locally_before(p: Seq<TextPieceView>, known: Seq<(Alias, DocumentId)>, i: int) -> bool {
    forall|j: int| 0 <= j < i ==> piece_read_locally(#[trigger] p[j], known)
}

/// Every reference is a bare identifier that reads as one.
pub open spec fn only_plain_identifiers(p: Seq<TextPieceView>) -> bool {
    forall|i: int|
        0 <= i < p.len() ==> match #[trigger] p[i] {
            TextPieceView::Identifier(c) => c.len() == 22 && id_from_text(c) is Some,
            TextPieceView::AliasName(_) => false,
            _ => true,
        }
}

proof fn lemma_raw_text_of_pieces(t: Seq<EntityView>, p: Seq<TextPieceView>)
    requires
        t.len() == p.len(),
        forall|i: int| 0 <= i < p.len() ==> raw_piece(#[trigger] t[i]) == piece_text(p[i]),
    ensures
        raw_text(t) == pieces_text(p),
    decreases t.len(),
{
    if t.len() > 0 {
        lemma_raw_text_of_pieces(t.drop_last(), p.drop_last());
    }
}

/// A text whose references are all written identifiers is written back as it was read.
pub proof fn lemma_read_text_is_raw(
    s: Seq<char>,
    t: Seq<EntityView>,
    known: Seq<(Alias, DocumentId)>,
    stored: Map<Seq<u8>, ThesisView>,
)
    requires
        text_read_from(t, text_pieces(s), known, stored),
        only_plain_identifiers(text_pieces(s)),
    ensures
        raw_text(t) == s,
{
    let p = text_pieces(s);
    assert forall|i: int| 0 <= i < p.len() implies raw_piece(#[trigger] t[i]) == piece_text(p[i]) by {
        match p[i] {
            TextPieceView::Identifier(c) => {
                lemma_text_id_roundtrip(c);
            },
            _ => {},
        }
    }
    lemma_raw_text_of_pieces(t, p);
    lemma_text_pieces_text(s);
}

/// The pieces a text is written as when each reference is written as its identifier: its
/// words and other runs as they are, its references as identifiers.
pub open spec fn own_pieces(t: Seq<EntityView>) -> Seq<TextPieceView> {
    Seq::new(
        t.len(),
        |i: int|
            match t[i] {
                EntityView::Word(w) => TextPieceView::Word(w),
                EntityView::Other(o) => TextPieceView::Other(o),
                EntityView::Reference(id) => TextPieceView::Identifier(id_text(id)),
            },
    )
}

/// Reading the text written with identifiers gives its own pieces back: its words and
/// other runs are whole runs, as reading makes them.
pub open spec fn text_as_read(t: Seq<EntityView>) -> bool {
    text_pieces(raw_text(t)) == own_pieces(t)
}

/// Every identifier the text refers to is sixteen bytes.
pub open spec fn text_ids_sized(t: Seq<EntityView>) -> bool {
    forall|i: int| 0 <= i < t.len() ==> (#[trigger] t[i] matches EntityView::Reference(id) ==> id.len() == 16)
}

/// A text read from a line whose references are all written identifiers is as reading
/// gives it.
pub proof fn lemma_read_text_as_read(
    s: Seq<char>,
    t: Seq<EntityView>,
    known: Seq<(Alias, DocumentId)>,
    stored: Map<Seq<u8>, ThesisView>,
)
    requires
        text_read_from(t, text_pieces(s), known, stored),
        only_plain_identifiers(text_pieces(s)),
    ensures
        text_as_read(t),
{
    lemma_read_text_is_raw(s, t, known, stored);
    let p = text_pieces(s);
    assert forall|i: int| 0 <= i < p.len() implies #[trigger] own_pieces(t)[i] == p[i] by {
        match p[i] {
            TextPieceView::Identifier(c) => {
                lemma_text_id_roundtrip(c);
            },
            _ => {},
        }
    }
    assert(own_pieces(t) =~= p);
}

/// Entities read from a text's own pieces are that text.
pub proof fn lemma_own_pieces_read(
    t: Seq<EntityView>,
    d: Seq<EntityView>,
    known: Seq<(Alias, DocumentId)>,
    stored: Map<Seq<u8>, ThesisView>,
)
    requires
        text_ids_sized(t),
        text_read_from(d, own_pieces(t), known, stored),
    ensures
        d == t,
{
    let p = own_pieces(t);
    assert forall|i: int| 0 <= i < t.len() implies d[i] == t[i] by {
        assert(p[i] == own_pieces(t)[i]);
        match t[i] {
            EntityView::Reference(id) => {
                lemma_encode_len(id);
                lemma_id_text_roundtrip(id);
                assert(id_part(id_text(id)) == id_text(id));
            },
            _ => {},
        }
    }
    assert(d =~= t);
}

/// Every piece can be read without the store: words are valid, identifiers read as ones,
/// aliases are valid and among `known`.
pub open spec fn pieces_surely_read(p: Seq<TextPieceView>, known: Seq<(Alias, DocumentId)>) -> bool {
    forall|i: int|
        0 <= i < p.len() ==> match #[trigger] p[i] {
            TextPieceView::Word(w) => word_valid(w),
            TextPieceView::Other(o) => other_valid(o),
            TextPieceView::Identifier(c) => id_from_text(id_part(c)) is Some,
            TextPieceView::AliasName(a) => alias_valid(a) && known_lookup(known, a) is Some,
        }
}

/// Resolves references against the store of a transaction, and against the aliases that
/// commands read before gave (which take precedence).
pub struct LocalAliasesResolver<'a, T: ReadTransactionMethods> {
    pub read_able_transaction: &'a T,
    pub known_aliases: Vec<(Alias, DocumentId)>,
}

impl<'a, T: ReadTransactionMethods> LocalAliasesResolver<'a, T> {
    pub fn new(read_able_transaction: &'a T) -> (r: Self)
        ensures
            r.known_aliases@.len() == 0,
    {
        LocalAliasesResolver { read_able_transaction, known_aliases: Vec::new() }
    }

    /// The thesis the alias was last remembered for.
    pub fn known(&self, alias: &Alias) -> (r: Option<DocumentId>)
        ensures
            match r {
                Some(id) => known_lookup(self.known_aliases@, alias@) == Some(id@),
                None => known_lookup(self.known_aliases@, alias@) is None,
            },
    {
        let mut i: usize = self.known_aliases.len();
        assert(self.known_aliases@.take(i as int) =~= self.known_aliases@);
        while i > 0
            invariant
                i <= self.known_aliases@.len(),
                known_lookup(self.known_aliases@, alias@) == known_lookup(self.known_aliases@.take(i as int), alias@),
            decreases i,
        {
            let ghost prefix = self.known_aliases@.take(i as int);
            assert(prefix.drop_last() =~= self.known_aliases@.take(i - 1));
            if crate::strings::same_chars(self.known_aliases[i - 1].0.0.as_str(), alias.0.as_str()) {
                return Some(self.known_aliases[i - 1].1);
            }
            i = i - 1;
        }
        None
    }

    fn read_piece(&self, piece: &TextPiece) -> (r: Result<Entity, WoolError>)
        ensures
            r matches Ok(e) ==> piece_read(piece@, e@, self.known_aliases@, self.read_able_transaction.stored()),
            piece_read_locally(piece@, self.known_aliases@) ==> r is Ok,
            piece@ matches TextPieceView::Identifier(c) ==> (id_from_text(id_part(c)) is None ==> (r matches Err(e)
                && e is InvalidDocumentId)),
            piece@ matches TextPieceView::AliasName(a) ==> (!alias_valid(a) ==> (r matches Err(e) && e is InvalidAlias)),
            piece@ matches TextPieceView::Identifier(c) ==> (r is Ok <==> id_from_text(id_part(c)) is Some),
            piece@ is Word || piece@ is Other ==> r is Ok,
            piece@ matches TextPieceView::AliasName(a) ==> (alias_valid(a) && known_lookup(
                self.known_aliases@,
                a,
            ) is Some ==> r is Ok),
    {
        match piece {
            TextPiece::Word(w) => Ok(Entity::Word(w.clone())),
            TextPiece::Other(o) => Ok(Entity::Other(o.clone())),
            TextPiece::Identifier(c) => {
                let v = chars_of(c.as_str());
                let written = if v.len() == 23 {
                    let w = string_of(&v, 1, 23);
                    assert(v@.subrange(1, 23) =~= v@.skip(1));
                    w
                } else {
                    let w = string_of(&v, 0, v.len());
                    assert(v@.subrange(0, v@.len() as int) =~= v@);
                    w
                };
                assert(written@ == id_part(c@));
                match DocumentId::from_string(written.as_str()) {
                    Some(id) => Ok(Entity::Reference(id)),
                    None => Err(WoolError::InvalidDocumentId(c.clone())),
                }
            },
            TextPiece::AliasName(a) => {
                let alias = Alias(a.clone());
                alias.validated()?;
                let id = self.get_thesis_id_by_reference(&Reference::Alias(alias))?;
                Ok(Entity::Reference(id))
            },
        }
    }
}

impl<'a, T: ReadTransactionMethods> AliasesResolver for LocalAliasesResolver<'a, T> {
    /// An identifier stands for itself; an alias remembered here for the thesis it was last
    /// remembered for (one that is not may stand for any thesis the store has under it).
    open spec fn stands_for(&self, reference: ReferenceView, id: Seq<u8>) -> bool {
        match reference {
            ReferenceView::DocumentId(x) => id == x && self.read_able_transaction.stored().contains_key(x),
            ReferenceView::Alias(a) => match known_lookup(self.known_aliases@, a) {
                Some(x) => id == x,
                None => self.read_able_transaction.stored().contains_key(id)
                    && self.read_able_transaction.stored()[id].alias == Some(a),
            },
        }
    }

    open spec fn reads_text(&self, input: Seq<char>, text: Seq<EntityView>) -> bool {
        text_read_from(text, text_pieces(input), self.known_aliases@, self.read_able_transaction.stored())
    }

    open spec fn remembers(&self, alias: Seq<char>, id: Seq<u8>) -> bool {
        known_lookup(self.known_aliases@, alias) == Some(id)
    }

    /// An alias remembered here; identifiers and other aliases are for the store to find.
    open spec fn surely_resolves(&self, reference: ReferenceView) -> bool {
        reference matches ReferenceView::Alias(a) && known_lookup(self.known_aliases@, a) is Some
    }

    /// Every word is valid, every identifier reads as one, and every alias is valid and
    /// remembered here.
    open spec fn surely_reads(&self, input: Seq<char>) -> bool {
        pieces_surely_read(text_pieces(input), self.known_aliases@)
    }

    /// An identifier stands for itself when its thesis is stored; an alias for the thesis
    /// it was last remembered for, or else the one the store knows under it.
    fn get_thesis_id_by_reference(&self, reference: &Reference) -> (r: Result<DocumentId, WoolError>)
        ensures
            reference@ matches ReferenceView::DocumentId(id) ==> (r matches Ok(x) ==> x@ == id),
            reference@ matches ReferenceView::DocumentId(id) ==> (!self.read_able_transaction.stored().contains_key(id)
                ==> r is Err),
            reference@ matches ReferenceView::Alias(a) ==> (known_lookup(self.known_aliases@, a) is None
                && (forall|k: Seq<u8>| #[trigger] self.read_able_transaction.stored().contains_key(k)
                ==> self.read_able_transaction.stored()[k].alias != Some(a)) ==> r is Err),
            reference@ matches ReferenceView::Alias(a) ==> (known_lookup(self.known_aliases@, a) matches Some(x) ==> (r matches Ok(y) && y@ == x)),
    {
        match reference {
            Reference::DocumentId(thesis_id) => {
                match self.read_able_transaction.get_thesis(thesis_id)? {
                    Some(_) => Ok(*thesis_id),
                    None => Err(WoolError::UnknownThesis(thesis_id.to_string())),
                }
            },
            Reference::Alias(alias) => {
                if let Some(result) = self.known(alias) {
                    Ok(result)
                } else {
                    match self.read_able_transaction.get_thesis_id_by_alias(alias)? {
                        Some(id) => Ok(id),
                        None => Err(WoolError::UnknownAlias(alias.0.clone())),
                    }
                }
            },
        }
    }

    /// From now on the alias stands for this thesis.
    fn remember(&mut self, alias: Alias, document_id: DocumentId)
        ensures
            forall|a: Seq<char>| #[trigger] known_lookup(final(self).known_aliases@, a) == if a == alias@ {
                Some(document_id@)
            } else {
                known_lookup(old(self).known_aliases@, a)
            },
    {
        self.known_aliases.push((alias, document_id));
        assert(self.known_aliases@.drop_last() =~= old(self).known_aliases@);
        assert(self.known_aliases@.last() == (alias, document_id));
    }

    /// Reads a text: words, other runs, identifiers and aliases (see the reading module).
    fn new_text(&self, input: &str) -> (r: Result<Text, WoolError>)
        ensures
            r matches Ok(t) ==> text_read_from(t@, text_pieces(input@), self.known_aliases@, self.read_able_transaction.stored()),
            only_plain_identifiers(text_pieces(input@)) ==> r is Ok,
            read_locally_before(text_pieces(input@), self.known_aliases@, text_pieces(input@).len() as int) ==> r is Ok,
            forall|i: int|
                0 <= i < text_pieces(input@).len() && read_locally_before(text_pieces(input@), self.known_aliases@, i) ==> (
                #[trigger] text_pieces(input@)[i] matches TextPieceView::Identifier(c) ==> (id_from_text(id_part(c)) is None
                ==> (r matches Err(e) && e is InvalidDocumentId))),
            forall|i: int|
                0 <= i < text_pieces(input@).len() && read_locally_before(text_pieces(input@), self.known_aliases@, i) ==> (
                #[trigger] text_pieces(input@)[i] matches TextPieceView::AliasName(a) ==> (!alias_valid(a) ==> (r matches Err(
                    e,
                ) && e is InvalidAlias))),
    {
        let pieces = read_text_pieces(input);
        let ghost p = pieces_view(pieces@);
        let mut entities: Vec<Entity> = Vec::new();
        let n = pieces.len();
        let mut i: usize = 0;
        while i < n
            invariant
                n == pieces@.len(),
                p == pieces_view(pieces@),
                p == text_pieces(input@),
                i <= n,
                text_read_from(
                    entities@.map_values(|e: Entity| e@),
                    p.take(i as int),
                    self.known_aliases@,
                    self.read_able_transaction.stored(),
                ),
            decreases n - i,
        {
            let entity = self.read_piece(&pieces[i]);
            proof {
                assert(p[i as int] == pieces@[i as int]@);
                if only_plain_identifiers(p) || pieces_surely_read(p, self.known_aliases@) || read_locally_before(
                    p,
                    self.known_aliases@,
                    p.len() as int,
                ) {
                    match p[i as int] {
                        TextPieceView::Identifier(c) => {},
                        _ => {},
                    }
                }
                assert forall|i2: int| 0 <= i2 < i implies !(piece_bad(#[trigger] p[i2])) by {
                    assert(p.take(i as int)[i2] == p[i2]);
                }
                assert forall|i2: int| i < i2 < p.len() && read_locally_before(p, self.known_aliases@, i2) implies piece_read_locally(
                    p[i as int],
                    self.known_aliases@,
                ) by {
                    assert(piece_read_locally(p[i as int], self.known_aliases@));
                }
            }
            let entity = entity?;
            let ghost before = entities@.map_values(|e: Entity| e@);
            entities.push(entity);
            assert(entities@.map_values(|e: Entity| e@) =~= before.push(entity@));
            assert(p.take(i + 1) =~= p.take(i as int).push(p[i as int]));
            assert(p[i as int] == pieces@[i as int]@);
            i = i + 1;
        }
        assert(p.take(n as int) =~= p);
        let text = Text { entities };
        proof {
            if pieces_surely_read(p, self.known_aliases@) {
                assert forall|j: int| 0 <= j < text@.len() implies match #[trigger] text@[j] {
                    EntityView::Word(w) => word_valid(w),
                    EntityView::Other(o) => other_valid(o),
                    EntityView::Reference(_) => true,
                } by {
                    match p[j] {
                        TextPieceView::Word(w) => {},
                        TextPieceView::Other(o) => {},
                        _ => {},
                    }
                }
            }
        }
        Ok(text)
    }
}

} // verus!
