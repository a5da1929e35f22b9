use vstd::prelude::*;

use crate::patterns::{is_letter, CharClass, LETTER_PATTERN};
use crate::strings::{chars_of, push_char, string_of};

verus! {

//  Reading a text: references are `[` content `]` where the content holds no bracket; a
//  content of 22 identifier characters, or `:` and 22 of them, is an identifier, any other
//  content an alias. Between references, runs of Cyrillic or Latin letters are words and
//  runs of other characters are kept as they are.

/// A piece of text as read from a line, before references are resolved.
#[derive(Debug, PartialEq, Eq)]
pub enum TextPiece {
    Word(String),
    Other(String),
    Identifier(String),
    AliasName(String),
}

pub enum TextPieceView {
    Word(Seq<char>),
    Other(Seq<char>),
    Identifier(Seq<char>),
    AliasName(Seq<char>),
}

impl View for TextPiece {
    type V = TextPieceView;

    open spec fn view(&self) -> TextPieceView {
        match self {
            TextPiece::Word(w) => TextPieceView::Word(w@),
            TextPiece::Other(o) => TextPieceView::Other(o@),
            TextPiece::Identifier(c) => TextPieceView::Identifier(c@),
            TextPiece::AliasName(a) => TextPieceView::AliasName(a@),
        }
    }
}

pub open spec fn pieces_view(p: Seq<TextPiece>) -> Seq<TextPieceView> {
    p.map_values(|x: TextPiece| x@)
}

pub open spec fn is_bracket(c: char) -> bool {
    c == '[' || c == ']'
}

/// The first bracket at or after `i`, or the end.
pub open spec fn next_bracket(s: Seq<char>, i: int) -> int
    decreases s.len() - i,
{
    if i < 0 || i >= s.len() {
        s.len() as int
    } else if is_bracket(s[i]) {
        i
    } else {
        next_bracket(s, i + 1)
    }
}

/// When a reference starts at `i`, the position of its closing bracket.
pub open spec fn reference_end(s: Seq<char>, i: int) -> Option<int> {
    if 0 <= i < s.len() && s[i] == '[' {
        let j = next_bracket(s, i + 1);
        if j < s.len() && s[j] == ']' && j > i + 1 {
            Some(j)
        } else {
            None
        }
    } else {
        None
    }
}

pub open spec fn is_id_char(c: char) -> bool {
    ('A' <= c && c <= 'Z') || ('a' <= c && c <= 'z') || ('0' <= c && c <= '9') || c == '-' || c
        == '_'
}

pub open spec fn all_id_chars(c: Seq<char>) -> bool {
    forall|k: int| 0 <= k < c.len() ==> is_id_char(#[trigger] c[k])
}

/// A reference content that stands for an identifier.
pub open spec fn id_shaped(c: Seq<char>) -> bool {
    ||| c.len() == 22 && all_id_chars(c)
    ||| c.len() == 23 && c[0] == ':' && all_id_chars(c.skip(1))
}

/// The written identifier in an identifier-shaped content.
pub open spec fn id_part(c: Seq<char>) -> Seq<char> {
    if c.len() == 23 {
        c.skip(1)
    } else {
        c
    }
}

pub open spec fn reference_piece(c: Seq<char>) -> TextPieceView {
    if id_shaped(c) {
        TextPieceView::Identifier(c)
    } else {
        TextPieceView::AliasName(c)
    }
}

/// Adds one character outside references: it extends the last run when of its kind.
pub open spec fn add_char(acc: Seq<TextPieceView>, c: char) -> Seq<TextPieceView> {
    if acc.len() > 0 && acc.last() is Word && is_letter(c) {
        acc.update(acc.len() - 1, TextPieceView::Word(acc.last()->Word_0.push(c)))
    } else if acc.len() > 0 && acc.last() is Other && !is_letter(c) {
        acc.update(acc.len() - 1, TextPieceView::Other(acc.last()->Other_0.push(c)))
    } else if is_letter(c) {
        acc.push(TextPieceView::Word(seq![c]))
    } else {
        acc.push(TextPieceView::Other(seq![c]))
    }
}

/// Reads `s[i..]` after the pieces `acc`.
pub open spec fn read_pieces(s: Seq<char>, i: int, acc: Seq<TextPieceView>) -> Seq<TextPieceView>
    decreases s.len() - i,
{
    if i < 0 || i >= s.len() {
        acc
    } else {
        match reference_end(s, i) {
            Some(j) => read_pieces(s, j + 1, acc.push(reference_piece(s.subrange(i + 1, j)))),
            None => read_pieces(s, i + 1, add_char(acc, s[i])),
        }
    }
}

/// The pieces a text is read into.
pub open spec fn text_pieces(s: Seq<char>) -> Seq<TextPieceView> {
    read_pieces(s, 0, seq![])
}

/// How a piece is written back.
pub open spec fn piece_text(p: TextPieceView) -> Seq<char> {
    match p {
        TextPieceView::Word(w) => w,
        TextPieceView::Other(o) => o,
        TextPieceView::Identifier(c) => seq!['['] + c + seq![']'],
        TextPieceView::AliasName(c) => seq!['['] + c + seq![']'],
    }
}

/// Pieces written back one after another.
pub open spec fn pieces_text(p: Seq<TextPieceView>) -> Seq<char>
    decreases p.len(),
{
    if p.len() == 0 {
        seq![]
    } else {
        pieces_text(p.drop_last()) + piece_text(p.last())
    }
}

proof fn lemma_next_bracket(s: Seq<char>, i: int)
    requires
        0 <= i <= s.len(),
    ensures
        i <= next_bracket(s, i) <= s.len(),
        next_bracket(s, i) < s.len() ==> is_bracket(s[next_bracket(s, i)]),
        forall|k: int| i <= k < next_bracket(s, i) ==> !is_bracket(#[trigger] s[k]),
    decreases s.len() - i,
{
    if i < s.len() && !is_bracket(s[i]) {
        lemma_next_bracket(s, i + 1);
    }
}

proof fn lemma_add_char_text(acc: Seq<TextPieceView>, c: char)
    ensures
        pieces_text(add_char(acc, c)) == pieces_text(acc).push(c),
{
    let r = add_char(acc, c);
    if acc.len() > 0 && ((acc.last() is Word && is_letter(c)) || (acc.last() is Other && !is_letter(c))) {
        assert(r.drop_last() =~= acc.drop_last());
    } else {
        assert(r.drop_last() =~= acc);
    }
}

proof fn lemma_read_pieces_text(s: Seq<char>, i: int, acc: Seq<TextPieceView>)
    requires
        0 <= i <= s.len(),
    ensures
        pieces_text(read_pieces(s, i, acc)) == pieces_text(acc) + s.skip(i),
    decreases s.len() - i,
{
    if i == s.len() {
        assert(s.skip(i) =~= Seq::<char>::empty());
    } else {
        match reference_end(s, i) {
            Some(j) => {
                lemma_next_bracket(s, i + 1);
                let p = acc.push(reference_piece(s.subrange(i + 1, j)));
                lemma_read_pieces_text(s, j + 1, p);
                assert(p.drop_last() =~= acc);
                assert(piece_text(reference_piece(s.subrange(i + 1, j))) =~= seq!['['] + s.subrange(i + 1, j) + seq![']']);
                assert(s.skip(i) =~= seq!['['] + s.subrange(i + 1, j) + seq![']'] + s.skip(j + 1));
            },
            None => {
                lemma_add_char_text(acc, s[i]);
                lemma_read_pieces_text(s, i + 1, add_char(acc, s[i]));
                assert(s.skip(i) =~= seq![s[i]] + s.skip(i + 1));
            },
        }
    }
}

/// Writing back the pieces a text is read into gives the text.
pub proof fn lemma_text_pieces_text(s: Seq<char>)
    ensures
        pieces_text(text_pieces(s)) == s,
{
    lemma_read_pieces_text(s, 0, seq![]);
    assert(s.skip(0) =~= s);
}

fn find_reference_end(v: &Vec<char>, i: usize) -> (r: Option<usize>)
    requires
        i < v@.len(),
    ensures
        match r {
            Some(j) => reference_end(v@, i as int) == Some(j as int) && j < v@.len(),
            None => reference_end(v@, i as int) is None,
        },
{
    let len = v.len();
    if v[i] != '[' {
        return None;
    }
    let mut j: usize = i + 1;
    while j < v.len() && v[j] != '[' && v[j] != ']'
        invariant
            i < j <= v@.len(),
            next_bracket(v@, i + 1) == next_bracket(v@, j as int),
        decreases v@.len() - j,
    {
        j = j + 1;
    }
    if j < v.len() && v[j] == ']' && j > i + 1 {
        Some(j)
    } else {
        None
    }
}

fn is_id_char_exec(c: char) -> (r: bool)
    ensures
        r == is_id_char(c),
{
    ('A' <= c && c <= 'Z') || ('a' <= c && c <= 'z') || ('0' <= c && c <= '9') || c == '-' || c
        == '_'
}

fn all_id_chars_exec(v: &Vec<char>, from: usize, to: usize) -> (r: bool)
    requires
        from <= to <= v@.len(),
    ensures
        r == all_id_chars(v@.subrange(from as int, to as int)),
{
    let mut k: usize = from;
    while k < to
        invariant
            from <= k <= to <= v@.len(),
            forall|m: int| from <= m < k ==> is_id_char(v@[m]),
        decreases to - k,
    {
        if !is_id_char_exec(v[k]) {
            assert(!is_id_char(v@.subrange(from as int, to as int)[k - from]));
            return false;
        }
        k = k + 1;
    }
    assert forall|m: int| 0 <= m < to - from implies is_id_char(#[trigger] v@.subrange(from as int, to as int)[m]) by {
        assert(v@.subrange(from as int, to as int)[m] == v@[from + m]);
    }
    true
}

fn reference_piece_exec(v: &Vec<char>, from: usize, to: usize) -> (p: TextPiece)
    requires
        from <= to <= v@.len(),
    ensures
        p@ == reference_piece(v@.subrange(from as int, to as int)),
{
    let ghost c = v@.subrange(from as int, to as int);
    let shaped = if to - from == 22 {
        all_id_chars_exec(v, from, to)
    } else if to - from == 23 && v[from] == ':' {
        let r = all_id_chars_exec(v, from + 1, to);
        assert(c.skip(1) =~= v@.subrange(from + 1, to as int));
        r
    } else {
        false
    };
    let content = string_of(v, from, to);
    if shaped {
        TextPiece::Identifier(content)
    } else {
        TextPiece::AliasName(content)
    }
}

fn add_char_exec(pieces: &mut Vec<TextPiece>, c: char, letters: &CharClass)
    requires
        letters.wf(),
        letters.pattern() == LETTER_PATTERN@,
    ensures
        pieces_view(final(pieces)@) == add_char(pieces_view(old(pieces)@), c),
{
    let letter = letters.contains(c);
    let ghost acc = pieces_view(pieces@);
    let last = pieces.pop();
    match last {
        Some(TextPiece::Word(w)) => {
            if letter {
                let mut w = w;
                push_char(&mut w, c);
                pieces.push(TextPiece::Word(w));
            } else {
                pieces.push(TextPiece::Word(w));
                let mut o = String::new();
                push_char(&mut o, c);
                pieces.push(TextPiece::Other(o));
            }
        },
        Some(TextPiece::Other(o)) => {
            if !letter {
                let mut o = o;
                push_char(&mut o, c);
                pieces.push(TextPiece::Other(o));
            } else {
                pieces.push(TextPiece::Other(o));
                let mut w = String::new();
                push_char(&mut w, c);
                pieces.push(TextPiece::Word(w));
            }
        },
        Some(p) => {
            pieces.push(p);
            let mut n = String::new();
            push_char(&mut n, c);
            if letter {
                pieces.push(TextPiece::Word(n));
            } else {
                pieces.push(TextPiece::Other(n));
            }
        },
        None => {
            let mut n = String::new();
            push_char(&mut n, c);
            if letter {
                pieces.push(TextPiece::Word(n));
            } else {
                pieces.push(TextPiece::Other(n));
            }
        },
    }
    assert(pieces_view(pieces@) =~= add_char(acc, c));
}

/// Reads a text into words, other runs and (unresolved) references.
pub fn read_text_pieces(input: &str) -> (r: Vec<TextPiece>)
    ensures
        pieces_view(r@) == text_pieces(input@),
{
    let v = chars_of(input);
    let letters = CharClass::letters();
    let mut pieces: Vec<TextPiece> = Vec::new();
    let mut i: usize = 0;
    assert(pieces_view(pieces@) =~= Seq::<TextPieceView>::empty());
    while i < v.len()
        invariant
            v@ == input@,
            letters.wf(),
            letters.pattern() == LETTER_PATTERN@,
            i <= v@.len(),
            read_pieces(v@, i as int, pieces_view(pieces@)) == text_pieces(v@),
        decreases v@.len() - i,
    {
        match find_reference_end(&v, i) {
            Some(j) => {
                let p = reference_piece_exec(&v, i + 1, j);
                let ghost acc = pieces_view(pieces@);
                pieces.push(p);
                assert(pieces_view(pieces@) =~= acc.push(reference_piece(v@.subrange(i + 1, j as int))));
                i = j + 1;
            },
            None => {
                add_char_exec(&mut pieces, v[i], &letters);
                i = i + 1;
            },
        }
    }
    pieces
}

} // verus!
