use vstd::prelude::*;
use vstd::utf8::encode_utf8;

use crate::document_id::DocumentId;
use crate::error::WoolError;
use crate::relation::{relation_valid, Relation, RelationView};
use crate::text::{raw_text, text_valid, EntityView, Text};

verus! {

/// What a thesis states: a text, or a relation between two theses.
#[derive(Debug, PartialEq, Eq)]
pub enum Content {
    Text(Text),
    Relation(Relation),
}

pub enum ContentView {
    Text(Seq<EntityView>),
    Relation(RelationView),
}

impl View for Content {
    type V = ContentView;

    open spec fn view(&self) -> ContentView {
        match self {
            Content::Text(t) => ContentView::Text(t@),
            Content::Relation(r) => ContentView::Relation(r@),
        }
    }
}

impl Clone for Content {
    fn clone(&self) -> (r: Self)
        ensures
            r@ == self@,
    {
        match self {
            Content::Text(t) => Content::Text(t.clone()),
            Content::Relation(r) => Content::Relation(r.clone()),
        }
    }
}

/// The 128-bit xxh3 hash (default secret, no seed) of a byte sequence.
pub uninterp spec fn xxh3_128(data: Seq<u8>) -> u128;

/// Calls `xxhash_rust::xxh3::xxh3_128`; the contract claims only that the hash is a function
/// of the bytes.
#[verifier::external_body]
fn xxh3_128_of(data: &[u8]) -> (h: u128)
    ensures
        h == xxh3_128(data@),
{
    xxhash_rust::xxh3::xxh3_128(data)
}

/// The sixteen bytes of `x`, most significant first.
pub open spec fn be_bytes(x: u128) -> Seq<u8> {
    Seq::new(16, |i: int| (x >> ((120 - 8 * i) as u128)) as u8)
}

/// The `k` low bytes of `n`, least significant first.
pub open spec fn le_bytes(n: u64, k: nat) -> Seq<u8> {
    Seq::new(k, |i: int| ((n >> ((8 * i) as u64)) & 0xff) as u8)
}

/// A length as the standard binary configuration writes it (variable-length integer).
pub open spec fn varint(n: u64) -> Seq<u8> {
    if n <= 250 {
        seq![n as u8]
    } else if n <= 0xffff {
        seq![251u8] + le_bytes(n, 2)
    } else if n <= 0xffff_ffff {
        seq![252u8] + le_bytes(n, 4)
    } else {
        seq![253u8] + le_bytes(n, 8)
    }
}

/// The binary form of a relation: both identifiers as raw bytes, then the kind as a
/// length-prefixed UTF-8 string.
pub open spec fn relation_bytes(r: RelationView) -> Seq<u8> {
    let k = encode_utf8(r.kind);
    r.from + r.to + varint(k.len() as u64) + k
}

/// The bytes that the identifier of a content is the hash of.
pub open spec fn content_source(c: ContentView) -> Seq<u8> {
    match c {
        ContentView::Text(t) => encode_utf8(raw_text(t)),
        ContentView::Relation(r) => relation_bytes(r),
    }
}

/// The identifier of a content.
pub open spec fn content_id(c: ContentView) -> Seq<u8> {
    be_bytes(xxh3_128(content_source(c)))
}

pub open spec fn content_valid(c: ContentView) -> bool {
    match c {
        ContentView::Text(t) => text_valid(t),
        ContentView::Relation(r) => relation_valid(r),
    }
}

fn push_bytes(out: &mut Vec<u8>, b: &[u8])
    ensures
        final(out)@ == old(out)@ + b@,
{
    let mut i: usize = 0;
    while i < b.len()
        invariant
            i <= b@.len(),
            out@ == old(out)@ + b@.take(i as int),
        decreases b@.len() - i,
    {
        out.push(b[i]);
        assert(b@.take(i + 1) =~= b@.take(i as int).push(b@[i as int]));
        i = i + 1;
    }
    assert(b@.take(b@.len() as int) =~= b@);
}

fn push_le_bytes(out: &mut Vec<u8>, n: u64, k: u64)
    requires
        k <= 8,
    ensures
        final(out)@ == old(out)@ + le_bytes(n, k as nat),
{
    let mut i: u64 = 0;
    while i < k
        invariant
            i <= k <= 8,
            out@ == old(out)@ + le_bytes(n, i as nat),
        decreases k - i,
    {
        let s: u64 = 8 * i;
        out.push(((n >> s) & 0xff) as u8);
        assert(le_bytes(n, (i + 1) as nat) =~= le_bytes(n, i as nat).push(((n >> s) & 0xff) as u8));
        i = i + 1;
    }
}

fn push_varint(out: &mut Vec<u8>, n: u64)
    ensures
        final(out)@ == old(out)@ + varint(n),
{
    if n <= 250 {
        out.push(n as u8);
    } else if n <= 0xffff {
        out.push(251u8);
        push_le_bytes(out, n, 2);
    } else if n <= 0xffff_ffff {
        out.push(252u8);
        push_le_bytes(out, n, 4);
    } else {
        out.push(253u8);
        push_le_bytes(out, n, 8);
    }
    assert(out@ =~= old(out)@ + varint(n));
}

/// The binary form of a relation.
pub fn relation_to_bytes(relation: &Relation) -> (b: Vec<u8>)
    ensures
        b@ == relation_bytes(relation@),
{
    let mut out: Vec<u8> = Vec::new();
    push_bytes(&mut out, relation.from.value.as_slice());
    push_bytes(&mut out, relation.to.value.as_slice());
    let kind_bytes = relation.kind.0.as_str().as_bytes();
    push_varint(&mut out, kind_bytes.len() as u64);
    push_bytes(&mut out, kind_bytes);
    assert(out@ =~= relation_bytes(relation@));
    out
}

/// The sixteen bytes of `x`, most significant first.
pub fn to_be_bytes(x: u128) -> (b: [u8; 16])
    ensures
        b@ == be_bytes(x),
{
    let mut b: [u8; 16] = [0u8; 16];
    let mut i: usize = 0;
    while i < 16
        invariant
            i <= 16,
            b@.len() == 16,
            forall|j: int| 0 <= j < i ==> b@[j] == (x >> ((120 - 8 * j) as u128)) as u8,
        decreases 16 - i,
    {
        let s: u128 = (120 - 8 * i) as u128;
        b[i] = (x >> s) as u8;
        i = i + 1;
    }
    assert(b@ =~= be_bytes(x));
    b
}

impl Content {
    /// The identifier: the big-endian 128-bit xxh3 hash of the raw text's UTF-8 bytes, or of
    /// the relation's binary form.
    pub fn id(&self) -> (id: DocumentId)
        ensures
            id@ == content_id(self@),
    {
        let hash = match self {
            Content::Text(text) => {
                let raw = text.composed_raw();
                xxh3_128_of(raw.as_str().as_bytes())
            },
            Content::Relation(relation) => {
                let source = relation_to_bytes(relation);
                xxh3_128_of(source.as_slice())
            },
        };
        DocumentId { value: to_be_bytes(hash) }
    }

    pub fn validated(&self) -> (r: Result<&Self, WoolError>)
        ensures
            r is Ok <==> content_valid(self@),
            r matches Ok(x) ==> x == self,
    {
        match self {
            Content::Text(text) => {
                text.validated()?;
            },
            Content::Relation(relation) => {
                relation.validated()?;
            },
        }
        Ok(self)
    }
}

} // verus!
