use vstd::prelude::*;

use crate::strings::{chars_of, push_char};

verus! {

/// The identifier of a thesis: sixteen bytes fully determined by the thesis content.
/// In text and commands it is written as url-safe base64 without padding (22 characters).
#[derive(Debug, Clone, Copy, PartialEq, Eq, PartialOrd, Ord, Hash)]
pub struct DocumentId {
    pub value: [u8; 16],
}

impl View for DocumentId {
    type V = Seq<u8>;

    open spec fn view(&self) -> Seq<u8> {
        self.value@
    }
}

/// The character that stands for the six-bit value `v` (url-safe alphabet).
pub open spec fn b64_char(v: u8) -> char {
    if v < 26 {
        (65 + v) as char
    } else if v < 52 {
        (97 + (v - 26)) as char
    } else if v < 62 {
        (48 + (v - 52)) as char
    } else if v == 62 {
        '-'
    } else {
        '_'
    }
}

/// The six-bit value a character stands for, if it belongs to the url-safe alphabet.
pub open spec fn b64_value(c: char) -> Option<u8> {
    if 'A' <= c && c <= 'Z' {
        Some((c as u8 - 65) as u8)
    } else if 'a' <= c && c <= 'z' {
        Some((c as u8 - 97 + 26) as u8)
    } else if '0' <= c && c <= '9' {
        Some((c as u8 - 48 + 52) as u8)
    } else if c == '-' {
        Some(62u8)
    } else if c == '_' {
        Some(63u8)
    } else {
        None
    }
}

/// Url-safe base64 of a byte sequence, without padding.
pub open spec fn encode_b64(b: Seq<u8>) -> Seq<char>
    decreases b.len(),
{
    if b.len() == 0 {
        seq![]
    } else if b.len() == 1 {
        seq![b64_char(b[0] >> 2), b64_char((b[0] & 3) << 4)]
    } else if b.len() == 2 {
        seq![
            b64_char(b[0] >> 2),
            b64_char(((b[0] & 3) << 4) | (b[1] >> 4)),
            b64_char((b[1] & 15) << 2),
        ]
    } else {
        seq![
            b64_char(b[0] >> 2),
            b64_char(((b[0] & 3) << 4) | (b[1] >> 4)),
            b64_char(((b[1] & 15) << 2) | (b[2] >> 6)),
            b64_char(b[2] & 63),
        ] + encode_b64(b.skip(3))
    }
}

/// The bytes that url-safe base64 without padding stands for; `None` when a character is
/// outside the alphabet, the length leaves a single character, or unused trailing bits are set.
pub open spec fn decode_b64(s: Seq<char>) -> Option<Seq<u8>>
    decreases s.len(),
{
    if s.len() == 0 {
        Some(seq![])
    } else if s.len() == 1 {
        None
    } else if s.len() == 2 {
        match (b64_value(s[0]), b64_value(s[1])) {
            (Some(a), Some(b)) => if b & 15 == 0 {
                Some(seq![(a << 2) | (b >> 4)])
            } else {
                None
            },
            _ => None,
        }
    } else if s.len() == 3 {
        match (b64_value(s[0]), b64_value(s[1]), b64_value(s[2])) {
            (Some(a), Some(b), Some(c)) => if c & 3 == 0 {
                Some(seq![(a << 2) | (b >> 4), (b << 4) | (c >> 2)])
            } else {
                None
            },
            _ => None,
        }
    } else {
        match (b64_value(s[0]), b64_value(s[1]), b64_value(s[2]), b64_value(s[3])) {
            (Some(a), Some(b), Some(c), Some(d)) => match decode_b64(s.skip(4)) {
                Some(rest) => Some(seq![(a << 2) | (b >> 4), (b << 4) | (c >> 2), (c << 6) | d] + rest),
                None => None,
            },
            _ => None,
        }
    }
}

/// The written form of an identifier: 22 characters.
pub open spec fn id_text(id: Seq<u8>) -> Seq<char> {
    encode_b64(id)
}

/// The identifier that a written form stands for, if any.
pub open spec fn id_from_text(s: Seq<char>) -> Option<Seq<u8>> {
    if s.len() == 22 {
        decode_b64(s)
    } else {
        None
    }
}

proof fn lemma_char_value(v: u8)
    requires
        v < 64,
    ensures
        b64_value(b64_char(v)) == Some(v),
{
}

proof fn lemma_value_char(c: char)
    requires
        b64_value(c) is Some,
    ensures
        b64_value(c).unwrap() < 64,
        b64_char(b64_value(c).unwrap()) == c,
{
}

proof fn lemma_group3(x: u8, y: u8, z: u8)
    ensures
        (x >> 2) < 64,
        (((x & 3) << 4) | (y >> 4)) < 64,
        (((y & 15) << 2) | (z >> 6)) < 64,
        (z & 63) < 64,
        ((x & 3) << 4) < 64,
        ((y & 15) << 2) < 64,
        (((x >> 2) << 2) | ((((x & 3) << 4) | (y >> 4)) >> 4)) == x,
        (((((x & 3) << 4) | (y >> 4)) << 4) | ((((y & 15) << 2) | (z >> 6)) >> 2)) == y,
        (((((y & 15) << 2) | (z >> 6)) << 6) | (z & 63)) == z,
        (((x & 3) << 4) & 15) == 0,
        ((((x & 3) << 4) | (y >> 4)) << 4) | ((((y & 15) << 2)) >> 2) == y,
        (((y & 15) << 2) & 3) == 0,
        (((x >> 2) << 2) | (((x & 3) << 4) >> 4)) == x,
{
    assert((x >> 2) < 64) by (bit_vector);
    assert((((x & 3) << 4) | (y >> 4)) < 64) by (bit_vector);
    assert((((y & 15) << 2) | (z >> 6)) < 64) by (bit_vector);
    assert((z & 63) < 64) by (bit_vector);
    assert(((x & 3) << 4) < 64) by (bit_vector);
    assert(((y & 15) << 2) < 64) by (bit_vector);
    assert((((x >> 2) << 2) | ((((x & 3) << 4) | (y >> 4)) >> 4)) == x) by (bit_vector);
    assert((((((x & 3) << 4) | (y >> 4)) << 4) | ((((y & 15) << 2) | (z >> 6)) >> 2)) == y) by (bit_vector);
    assert((((((y & 15) << 2) | (z >> 6)) << 6) | (z & 63)) == z) by (bit_vector);
    assert((((x & 3) << 4) & 15) == 0) by (bit_vector);
    assert(((((x & 3) << 4) | (y >> 4)) << 4) | ((((y & 15) << 2)) >> 2) == y) by (bit_vector);
    assert((((y & 15) << 2) & 3) == 0) by (bit_vector);
    assert((((x >> 2) << 2) | (((x & 3) << 4) >> 4)) == x) by (bit_vector);
}

proof fn lemma_group4(a: u8, b: u8, c: u8, d: u8)
    requires
        a < 64,
        b < 64,
        c < 64,
        d < 64,
    ensures
        ((a << 2) | (b >> 4)) >> 2 == a,
        ((((a << 2) | (b >> 4)) & 3) << 4) | (((b << 4) | (c >> 2)) >> 4) == b,
        ((((b << 4) | (c >> 2)) & 15) << 2) | (((c << 6) | d) >> 6) == c,
        ((c << 6) | d) & 63 == d,
        (b & 15 == 0) ==> ((((a << 2) | (b >> 4)) & 3) << 4) == b,
        (c & 3 == 0) ==> ((((b << 4) | (c >> 2)) & 15) << 2) == c,
{
    assert(((a << 2) | (b >> 4)) >> 2 == a) by (bit_vector)
        requires a < 64 && b < 64;
    assert(((((a << 2) | (b >> 4)) & 3) << 4) | (((b << 4) | (c >> 2)) >> 4) == b) by (bit_vector)
        requires a < 64 && b < 64 && c < 64;
    assert(((((b << 4) | (c >> 2)) & 15) << 2) | (((c << 6) | d) >> 6) == c) by (bit_vector)
        requires b < 64 && c < 64 && d < 64;
    assert(((c << 6) | d) & 63 == d) by (bit_vector)
        requires d < 64;
    assert((b & 15 == 0) ==> ((((a << 2) | (b >> 4)) & 3) << 4) == b) by (bit_vector)
        requires b < 64;
    assert((c & 3 == 0) ==> ((((b << 4) | (c >> 2)) & 15) << 2) == c) by (bit_vector)
        requires c < 64;
}

/// Decoding what was encoded gives the bytes back.
pub proof fn lemma_decode_encode(b: Seq<u8>)
    ensures
        decode_b64(encode_b64(b)) == Some(b),
    decreases b.len(),
{
    let e = encode_b64(b);
    if b.len() == 0 {
    } else if b.len() == 1 {
        lemma_group3(b[0], 0, 0);
        lemma_char_value(b[0] >> 2);
        lemma_char_value((b[0] & 3) << 4);
        assert(decode_b64(e).unwrap() =~= b);
    } else if b.len() == 2 {
        lemma_group3(b[0], b[1], 0);
        lemma_char_value(b[0] >> 2);
        lemma_char_value(((b[0] & 3) << 4) | (b[1] >> 4));
        lemma_char_value((b[1] & 15) << 2);
        assert(decode_b64(e).unwrap() =~= b);
    } else {
        lemma_group3(b[0], b[1], b[2]);
        lemma_char_value(b[0] >> 2);
        lemma_char_value(((b[0] & 3) << 4) | (b[1] >> 4));
        lemma_char_value(((b[1] & 15) << 2) | (b[2] >> 6));
        lemma_char_value(b[2] & 63);
        lemma_decode_encode(b.skip(3));
        assert(e.skip(4) =~= encode_b64(b.skip(3)));
        assert(decode_b64(e).unwrap() =~= b);
    }
}

/// Whatever decodes is the encoding of what it decodes to.
pub proof fn lemma_encode_decode(s: Seq<char>)
    requires
        decode_b64(s) is Some,
    ensures
        encode_b64(decode_b64(s).unwrap()) == s,
    decreases s.len(),
{
    let d = decode_b64(s).unwrap();
    if s.len() == 0 {
    } else if s.len() == 2 {
        lemma_value_char(s[0]);
        lemma_value_char(s[1]);
        lemma_group4(b64_value(s[0]).unwrap(), b64_value(s[1]).unwrap(), 0, 0);
        assert(encode_b64(d) =~= s);
    } else if s.len() == 3 {
        lemma_value_char(s[0]);
        lemma_value_char(s[1]);
        lemma_value_char(s[2]);
        lemma_group4(b64_value(s[0]).unwrap(), b64_value(s[1]).unwrap(), b64_value(s[2]).unwrap(), 0);
        assert(encode_b64(d) =~= s);
    } else {
        lemma_value_char(s[0]);
        lemma_value_char(s[1]);
        lemma_value_char(s[2]);
        lemma_value_char(s[3]);
        lemma_group4(
            b64_value(s[0]).unwrap(),
            b64_value(s[1]).unwrap(),
            b64_value(s[2]).unwrap(),
            b64_value(s[3]).unwrap(),
        );
        lemma_encode_decode(s.skip(4));
        assert(d.skip(3) =~= decode_b64(s.skip(4)).unwrap());
        assert(encode_b64(d) =~= s);
    }
}

/// Every character of an encoding belongs to the alphabet.
pub proof fn lemma_encode_in_alphabet(b: Seq<u8>)
    ensures
        forall|k: int| 0 <= k < encode_b64(b).len() ==> #[trigger] b64_value(encode_b64(b)[k]) is Some,
    decreases b.len(),
{
    let e = encode_b64(b);
    if b.len() == 0 {
    } else if b.len() == 1 {
        lemma_group3(b[0], 0, 0);
        lemma_char_value(b[0] >> 2);
        lemma_char_value((b[0] & 3) << 4);
    } else if b.len() == 2 {
        lemma_group3(b[0], b[1], 0);
        lemma_char_value(b[0] >> 2);
        lemma_char_value(((b[0] & 3) << 4) | (b[1] >> 4));
        lemma_char_value((b[1] & 15) << 2);
    } else {
        lemma_group3(b[0], b[1], b[2]);
        lemma_char_value(b[0] >> 2);
        lemma_char_value(((b[0] & 3) << 4) | (b[1] >> 4));
        lemma_char_value(((b[1] & 15) << 2) | (b[2] >> 6));
        lemma_char_value(b[2] & 63);
        lemma_encode_in_alphabet(b.skip(3));
        assert forall|k: int| 4 <= k < e.len() implies #[trigger] b64_value(e[k]) is Some by {
            assert(e[k] == encode_b64(b.skip(3))[k - 4]);
        }
    }
}

pub proof fn lemma_encode_len(b: Seq<u8>)
    ensures
        encode_b64(b).len() == (4 * b.len() + 2) / 3,
    decreases b.len(),
{
    if b.len() >= 3 {
        lemma_encode_len(b.skip(3));
    }
}

/// Reading the written form of an identifier gives the identifier back.
pub proof fn lemma_id_text_roundtrip(id: Seq<u8>)
    requires
        id.len() == 16,
    ensures
        id_from_text(id_text(id)) == Some(id),
{
    lemma_encode_len(id);
    lemma_decode_encode(id);
}

/// A written form that reads as an identifier is exactly that identifier's written form.
pub proof fn lemma_text_id_roundtrip(s: Seq<char>)
    requires
        id_from_text(s) is Some,
    ensures
        id_text(id_from_text(s).unwrap()) == s,
{
    lemma_encode_decode(s);
}

fn b64_char_exec(v: u8) -> (c: char)
    requires
        v < 64,
    ensures
        c == b64_char(v),
{
    if v < 26 {
        (65 + v) as char
    } else if v < 52 {
        (97 + (v - 26)) as char
    } else if v < 62 {
        (48 + (v - 52)) as char
    } else if v == 62 {
        '-'
    } else {
        '_'
    }
}

fn b64_value_exec(c: char) -> (r: Option<u8>)
    ensures
        r == b64_value(c),
{
    if 'A' <= c && c <= 'Z' {
        Some((c as u8 - 65) as u8)
    } else if 'a' <= c && c <= 'z' {
        Some((c as u8 - 97 + 26) as u8)
    } else if '0' <= c && c <= '9' {
        Some((c as u8 - 48 + 52) as u8)
    } else if c == '-' {
        Some(62u8)
    } else if c == '_' {
        Some(63u8)
    } else {
        None
    }
}

/// Appends the url-safe base64 form of `b` to `out`.
pub fn push_b64(out: &mut String, b: &[u8])
    ensures
        final(out)@ == old(out)@ + encode_b64(b@),
{
    let len = b.len();
    let mut i: usize = 0;
    assert(b@.skip(0) =~= b@);
    while i < len
        invariant
            len == b@.len(),
            i <= len,
            old(out)@ + encode_b64(b@) == out@ + encode_b64(b@.skip(i as int)),
        decreases len - i,
    {
        let x: u8 = b[i];
        proof {
            lemma_group3(x, 0, 0);
        }
        if len - i == 1 {
            push_char(out, b64_char_exec(x >> 2));
            push_char(out, b64_char_exec((x & 3) << 4));
            i = len;
            assert(b@.skip(len as int) =~= Seq::<u8>::empty());
        } else if len - i == 2 {
            let y: u8 = b[i + 1];
            proof {
                lemma_group3(x, y, 0);
            }
            push_char(out, b64_char_exec(x >> 2));
            push_char(out, b64_char_exec(((x & 3) << 4) | (y >> 4)));
            push_char(out, b64_char_exec((y & 15) << 2));
            i = len;
            assert(b@.skip(len as int) =~= Seq::<u8>::empty());
        } else {
            let y: u8 = b[i + 1];
            let z: u8 = b[i + 2];
            proof {
                lemma_group3(x, y, z);
            }
            push_char(out, b64_char_exec(x >> 2));
            push_char(out, b64_char_exec(((x & 3) << 4) | (y >> 4)));
            push_char(out, b64_char_exec(((y & 15) << 2) | (z >> 6)));
            push_char(out, b64_char_exec(z & 63));
            assert(b@.skip(i as int).skip(3) =~= b@.skip(i + 3));
            i = i + 3;
        }
    }
    assert(b@.skip(len as int) =~= Seq::<u8>::empty());
}

impl DocumentId {
    /// The written form: url-safe base64 without padding, 22 characters.
    pub fn to_string(&self) -> (s: String)
        ensures
            s@ == id_text(self@),
            s@.len() == 22,
    {
        let mut s = String::new();
        push_b64(&mut s, self.value.as_slice());
        proof {
            lemma_encode_len(self@);
        }
        s
    }

    /// Reads the written form of an identifier.
    pub fn from_string(s: &str) -> (r: Option<DocumentId>)
        ensures
            r is Some <==> id_from_text(s@) is Some,
            r matches Some(id) ==> id@ == id_from_text(s@).unwrap(),
    {
        let v = chars_of(s);
        if v.len() != 22 {
            return None;
        }
        let mut value: [u8; 16] = [0u8; 16];
        let mut i: usize = 0;
        let mut k: usize = 0;
        assert(v@.skip(0) =~= v@);
        while i < 20
            invariant
                v@ == s@,
                v@.len() == 22,
                i <= 20,
                i % 4 == 0,
                k == i / 4 * 3,
                value@.len() == 16,
                decode_b64(v@.skip(i as int)) matches Some(rest) ==> decode_b64(v@) == Some(value@.take(k as int) + rest),
                decode_b64(v@.skip(i as int)) is None ==> decode_b64(v@) is None,
            decreases 20 - i,
        {
            let a = b64_value_exec(v[i]);
            let b = b64_value_exec(v[i + 1]);
            let c = b64_value_exec(v[i + 2]);
            let d = b64_value_exec(v[i + 3]);
            assert(v@.skip(i as int).skip(4) =~= v@.skip(i + 4));
            match (a, b, c, d) {
                (Some(a), Some(b), Some(c), Some(d)) => {
                    let ghost old_value = value@;
                    value[k] = (a << 2) | (b >> 4);
                    value[k + 1] = (b << 4) | (c >> 2);
                    value[k + 2] = (c << 6) | d;
                    assert(value@.take(k + 3) =~= old_value.take(k as int) + seq![(a << 2) | (b >> 4), (b << 4) | (c >> 2), (c << 6) | d]);
                    proof {
                        if let Some(rest) = decode_b64(v@.skip(i + 4)) {
                            assert(decode_b64(v@.skip(i as int)) == Some(seq![(a << 2) | (b >> 4), (b << 4) | (c >> 2), (c << 6) | d] + rest));
                            assert(old_value.take(k as int) + (seq![(a << 2) | (b >> 4), (b << 4) | (c >> 2), (c << 6) | d] + rest)
                                =~= value@.take(k + 3) + rest);
                        }
                    }
                },
                _ => {
                    return None;
                },
            }
            i = i + 4;
            k = k + 3;
        }
        let a = b64_value_exec(v[20]);
        let b = b64_value_exec(v[21]);
        match (a, b) {
            (Some(a), Some(b)) => {
                if b & 15 != 0 {
                    return None;
                }
                let ghost old_value = value@;
                value[15] = (a << 2) | (b >> 4);
                assert(value@ =~= old_value.take(15) + seq![(a << 2) | (b >> 4)]);
                Some(DocumentId { value })
            },
            _ => None,
        }
    }

    /// Whether two identifiers are the same.
    pub fn same_as(&self, other: &DocumentId) -> (r: bool)
        ensures
            r == (self@ == other@),
    {
        let mut i: usize = 0;
        while i < 16
            invariant
                i <= 16,
                self@.len() == 16,
                other@.len() == 16,
                forall|j: int| 0 <= j < i ==> self@[j] == other@[j],
            decreases 16 - i,
        {
            if self.value[i] != other.value[i] {
                return false;
            }
            i = i + 1;
        }
        assert(self@ =~= other@);
        true
    }
}

} // verus!
