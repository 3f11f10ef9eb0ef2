//! Byte offsets inside UTF-8 text.
//!
//! Tokens are reported by byte offset while their text is reasoned about as a
//! sequence of characters. This module relates the two.

use vstd::prelude::*;
use vstd::string::*;
use vstd::utf8::*;

verus! {

/// Number of bytes that `text` occupies once encoded as UTF-8.
pub open spec fn byte_len(text: Seq<char>) -> nat {
    encode_utf8(text).len()
}

/// The characters of a text that may be missing.
pub open spec fn chars_of(text: Option<String>) -> Option<Seq<char>> {
    match text {
        Some(text) => Some(text@),
        None => None,
    }
}

/// Number of bytes in the UTF-8 encoding of one character.
pub open spec fn char_width(c: char) -> nat {
    encode_scalar(c as u32).len()
}

/// Byte offset at which the character with index `k` starts.
pub open spec fn byte_offset(text: Seq<char>, k: int) -> nat {
    byte_len(text.take(k))
}

/// Encoding distributes over concatenation.
pub proof fn lemma_encode_concat(a: Seq<char>, b: Seq<char>)
    ensures
        encode_utf8(a + b) == encode_utf8(a) + encode_utf8(b),
    decreases a.len(),
{
    if a.len() == 0 {
        assert(a + b =~= b);
        assert(encode_utf8(a) + encode_utf8(b) =~= encode_utf8(b));
    } else {
        assert((a + b).drop_first() =~= a.drop_first() + b);
        lemma_encode_concat(a.drop_first(), b);
        assert(encode_utf8(a + b) =~= encode_utf8(a) + encode_utf8(b));
    }
}

/// Every character takes between one and four bytes.
pub proof fn lemma_char_width(c: char)
    ensures
        1 <= char_width(c) <= 4,
        byte_len(seq![c]) == char_width(c),
{
    assert(seq![c].drop_first() =~= Seq::<char>::empty());
    assert(encode_utf8(Seq::<char>::empty()) =~= Seq::<u8>::empty());
    assert(encode_utf8(seq![c]) =~= encode_scalar(c as u32));
}

/// Appending a character advances the byte length by that character's width.
pub proof fn lemma_offset_step(text: Seq<char>, k: int)
    requires
        0 <= k < text.len(),
    ensures
        byte_offset(text, k + 1) == byte_offset(text, k) + char_width(text[k]),
        byte_offset(text, k) < byte_offset(text, k + 1),
{
    assert(text.take(k + 1) =~= text.take(k) + seq![text[k]]);
    lemma_encode_concat(text.take(k), seq![text[k]]);
    lemma_char_width(text[k]);
}

/// The bytes of a text split, at the offset of any character, into the bytes of
/// what comes before that character and the bytes of what comes from it on.
pub proof fn lemma_offset_split(text: Seq<char>, k: int)
    requires
        0 <= k <= text.len(),
    ensures
        byte_offset(text, k) <= byte_len(text),
        byte_offset(text, k) + byte_len(text.skip(k)) == byte_len(text),
        encode_utf8(text).subrange(0, byte_offset(text, k) as int) == encode_utf8(text.take(k)),
        encode_utf8(text).subrange(byte_offset(text, k) as int, byte_len(text) as int)
            == encode_utf8(text.skip(k)),
{
    assert(text =~= text.take(k) + text.skip(k));
    lemma_encode_concat(text.take(k), text.skip(k));
    let head = encode_utf8(text.take(k));
    let tail = encode_utf8(text.skip(k));
    assert((head + tail).subrange(0, head.len() as int) =~= head);
    assert((head + tail).subrange(head.len() as int, (head + tail).len() as int) =~= tail);
}

/// Offsets grow with the character index.
pub proof fn lemma_offset_monotonic(text: Seq<char>, a: int, b: int)
    requires
        0 <= a <= b <= text.len(),
    ensures
        byte_offset(text, a) <= byte_offset(text, b),
        byte_offset(text, b) == byte_offset(text, a) + byte_len(text.subrange(a, b)),
{
    assert(text.take(b) =~= text.take(a) + text.subrange(a, b));
    lemma_encode_concat(text.take(a), text.subrange(a, b));
}

/// The offset of every character is a character boundary of the encoded text.
pub proof fn lemma_offset_is_boundary(text: Seq<char>, k: int)
    requires
        0 <= k <= text.len(),
    ensures
        is_char_boundary(encode_utf8(text), byte_offset(text, k) as int),
    decreases k,
{
    broadcast use encode_utf8_valid_utf8;

    let bytes = encode_utf8(text);
    if k == 0 {
        assert(text.take(0) =~= Seq::<char>::empty());
    } else {
        let rest = text.drop_first();
        encode_utf8_first_scalar(text);
        lemma_char_width(text[0]);
        assert(pop_first_scalar(bytes) =~= encode_utf8(rest));
        assert(text.take(k).drop_first() =~= rest.take(k - 1));
        assert(text.take(k)[0] == text[0]);
        lemma_offset_split(text, k);
        lemma_offset_is_boundary(rest, k - 1);
    }
}

/// Width in bytes of the UTF-8 encoding of `c`.
pub fn utf8_width(c: char) -> (n: usize)
    ensures
        n == char_width(c),
        1 <= n <= 4,
{
    proof {
        char_is_scalar(c);
    }
    let v = c as u32;
    if v < 0x80 {
        1
    } else if v < 0x800 {
        2
    } else if v < 0x10000 {
        3
    } else {
        4
    }
}

/// The part of `s` between two character offsets, given as byte offsets.
pub(crate) fn substr<'a>(
    s: &'a str,
    from: usize,
    to: usize,
    Ghost(a): Ghost<int>,
    Ghost(b): Ghost<int>,
) -> (part: &'a str)
    requires
        0 <= a <= b <= s@.len(),
        from == byte_offset(s@, a),
        to == byte_offset(s@, b),
    ensures
        part@ == s@.subrange(a, b),
{
    broadcast use encode_utf8_valid_utf8, encode_utf8_decode_utf8;

    proof {
        lemma_offset_is_boundary(s@, b);
        lemma_offset_split(s@, b);
    }
    let (head, _) = s.split_at(to);
    proof {
        assert(encode_utf8(head@) == encode_utf8(s@.take(b)));
        assert(decode_utf8(encode_utf8(head@)) == decode_utf8(encode_utf8(s@.take(b))));
        assert(head@ == s@.take(b));
        assert(head@.take(a) =~= s@.take(a));
        lemma_offset_is_boundary(head@, a);
        lemma_offset_split(head@, a);
    }
    let (_, tail) = head.split_at(from);
    proof {
        assert(encode_utf8(tail@) == encode_utf8(head@.skip(a)));
        assert(decode_utf8(encode_utf8(tail@)) == decode_utf8(encode_utf8(head@.skip(a))));
        assert(head@.skip(a) =~= s@.subrange(a, b));
    }
    tail
}

/// Calls `core::str::from_utf8`: `Some` exactly when the bytes are well-formed
/// UTF-8, and then the text they encode.
#[verifier::external_body]
pub(crate) fn decode<'a>(bytes: &'a [u8]) -> (text: Option<&'a str>)
    ensures
        text.is_some() == valid_utf8(bytes@),
        text.is_some() ==> text.unwrap()@ == decode_utf8(bytes@),
{
    match core::str::from_utf8(bytes) {
        Ok(text) => Some(text),
        Err(_) => None,
    }
}

/// Whether two texts hold the same characters.
pub fn str_eq(a: &str, b: &str) -> (same: bool)
    ensures
        same == (a@ == b@),
{
    broadcast use encode_utf8_decode_utf8;

    let x = a.as_bytes();
    let y = b.as_bytes();
    if x.len() != y.len() {
        return false;
    }
    let mut i: usize = 0;
    while i < x.len()
        invariant
            i <= x.len(),
            x@.len() == y@.len(),
            x@ == encode_utf8(a@),
            y@ == encode_utf8(b@),
            forall|j: int| 0 <= j < i ==> x@[j] == y@[j],
        decreases x.len() - i,
    {
        if x[i] != y[i] {
            return false;
        }
        i += 1;
    }
    assert(x@ =~= y@);
    assert(decode_utf8(encode_utf8(a@)) == decode_utf8(encode_utf8(b@)));
    true
}

} // verus!
