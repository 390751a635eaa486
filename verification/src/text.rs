//! Text read as characters and as bytes: what ASCII text looks like in either
//! reading, and how to tell whether two texts are the same.

use vstd::prelude::*;
use vstd::utf8::decode_utf8;
use vstd::utf8::encode_utf8_decode_utf8;
use vstd::utf8::encode_scalar;
use vstd::utf8::encode_utf8;
use vstd::utf8::is_ascii_chars;
use vstd::utf8::is_ascii_chars_encode_utf8;

verus! {

/// Whether every byte of `bytes` is an ASCII code.
pub open spec fn is_ascii_bytes(bytes: Seq<u8>) -> bool {
    forall|i: int| 0 <= i < bytes.len() ==> #[trigger] bytes[i] < 0x80
}

/// A character is an ASCII character exactly when its code is at most 127.
pub proof fn lemma_char_code(c: char)
    ensures
        '\0' <= c,
        c as u32 <= 0x10FFFF,
        ('\0' <= c <= '\u{7f}') == (c as u32 <= 0x7F),
{
}

/// The first byte of the encoding of a character beyond ASCII is no ASCII code.
proof fn lemma_wide_scalar_leads_high(scalar: u32)
    requires
        scalar > 0x7F,
    ensures
        encode_scalar(scalar).len() >= 1,
        encode_scalar(scalar)[0] >= 0x80,
{
    let high2 = ((scalar >> 6) & 0x1F) as u8;
    let high3 = ((scalar >> 12) & 0x0F) as u8;
    let high4 = ((scalar >> 18) & 0x7) as u8;
    assert((0xC0u8 | high2) >= 0x80) by (bit_vector);
    assert((0xE0u8 | high3) >= 0x80) by (bit_vector);
    assert((0xF0u8 | high4) >= 0x80) by (bit_vector);
}

/// Text whose encoding holds ASCII codes only is made of ASCII characters.
pub proof fn lemma_ascii_bytes_are_ascii_chars(chars: Seq<char>)
    requires
        is_ascii_bytes(encode_utf8(chars)),
    ensures
        is_ascii_chars(chars),
    decreases chars.len(),
{
    if chars.len() > 0 {
        let bytes = encode_utf8(chars);
        let head = encode_scalar(chars[0] as u32);
        let rest = chars.drop_first();
        let tail = encode_utf8(rest);
        lemma_char_code(chars[0]);
        assert(bytes == head + tail);
        if chars[0] as u32 > 0x7F {
            lemma_wide_scalar_leads_high(chars[0] as u32);
            assert(bytes[0] == head[0]);
            assert(false);
        }
        assert(head.len() == 1);
        assert forall|j: int| 0 <= j < tail.len() implies #[trigger] tail[j] < 0x80 by {
            assert(tail[j] == bytes[j + 1]);
        }
        lemma_ascii_bytes_are_ascii_chars(rest);
        assert forall|i: int| 0 <= i < chars.len() implies '\0' <= #[trigger] chars[i]
            <= '\u{7f}' by {
            if i > 0 {
                assert(chars[i] == rest[i - 1]);
            }
        }
    }
}

/// ASCII text has one byte for each character: the character's code. Text
/// that holds a character beyond ASCII has a byte that is no ASCII code.
pub proof fn lemma_ascii_text(chars: Seq<char>)
    ensures
        is_ascii_chars(chars) <==> is_ascii_bytes(encode_utf8(chars)),
        is_ascii_chars(chars) ==> encode_utf8(chars).len() == chars.len(),
        is_ascii_chars(chars) ==> forall|i: int|
            0 <= i < chars.len() ==> #[trigger] encode_utf8(chars)[i] == chars[i] as u8,
{
    if is_ascii_chars(chars) {
        is_ascii_chars_encode_utf8(chars);
        assert forall|i: int| 0 <= i < encode_utf8(chars).len() implies #[trigger] encode_utf8(
            chars,
        )[i] < 0x80 by {
            assert(encode_utf8(chars)[i] == chars[i] as u8);
        }
    }
    if is_ascii_bytes(encode_utf8(chars)) {
        lemma_ascii_bytes_are_ascii_chars(chars);
    }
}

/// Two texts with the same encoding are the same text.
pub proof fn lemma_encoding_injective(a: Seq<char>, b: Seq<char>)
    requires
        encode_utf8(a) == encode_utf8(b),
    ensures
        a == b,
{
    encode_utf8_decode_utf8(a);
    encode_utf8_decode_utf8(b);
    assert(decode_utf8(encode_utf8(a)) == decode_utf8(encode_utf8(b)));
}

/// Whether two runs of bytes are the same.
pub fn bytes_equal(a: &[u8], b: &[u8]) -> (equal: bool)
    ensures
        equal == (a@ == b@),
{
    if a.len() != b.len() {
        return false;
    }
    let mut i: usize = 0;
    while i < a.len()
        invariant
            i <= a.len(),
            a.len() == b.len(),
            forall|j: int| 0 <= j < i ==> a@[j] == b@[j],
        decreases a.len() - i,
    {
        if a[i] != b[i] {
            return false;
        }
        i += 1;
    }
    assert(a@ =~= b@);
    true
}

/// Whether two texts are the same.
pub fn text_equal(a: &str, b: &str) -> (equal: bool)
    ensures
        equal == (a@ == b@),
{
    let equal = bytes_equal(a.as_bytes(), b.as_bytes());
    proof {
        if equal {
            lemma_encoding_injective(a@, b@);
        }
    }
    equal
}

} // verus!
