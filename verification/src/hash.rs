//! Fixed-size hash values.

use vstd::prelude::*;
use vstd::string::StringExecFns;
use vstd::string::StringSliceAdditionalSpecFns;

verus! {

/// Why a text is not the hexadecimal form of a hash.
#[derive(Clone, Copy, Debug, PartialEq, Eq, Structural)]
pub enum HexDecodeError {
    /// The byte `c` at position `index` is not a hexadecimal digit.
    InvalidHexCharacter { c: char, index: usize },
    /// The text has an odd number of bytes.
    OddLength,
    /// The text does not have two digits for each byte of a hash.
    InvalidStringLength,
}

/// The value of the ASCII hexadecimal digit `digit`, in either case.
pub open spec fn hex_digit_value(digit: u8) -> Option<u8> {
    if 0x30 <= digit <= 0x39 {
        Some((digit - 0x30) as u8)
    } else if 0x61 <= digit <= 0x66 {
        Some((digit - 0x61 + 10) as u8)
    } else if 0x41 <= digit <= 0x46 {
        Some((digit - 0x41 + 10) as u8)
    } else {
        None
    }
}

/// The lower-case ASCII hexadecimal digit of a value below sixteen.
pub open spec fn lower_hex_digit(value: u8) -> u8 {
    if value < 10 {
        (0x30 + value) as u8
    } else {
        (0x61 + value - 10) as u8
    }
}

/// The lower-case hexadecimal form of `bytes`: two digits for each byte, the
/// high half first.
pub open spec fn hex_text(bytes: Seq<u8>) -> Seq<char> {
    Seq::new(
        2 * bytes.len(),
        |i: int|
            if i % 2 == 0 {
                lower_hex_digit(bytes[i / 2] / 16) as char
            } else {
                lower_hex_digit(bytes[i / 2] % 16) as char
            },
    )
}

/// The position of the first byte of `text` that is no hexadecimal digit, or
/// the length of `text` if there is none.
pub open spec fn first_non_hex(text: Seq<u8>) -> int
    decreases text.len(),
{
    if text.len() == 0 {
        0
    } else if hex_digit_value(text[0]) is None {
        0
    } else {
        1 + first_non_hex(text.drop_first())
    }
}

/// The bytes that sixty-four hexadecimal digits spell.
pub open spec fn hex_bytes(text: Seq<u8>) -> Seq<u8> {
    Seq::new(
        32,
        |i: int| (16 * hex_digit_value(text[2 * i]).unwrap() + hex_digit_value(text[2 * i + 1]).unwrap()) as u8,
    )
}

/// What decoding the hexadecimal form of a hash gives, for any text.
///
/// The text must be exactly sixty-four hexadecimal digits, in either case.
pub open spec fn hex_decode(text: Seq<u8>) -> Result<Seq<u8>, HexDecodeError> {
    if text.len() % 2 != 0 {
        Err(HexDecodeError::OddLength)
    } else if text.len() != 64 {
        Err(HexDecodeError::InvalidStringLength)
    } else if first_non_hex(text) < text.len() {
        Err(
            HexDecodeError::InvalidHexCharacter {
                c: text[first_non_hex(text)] as char,
                index: first_non_hex(text) as usize,
            },
        )
    } else {
        Ok(hex_bytes(text))
    }
}

/// The bytes of a decoded buffer, or the error that came instead.
pub open spec fn decoded_bytes(decoded: Result<[u8; 32], HexDecodeError>) -> Result<
    Seq<u8>,
    HexDecodeError,
> {
    match decoded {
        Ok(bytes) => Ok(bytes@),
        Err(e) => Err(e),
    }
}

/// The bytes of a decoded hash, or the error that came instead.
pub open spec fn decoded_hash(decoded: Result<Hash, HexDecodeError>) -> Result<
    Seq<u8>,
    HexDecodeError,
> {
    match decoded {
        Ok(hash) => Ok(hash@),
        Err(e) => Err(e),
    }
}

/// Calls `hex::encode`. Trusted: the result is the lower-case hexadecimal form
/// of `bytes`, two digits for each byte.
#[verifier::external_body]
fn hex_encode(bytes: &[u8]) -> (text: String)
    ensures
        text@ == hex_text(bytes@),
{
    ::hex::encode(bytes)
}

/// Calls `hex::decode_to_slice` on a buffer of thirty-two bytes. Trusted: the
/// call succeeds exactly on sixty-four hexadecimal digits and then gives the
/// bytes they spell; otherwise it fails on an odd length first, then on any
/// other length than sixty-four, then on the first byte that is no digit.
#[verifier::external_body]
fn hex_decode_to_array(text: &[u8]) -> (decoded: Result<[u8; 32], HexDecodeError>)
    ensures
        decoded_bytes(decoded) == hex_decode(text@),
{
    let mut out = [0u8; 32];
    match ::hex::decode_to_slice(text, &mut out) {
        Ok(()) => Ok(out),
        Err(::hex::FromHexError::InvalidHexCharacter { c, index }) => Err(
            HexDecodeError::InvalidHexCharacter { c, index },
        ),
        Err(::hex::FromHexError::OddLength) => Err(HexDecodeError::OddLength),
        Err(::hex::FromHexError::InvalidStringLength) => Err(HexDecodeError::InvalidStringLength),
    }
}

/// An opaque 32-byte identifier of a trie node.
#[derive(Copy, Clone, Debug, Eq, Ord, Hash)]
pub struct Hash(pub [u8; 32]);

impl View for Hash {
    type V = Seq<u8>;

    open spec fn view(&self) -> Seq<u8> {
        self.0@
    }
}

/// The thirty-two zero bytes that stand for "no hash".
pub open spec fn zero_bytes() -> Seq<u8> {
    Seq::new(32, |i: int| 0u8)
}

impl Hash {
    /// Creates a hash from its bytes.
    pub fn new(value: [u8; 32]) -> (h: Hash)
        ensures
            h@ == value@,
    {
        Hash(value)
    }

    /// The lower-case hexadecimal form of this hash.
    pub fn hex(&self) -> (text: String)
        ensures
            text@ == hex_text(self@),
    {
        hex_encode(self.as_bytes())
    }

    /// Reads a hash from its hexadecimal form: exactly sixty-four digits, in
    /// either case, with no prefix.
    pub fn try_from(value: &str) -> (decoded: Result<Hash, HexDecodeError>)
        ensures
            decoded_hash(decoded) == hex_decode(value.spec_bytes()),
    {
        match hex_decode_to_array(value.as_bytes()) {
            Ok(bytes) => Ok(Hash(bytes)),
            Err(e) => Err(e),
        }
    }

    /// The hash as it is shown to a reader: `0x`, then its hexadecimal form.
    pub fn to_string(&self) -> (text: String)
        ensures
            text@ == seq!['0', 'x'] + hex_text(self@),
    {
        let digits = self.hex();
        let prefix = String::from_str("0x");
        proof {
            reveal_strlit("0x");
            assert("0x"@ =~= seq!['0', 'x']);
        }
        prefix.concat(digits.as_str())
    }

    /// The bytes of this hash, as an array.
    pub fn as_ref(&self) -> (bytes: &[u8; 32])
        ensures
            bytes@ == self@,
    {
        &self.0
    }

    /// The bytes of this hash, for writing.
    pub fn as_mut(&mut self) -> (bytes: &mut [u8; 32])
        ensures
            bytes@ == old(self)@,
            final(self)@ == final(bytes)@,
    {
        &mut self.0
    }

    /// The bytes of this hash.
    pub fn as_bytes(&self) -> (bytes: &[u8])
        ensures
            bytes@ == self@,
    {
        let bytes = self.0.as_slice();
        bytes
    }

    /// The zero hash, which marks an empty subtree.
    pub fn zero() -> (h: Hash)
        ensures
            h@ == zero_bytes(),
    {
        let h = Hash([0u8; 32]);
        assert(h@ =~= zero_bytes());
        h
    }
}

impl Default for Hash {
    fn default() -> (h: Hash)
        ensures
            h@ == zero_bytes(),
    {
        Hash::zero()
    }
}

impl PartialEq for Hash {
    fn eq(&self, other: &Hash) -> (equal: bool) {
        let mut i: usize = 0;
        while i < 32
            invariant
                i <= 32,
                forall|j: int| 0 <= j < i ==> self.0@[j] == other.0@[j],
            decreases 32 - i,
        {
            if self.0[i] != other.0[i] {
                return false;
            }
            i += 1;
        }
        assert(self.0@ =~= other.0@);
        true
    }
}

impl vstd::std_specs::cmp::PartialEqSpecImpl for Hash {
    open spec fn obeys_eq_spec() -> bool {
        true
    }

    open spec fn eq_spec(&self, other: &Hash) -> bool {
        self@ == other@
    }
}

/// Whether `c` is a hexadecimal digit, in either case.
pub open spec fn is_hex_char(c: char) -> bool {
    ('0' <= c && c <= '9') || ('a' <= c && c <= 'f') || ('A' <= c && c <= 'F')
}

/// Whether `text` is exactly sixty-four hexadecimal digits.
pub open spec fn is_hash_text(text: Seq<char>) -> bool {
    text.len() == 64 && forall|i: int| 0 <= i < text.len() ==> is_hex_char(#[trigger] text[i])
}

/// `first_non_hex` finds the first byte that is no hexadecimal digit.
pub proof fn lemma_first_non_hex(text: Seq<u8>)
    ensures
        0 <= first_non_hex(text) <= text.len(),
        forall|i: int| 0 <= i < first_non_hex(text) ==> hex_digit_value(#[trigger] text[i]) is Some,
        first_non_hex(text) < text.len() ==> hex_digit_value(text[first_non_hex(text)]) is None,
    decreases text.len(),
{
    if text.len() > 0 && hex_digit_value(text[0]) is Some {
        let rest = text.drop_first();
        lemma_first_non_hex(rest);
        assert forall|i: int| 0 <= i < first_non_hex(text) implies hex_digit_value(
            #[trigger] text[i],
        ) is Some by {
            if i > 0 {
                assert(text[i] == rest[i - 1]);
            }
        }
        if first_non_hex(text) < text.len() {
            assert(text[first_non_hex(text)] == rest[first_non_hex(rest)]);
        }
    }
}

/// A character is a hexadecimal digit exactly when it is an ASCII character
/// whose code is one.
pub proof fn lemma_hex_char(c: char)
    ensures
        is_hex_char(c) <==> c as u32 <= 0x7F && hex_digit_value(c as u8) is Some,
{
    crate::text::lemma_char_code(c);
}

/// Decoding accepts a text exactly when it is sixty-four hexadecimal digits:
/// any other length, and any character that is no hexadecimal digit, is an error.
pub proof fn lemma_hex_decode_accepts(text: Seq<char>)
    ensures
        hex_decode(vstd::utf8::encode_utf8(text)) is Ok <==> is_hash_text(text),
{
    let bytes = vstd::utf8::encode_utf8(text);
    crate::text::lemma_ascii_text(text);
    lemma_first_non_hex(bytes);
    if is_hash_text(text) {
        assert forall|i: int| 0 <= i < text.len() implies '\0' <= #[trigger] text[i]
            <= '\u{7f}' by {
            lemma_hex_char(text[i]);
            crate::text::lemma_char_code(text[i]);
        }
        if first_non_hex(bytes) < bytes.len() {
            let k = first_non_hex(bytes);
            lemma_hex_char(text[k]);
            assert(bytes[k] == text[k] as u8);
            assert(false);
        }
    }
    if hex_decode(bytes) is Ok {
        assert forall|i: int| 0 <= i < bytes.len() implies #[trigger] bytes[i] < 0x80 by {
            assert(hex_digit_value(bytes[i]) is Some);
        }
        assert forall|i: int| 0 <= i < text.len() implies is_hex_char(#[trigger] text[i]) by {
            lemma_hex_char(text[i]);
            crate::text::lemma_char_code(text[i]);
            assert(bytes[i] == text[i] as u8);
            assert(hex_digit_value(bytes[i]) is Some);
        }
    }
}

/// A digit written in lower case reads back as its value.
pub proof fn lemma_lower_hex_digit(value: u8)
    requires
        value < 16,
    ensures
        hex_digit_value(lower_hex_digit(value)) == Some(value),
        lower_hex_digit(value) < 0x80,
        (lower_hex_digit(value) as char) as u8 == lower_hex_digit(value),
        (lower_hex_digit(value) as char) as u32 <= 0x7F,
{
}

/// Decoding the hexadecimal form of a hash gives the hash back.
pub proof fn lemma_hex_round_trip(bytes: Seq<u8>)
    requires
        bytes.len() == 32,
    ensures
        hex_decode(vstd::utf8::encode_utf8(hex_text(bytes))) == Ok::<Seq<u8>, HexDecodeError>(bytes),
{
    let text = hex_text(bytes);
    let encoded = vstd::utf8::encode_utf8(text);
    assert forall|i: int| 0 <= i < text.len() implies '\0' <= #[trigger] text[i] <= '\u{7f}' by {
        lemma_lower_hex_digit(bytes[i / 2] / 16);
        lemma_lower_hex_digit(bytes[i / 2] % 16);
        crate::text::lemma_char_code(text[i]);
    }
    crate::text::lemma_ascii_text(text);
    lemma_first_non_hex(encoded);
    assert forall|i: int| 0 <= i < 64 implies hex_digit_value(#[trigger] encoded[i]) == Some(
        if i % 2 == 0 {
            bytes[i / 2] / 16
        } else {
            bytes[i / 2] % 16
        },
    ) by {
        lemma_lower_hex_digit(bytes[i / 2] / 16);
        lemma_lower_hex_digit(bytes[i / 2] % 16);
        assert(encoded[i] == text[i] as u8);
    }
    if first_non_hex(encoded) < encoded.len() {
        assert(hex_digit_value(encoded[first_non_hex(encoded)]) is Some);
    }
    assert(hex_bytes(encoded) =~= bytes) by {
        assert forall|i: int| 0 <= i < 32 implies hex_bytes(encoded)[i] == bytes[i] by {
            assert(hex_digit_value(encoded[2 * i]) == Some(bytes[i] / 16));
            assert(hex_digit_value(encoded[2 * i + 1]) == Some(bytes[i] % 16));
        }
    }
}

} // verus!
