//! Natural numbers of any size, as the path and key arithmetic needs them.

use vstd::prelude::*;

verus! {

/// The number that `bytes` spell in base 256, least significant byte first.
pub open spec fn le_value(bytes: Seq<u8>) -> nat
    decreases bytes.len(),
{
    if bytes.len() == 0 {
        0
    } else {
        bytes[0] as nat + 256 * le_value(bytes.drop_first())
    }
}

/// The shortest little-endian base-256 spelling of `n`; zero is spelled as one zero byte.
pub open spec fn canonical_le_bytes(n: nat) -> Seq<u8>
    decreases n,
{
    if n < 256 {
        seq![n as u8]
    } else {
        seq![(n % 256) as u8] + canonical_le_bytes(n / 256)
    }
}

/// Whether `bytes` is the shortest spelling of its value.
pub open spec fn is_canonical(bytes: Seq<u8>) -> bool {
    bytes.len() >= 1 && (bytes.len() == 1 || bytes.last() != 0)
}

/// `canonical_le_bytes(n)` is canonical and spells `n`.
pub proof fn lemma_canonical_le_bytes(n: nat)
    ensures
        is_canonical(canonical_le_bytes(n)),
        le_value(canonical_le_bytes(n)) == n,
    decreases n,
{
    let c = canonical_le_bytes(n);
    if n < 256 {
        assert(c.drop_first() =~= Seq::<u8>::empty());
        assert(le_value(c.drop_first()) == 0);
    } else {
        let rest = canonical_le_bytes(n / 256);
        lemma_canonical_le_bytes(n / 256);
        assert(c.drop_first() =~= rest);
        assert(c.last() == rest.last());
        if rest.len() == 1 {
            assert(le_value(rest.drop_first()) == 0) by {
                assert(rest.drop_first() =~= Seq::<u8>::empty());
            }
            assert(rest[0] as nat == n / 256);
        }
    }
}

/// A single byte spells its own value.
pub proof fn lemma_single_byte_value(bytes: Seq<u8>)
    ensures
        bytes.len() == 1 ==> le_value(bytes) == bytes[0] as nat,
{
    if bytes.len() == 1 {
        assert(bytes.drop_first() =~= Seq::<u8>::empty());
        assert(le_value(bytes.drop_first()) == 0);
    }
}

/// A spelling whose last byte is not zero spells a positive number.
pub proof fn lemma_le_value_positive(bytes: Seq<u8>)
    requires
        bytes.len() >= 1,
        bytes.last() != 0,
    ensures
        le_value(bytes) > 0,
    decreases bytes.len(),
{
    if bytes.len() > 1 {
        assert(bytes.drop_first().last() == bytes.last());
        lemma_le_value_positive(bytes.drop_first());
    } else {
        assert(bytes.drop_first() =~= Seq::<u8>::empty());
    }
}

/// A canonical spelling is the canonical spelling of its own value.
pub proof fn lemma_canonical_unique(bytes: Seq<u8>)
    requires
        is_canonical(bytes),
    ensures
        canonical_le_bytes(le_value(bytes)) == bytes,
    decreases bytes.len(),
{
    let rest = bytes.drop_first();
    if bytes.len() == 1 {
        assert(rest =~= Seq::<u8>::empty());
        assert(le_value(rest) == 0);
        assert(canonical_le_bytes(le_value(bytes)) =~= bytes);
    } else {
        assert(rest.last() == bytes.last());
        lemma_le_value_positive(rest);
        lemma_canonical_unique(rest);
        let n = le_value(bytes);
        assert(n == bytes[0] as nat + 256 * le_value(rest));
        assert(n / 256 == le_value(rest) && n % 256 == bytes[0] as nat) by (nonlinear_arith)
            requires
                n == bytes[0] as nat + 256 * le_value(rest),
                (bytes[0] as nat) < 256,
        ;
        assert(canonical_le_bytes(n) =~= bytes);
    }
}

/// Two spellings of one length that spell the same number are the same
/// spelling: reading bytes as a number loses nothing.
pub proof fn lemma_le_value_injective(a: Seq<u8>, b: Seq<u8>)
    requires
        a.len() == b.len(),
        le_value(a) == le_value(b),
    ensures
        a == b,
    decreases a.len(),
{
    if a.len() > 0 {
        let x = a.drop_first();
        let y = b.drop_first();
        assert(a[0] == b[0] && le_value(x) == le_value(y)) by (nonlinear_arith)
            requires
                a[0] as nat + 256 * le_value(x) == b[0] as nat + 256 * le_value(y),
                (a[0] as nat) < 256,
                (b[0] as nat) < 256,
        ;
        lemma_le_value_injective(x, y);
        assert(a =~= seq![a[0]] + x);
        assert(b =~= seq![b[0]] + y);
    } else {
        assert(a =~= b);
    }
}

/// The ASCII code of the digit `0`.
pub const DIGIT_ZERO: u8 = 0x30;

/// The ASCII code of the digit `1`.
pub const DIGIT_ONE: u8 = 0x31;

/// Whether `text` is a non-empty run of the ASCII digits `0` and `1`.
pub open spec fn is_binary_digits(text: Seq<u8>) -> bool {
    &&& text.len() > 0
    &&& forall|i: int| 0 <= i < text.len() ==> text[i] == DIGIT_ZERO || text[i] == DIGIT_ONE
}

/// The number that a run of ASCII binary digits spells, most significant digit first.
pub open spec fn binary_value(text: Seq<u8>) -> nat
    decreases text.len(),
{
    if text.len() == 0 {
        0
    } else {
        2 * binary_value(text.drop_last()) + (text.last() - DIGIT_ZERO) as nat
    }
}

/// Whether `text` is a non-empty run of the characters `0` and `1`.
pub open spec fn is_binary_string(text: Seq<char>) -> bool {
    &&& text.len() > 0
    &&& forall|i: int| 0 <= i < text.len() ==> #[trigger] text[i] == '0' || text[i] == '1'
}

/// The binary digits of `n`, most significant first, with no leading zero;
/// zero is written as the single digit `0`.
pub open spec fn binary_text(n: nat) -> Seq<char>
    decreases n,
{
    if n < 2 {
        seq![if n == 0 { '0' } else { '1' }]
    } else {
        binary_text(n / 2).push(if n % 2 == 0 { '0' } else { '1' })
    }
}

/// Calls `num_bigint::BigUint::from_bytes_le` and `to_str_radix` with radix 2.
/// Trusted: the result is the number that `bytes` spell, written in binary
/// digits, most significant first, with no leading zero (`0` for zero).
#[verifier::external_body]
fn biguint_to_binary(bytes: &[u8]) -> (text: String)
    ensures
        text@ == binary_text(le_value(bytes@)),
{
    num_bigint::BigUint::from_bytes_le(bytes).to_str_radix(2)
}

/// Calls `num_bigint::BigUint::from_bytes_le` and reads the number back with
/// `to_bytes_le`. Trusted: the result is the canonical spelling of the number
/// that `bytes` spell, least significant byte first (one zero byte for zero).
#[verifier::external_body]
fn biguint_from_bytes_le(bytes: &[u8]) -> (digits: Vec<u8>)
    ensures
        digits@ == canonical_le_bytes(le_value(bytes@)),
{
    num_bigint::BigUint::from_bytes_le(bytes).to_bytes_le()
}

/// Calls `num_bigint::BigUint::parse_bytes` with radix 2 and reads the number
/// back with `to_bytes_le`. Trusted: on a non-empty run of the digits `0` and
/// `1` the call succeeds with the canonical spelling of the number written.
/// Nothing is claimed for any other text.
#[verifier::external_body]
fn biguint_parse_binary(text: &[u8]) -> (digits: Option<Vec<u8>>)
    ensures
        is_binary_digits(text@) ==> digits is Some,
        is_binary_digits(text@) ==> digits.unwrap()@ == canonical_le_bytes(binary_value(text@)),
{
    match num_bigint::BigUint::parse_bytes(text, 2) {
        Some(n) => Some(n.to_bytes_le()),
        None => None,
    }
}

/// A natural number of any size.
///
/// The number is held as its canonical little-endian base-256 spelling, so two
/// values are equal exactly when they stand for the same number.
#[derive(Debug, Eq, Hash)]
pub struct BigNat {
    digits: Vec<u8>,
}

impl View for BigNat {
    type V = nat;

    closed spec fn view(&self) -> nat {
        le_value(self.digits@)
    }
}

impl BigNat {
    #[verifier::type_invariant]
    spec fn well_formed(&self) -> bool {
        is_canonical(self.digits@)
    }

    /// The number that `bytes` spell in base 256, least significant byte first.
    pub fn from_bytes_le(bytes: &[u8]) -> (n: BigNat)
        ensures
            n@ == le_value(bytes@),
    {
        let digits = biguint_from_bytes_le(bytes);
        proof {
            lemma_canonical_le_bytes(le_value(bytes@));
        }
        BigNat { digits }
    }

    /// The number that the bytes of `hash` spell, least significant byte first.
    pub fn from(hash: crate::hash::Hash) -> (n: BigNat)
        ensures
            n@ == le_value(hash@),
    {
        BigNat::from_bytes_le(hash.as_bytes())
    }

    /// Reads a number written in ASCII binary digits, most significant first.
    ///
    /// The text must be a non-empty run of `0` and `1`; a sign, a prefix, a
    /// separator or any other byte is refused.
    pub fn parse_binary(text: &[u8]) -> (parsed: Option<BigNat>)
        ensures
            (parsed is Some) == is_binary_digits(text@),
            parsed is Some ==> parsed.unwrap()@ == binary_value(text@),
    {
        if !is_binary_text(text) {
            return None;
        }
        match biguint_parse_binary(text) {
            Some(digits) => {
                proof {
                    lemma_canonical_le_bytes(binary_value(text@));
                }
                Some(BigNat { digits })
            },
            None => None,
        }
    }

    /// The canonical little-endian base-256 spelling of this number.
    pub fn to_bytes_le(&self) -> (bytes: Vec<u8>)
        ensures
            bytes@ == canonical_le_bytes(self@),
    {
        proof {
            use_type_invariant(self);
            lemma_canonical_unique(self.digits@);
        }
        let bytes = self.digits.clone();
        assert(bytes@ =~= self.digits@);
        bytes
    }

    /// This number in binary digits, most significant first, with no leading zero.
    pub fn to_binary(&self) -> (text: String)
        ensures
            text@ == binary_text(self@),
    {
        biguint_to_binary(self.digits.as_slice())
    }

    /// Whether this number is one.
    pub fn is_one(&self) -> (one: bool)
        ensures
            one == (self@ == 1),
    {
        proof {
            use_type_invariant(self);
            lemma_canonical_unique(self.digits@);
            lemma_single_byte_value(self.digits@);
        }
        self.digits.len() == 1 && self.digits[0] == 1
    }

    /// Whether this number is zero.
    pub fn is_zero(&self) -> (zero: bool)
        ensures
            zero == (self@ == 0),
    {
        proof {
            use_type_invariant(self);
            lemma_canonical_unique(self.digits@);
            lemma_single_byte_value(self.digits@);
        }
        self.digits.len() == 1 && self.digits[0] == 0
    }
}

/// Whether `text` is a non-empty run of the ASCII digits `0` and `1`.
pub fn is_binary_text(text: &[u8]) -> (ok: bool)
    ensures
        ok == is_binary_digits(text@),
{
    if text.len() == 0 {
        return false;
    }
    let mut i: usize = 0;
    while i < text.len()
        invariant
            i <= text.len(),
            forall|j: int| 0 <= j < i ==> text@[j] == DIGIT_ZERO || text@[j] == DIGIT_ONE,
        decreases text.len() - i,
    {
        if text[i] != DIGIT_ZERO && text[i] != DIGIT_ONE {
            return false;
        }
        i += 1;
    }
    true
}

impl PartialEq for BigNat {
    fn eq(&self, other: &BigNat) -> (equal: bool) {
        proof {
            use_type_invariant(self);
            use_type_invariant(other);
            lemma_canonical_unique(self.digits@);
            lemma_canonical_unique(other.digits@);
        }
        if self.digits.len() != other.digits.len() {
            return false;
        }
        let mut i: usize = 0;
        while i < self.digits.len()
            invariant
                i <= self.digits.len(),
                self.digits.len() == other.digits.len(),
                forall|j: int| 0 <= j < i ==> self.digits@[j] == other.digits@[j],
            decreases self.digits.len() - i,
        {
            if self.digits[i] != other.digits[i] {
                proof {
                    use_type_invariant(self);
                    use_type_invariant(other);
                    lemma_canonical_unique(self.digits@);
                    lemma_canonical_unique(other.digits@);
                }
                return false;
            }
            i += 1;
        }
        assert(self.digits@ =~= other.digits@);
        true
    }
}

impl vstd::std_specs::cmp::PartialEqSpecImpl for BigNat {
    open spec fn obeys_eq_spec() -> bool {
        true
    }

    open spec fn eq_spec(&self, other: &BigNat) -> bool {
        self@ == other@
    }
}

impl Clone for BigNat {
    fn clone(&self) -> (copy: BigNat)
        ensures
            copy@ == self@,
    {
        proof {
            use_type_invariant(self);
        }
        let digits = self.digits.clone();
        assert(digits@ =~= self.digits@);
        BigNat { digits }
    }
}

/// Text is read as a number exactly when it is a non-empty run of the
/// characters `0` and `1`: the empty text, and any other character, is refused.
pub proof fn lemma_binary_digits_accepts(text: Seq<char>)
    ensures
        is_binary_digits(vstd::utf8::encode_utf8(text)) <==> is_binary_string(text),
        is_binary_string(text) ==> vstd::utf8::encode_utf8(text).len() == text.len(),
        is_binary_string(text) ==> forall|i: int|
            0 <= i < text.len() ==> #[trigger] vstd::utf8::encode_utf8(text)[i] == text[i] as u8,
{
    let bytes = vstd::utf8::encode_utf8(text);
    crate::text::lemma_ascii_text(text);
    if is_binary_string(text) {
        assert forall|i: int| 0 <= i < text.len() implies '\0' <= #[trigger] text[i]
            <= '\u{7f}' by {
            assert(text[i] == '0' || text[i] == '1');
        }
        assert forall|i: int| 0 <= i < bytes.len() implies bytes[i] == DIGIT_ZERO || bytes[i]
            == DIGIT_ONE by {
            assert(text[i] == '0' || text[i] == '1');
            assert(bytes[i] == text[i] as u8);
        }
    }
    if is_binary_digits(bytes) {
        assert forall|i: int| 0 <= i < bytes.len() implies #[trigger] bytes[i] < 0x80 by {
            assert(bytes[i] == DIGIT_ZERO || bytes[i] == DIGIT_ONE);
        }
        assert forall|i: int| 0 <= i < text.len() implies #[trigger] text[i] == '0' || text[i]
            == '1' by {
            crate::text::lemma_char_code(text[i]);
            assert(bytes[i] == text[i] as u8);
            assert(bytes[i] == DIGIT_ZERO || bytes[i] == DIGIT_ONE);
        }
    }
}

/// The binary digits of a number are a run of `0` and `1` that spells the number.
pub proof fn lemma_binary_round_trip(n: nat)
    ensures
        is_binary_string(binary_text(n)),
        is_binary_digits(vstd::utf8::encode_utf8(binary_text(n))),
        binary_value(vstd::utf8::encode_utf8(binary_text(n))) == n,
    decreases n,
{
    let text = binary_text(n);
    let bytes = vstd::utf8::encode_utf8(text);
    if n >= 2 {
        let shorter = binary_text(n / 2);
        lemma_binary_round_trip(n / 2);
        lemma_binary_digits_accepts(shorter);
        assert forall|i: int| 0 <= i < text.len() implies #[trigger] text[i] == '0' || text[i]
            == '1' by {
            if i < shorter.len() {
                assert(text[i] == shorter[i]);
            }
        }
        lemma_binary_digits_accepts(text);
        assert(bytes.drop_last() =~= vstd::utf8::encode_utf8(shorter)) by {
            assert forall|i: int| 0 <= i < shorter.len() implies bytes[i]
                == vstd::utf8::encode_utf8(shorter)[i] by {
                assert(text[i] == shorter[i]);
            }
        }
        assert(bytes.last() == text[text.len() - 1] as u8);
    } else {
        assert(text[0] == '0' || text[0] == '1');
        lemma_binary_digits_accepts(text);
        assert(bytes[0] == text[0] as u8);
        assert(bytes.drop_last() =~= Seq::<u8>::empty());
        assert(binary_value(bytes.drop_last()) == 0);
    }
}

} // verus!
