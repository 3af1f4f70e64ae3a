//! Keys as hexadecimal text.
use crate::crypto;
use crate::crypto::KEY_LEN;
use crate::text;
use vstd::prelude::*;
use vstd::utf8::*;

verus! {

// ---------------------------------------------------------------------------
// Hexadecimal text
// ---------------------------------------------------------------------------

/// Why a text is not hexadecimal.
#[derive(Debug, Clone, Copy, PartialEq, Eq, Structural)]
pub enum HexError {
    /// The number of bytes is odd.
    OddLength,
    /// The first byte that is no digit, as a character, and where it stands.
    InvalidCharacter { c: char, index: usize },
    /// The text has not the length that its use asks for.
    StringLength,
}

/// Bytes as lower-case hexadecimal digits, two for each byte.
pub open spec fn hex_text(d: Seq<u8>) -> Seq<char>
    decreases d.len(),
{
    if d.len() == 0 {
        Seq::empty()
    } else {
        hex_text(d.drop_last()) + text::hex2(d.last())
    }
}

/// The value of a byte that is a hexadecimal digit of either case.
pub open spec fn hex_value(b: u8) -> Option<int> {
    text::hex_digit(b as char)
}

/// The position of the first byte that is no hexadecimal digit, or the length
/// where there is none.
pub open spec fn first_bad(t: Seq<u8>) -> int
    decreases t.len(),
{
    if t.len() == 0 || hex_value(t[0]) is None {
        0
    } else {
        1 + first_bad(t.drop_first())
    }
}

/// The bytes that pairs of hexadecimal digits denote.
pub open spec fn hex_pairs(t: Seq<u8>) -> Seq<u8> {
    Seq::new(
        t.len() / 2,
        |i: int| (16 * hex_value(t[2 * i])->0 + hex_value(t[2 * i + 1])->0) as u8,
    )
}

/// The bytes that hexadecimal text denotes.
pub open spec fn hex_decoded(t: Seq<u8>) -> Result<Seq<u8>, HexError> {
    let k = first_bad(t);
    if t.len() % 2 != 0 {
        Err(HexError::OddLength)
    } else if k < t.len() {
        Err(HexError::InvalidCharacter { c: t[k] as char, index: k as usize })
    } else {
        Ok(hex_pairs(t))
    }
}

/// Calls `hex::encode`, which writes each byte as two lower-case digits.
#[verifier::external_body]
pub(crate) fn hex_encode(data: &[u8]) -> (r: String)
    ensures
        r@ == hex_text(data@),
{
    hex::encode(data)
}

/// Calls `hex::decode`, which refuses an odd number of bytes, then reports the
/// first byte that is no digit, and else gives one byte for each two digits.
#[verifier::external_body]
fn hex_decode(data: &[u8]) -> (r: Result<Vec<u8>, HexError>)
    ensures
        match r {
            Ok(bytes) => hex_decoded(data@) == Ok::<Seq<u8>, HexError>(bytes@),
            Err(e) => hex_decoded(data@) == Err::<Seq<u8>, HexError>(e),
        },
{
    match hex::decode(data) {
        Ok(bytes) => Ok(bytes),
        Err(hex::FromHexError::OddLength) => Err(HexError::OddLength),
        Err(hex::FromHexError::InvalidHexCharacter { c, index }) => Err(
            HexError::InvalidCharacter { c, index },
        ),
        Err(hex::FromHexError::InvalidStringLength) => Err(HexError::StringLength),
    }
}

/// What the `Debug` format of a character is: the character in single quotes,
/// or an escape for it in single quotes.
pub uninterp spec fn quoted_char(c: char) -> Seq<char>;

/// Formats a character with `Debug`.
#[verifier::external_body]
fn quoted(c: char) -> (r: String)
    ensures
        r@ == quoted_char(c),
{
    format!("{c:?}")
}

impl HexError {
    /// The error in words.
    pub open spec fn message_text(self) -> Seq<char> {
        match self {
            HexError::OddLength => "Odd number of digits"@,
            HexError::InvalidCharacter { c, index } => "Invalid character "@ + quoted_char(c)
                + " at position "@ + text::decimal(index as nat),
            HexError::StringLength => "Invalid string length"@,
        }
    }

    pub fn message(&self) -> (r: String)
        ensures
            r@ == self.message_text(),
    {
        match self {
            HexError::OddLength => "Odd number of digits".to_string(),
            HexError::InvalidCharacter { c, index } => {
                let mut s = "Invalid character ".to_string();
                s.append(quoted(*c).as_str());
                s.append(" at position ");
                text::push_decimal(&mut s, *index as u64);
                s
            },
            HexError::StringLength => "Invalid string length".to_string(),
        }
    }
}

// ---------------------------------------------------------------------------
// Keys
// ---------------------------------------------------------------------------

/// Why a text is not a key.
#[derive(Debug, Clone, Copy, PartialEq, Eq, Structural)]
pub enum SecretError {
    Hex(HexError),
    /// The text denotes so many bytes.
    Length(usize),
}

impl SecretError {
    /// The error in words.
    pub open spec fn message_text(self) -> Seq<char> {
        match self {
            SecretError::Hex(e) => "invalid hex key: "@ + e.message_text(),
            SecretError::Length(n) => "key must be 64 hex chars (32 bytes), got "@ + text::decimal(
                n as nat,
            ) + " bytes"@,
        }
    }

    pub fn message(&self) -> (r: String)
        ensures
            r@ == self.message_text(),
    {
        match self {
            SecretError::Hex(e) => {
                let mut s = "invalid hex key: ".to_string();
                s.append(e.message().as_str());
                s
            },
            SecretError::Length(n) => {
                let mut s = "key must be 64 hex chars (32 bytes), got ".to_string();
                text::push_decimal(&mut s, *n as u64);
                s.append(" bytes");
                s
            },
        }
    }
}

/// The key that a text denotes.
pub open spec fn secret_value(t: Seq<char>) -> Result<Seq<u8>, SecretError> {
    match hex_decoded(encode_utf8(t)) {
        Err(e) => Err(SecretError::Hex(e)),
        Ok(bytes) => if bytes.len() == KEY_LEN {
            Ok(bytes)
        } else {
            Err(SecretError::Length(bytes.len() as usize))
        },
    }
}

/// Reads a key.
pub fn parse_secret(s: &str) -> (r: Result<[u8; KEY_LEN], SecretError>)
    ensures
        match r {
            Ok(key) => secret_value(s@) == Ok::<Seq<u8>, SecretError>(key@),
            Err(e) => secret_value(s@) == Err::<Seq<u8>, SecretError>(e),
        },
{
    let bytes = match hex_decode(s.as_bytes()) {
        Ok(bytes) => bytes,
        Err(e) => {
            return Err(SecretError::Hex(e));
        },
    };
    if bytes.len() != KEY_LEN {
        return Err(SecretError::Length(bytes.len()));
    }
    let key = crypto::key_at(bytes.as_slice(), 0);
    assert(key@ =~= bytes@);
    Ok(key)
}

/// Reads a key that may be left out. A text that is empty or no key counts as
/// left out.
pub fn parse_secret_opt(s: Option<&str>) -> (r: Option<[u8; KEY_LEN]>)
    ensures
        match r {
            Some(key) => s is Some && s->0@.len() > 0 && secret_value(s->0@) == Ok::<
                Seq<u8>,
                SecretError,
            >(key@),
            None => s is None || s->0@.len() == 0 || secret_value(s->0@) is Err,
        },
{
    match s {
        None => None,
        Some(s) => {
            if s.is_empty() {
                return None;
            }
            match parse_secret(s) {
                Ok(key) => Some(key),
                Err(_) => None,
            }
        },
    }
}

/// A key as text.
pub fn secret_text(key: &[u8; KEY_LEN]) -> (r: String)
    ensures
        r@ == hex_text(key@),
        r@.len() == 2 * KEY_LEN,
        secret_value(r@) == Ok::<Seq<u8>, SecretError>(key@),
{
    proof {
        lemma_secret_roundtrip(key@);
        lemma_hex_text(key@);
    }
    hex_encode(key)
}

/// A fresh random key as text.
pub fn keygen() -> (r: String)
    ensures
        r@.len() == 2 * KEY_LEN,
        secret_value(r@) is Ok,
        r@ == hex_text(secret_value(r@)->Ok_0),
{
    secret_text(&crypto::generate_psk())
}

// ---------------------------------------------------------------------------
// Laws
// ---------------------------------------------------------------------------

/// The digits of a byte denote it.
proof fn lemma_hex2(b: u8)
    ensures
        text::hex_digit(text::hex2(b)[0]) == Some((b / 16) as int),
        text::hex_digit(text::hex2(b)[1]) == Some((b % 16) as int),
{
}

/// Where the digits of each byte stand.
pub proof fn lemma_hex_text(d: Seq<u8>)
    ensures
        hex_text(d).len() == 2 * d.len(),
        forall|i: int|
            0 <= i < d.len() ==> hex_text(d)[2 * i] == text::hex2(#[trigger] d[i])[0] && hex_text(
                d,
            )[2 * i + 1] == text::hex2(d[i])[1],
    decreases d.len(),
{
    if d.len() > 0 {
        let init = d.drop_last();
        lemma_hex_text(init);
        assert forall|i: int| 0 <= i < d.len() implies hex_text(d)[2 * i] == text::hex2(
            #[trigger] d[i],
        )[0] && hex_text(d)[2 * i + 1] == text::hex2(d[i])[1] by {
            if i < init.len() {
                assert(init[i] == d[i]);
            }
        }
    }
}

/// The first bad byte is where only digits stand before it.
pub proof fn lemma_first_bad(t: Seq<u8>)
    ensures
        0 <= first_bad(t) <= t.len(),
        forall|j: int| 0 <= j < first_bad(t) ==> hex_value(#[trigger] t[j]) is Some,
        first_bad(t) < t.len() ==> hex_value(t[first_bad(t)]) is None,
    decreases t.len(),
{
    if t.len() > 0 && hex_value(t[0]) is Some {
        let rest = t.drop_first();
        lemma_first_bad(rest);
        assert forall|j: int| 0 <= j < first_bad(t) implies hex_value(#[trigger] t[j]) is Some by {
            if j > 0 {
                assert(rest[j - 1] == t[j]);
            }
        }
    }
}

/// Hexadecimal digits are one byte each in UTF-8.
pub proof fn lemma_digits_are_ascii(t: Seq<char>)
    requires
        forall|i: int| 0 <= i < t.len() ==> text::hex_digit(#[trigger] t[i]) is Some,
    ensures
        encode_utf8(t).len() == t.len(),
        forall|i: int| 0 <= i < t.len() ==> #[trigger] encode_utf8(t)[i] as char == t[i],
{
    assert(is_ascii_chars(t)) by {
        assert forall|i: int| 0 <= i < t.len() implies '\0' <= #[trigger] t[i] <= '\u{7f}' by {
            assert(text::hex_digit(t[i]) is Some);
        }
    }
    is_ascii_chars_encode_utf8(t);
    assert forall|i: int| 0 <= i < t.len() implies #[trigger] encode_utf8(t)[i] as char == t[i] by {
        assert(t[i] as u8 == encode_utf8(t)[i]);
        assert(text::hex_digit(t[i]) is Some);
    }
}

/// Bytes that are written as hexadecimal text read back as they were.
pub proof fn lemma_hex_roundtrip(d: Seq<u8>)
    ensures
        hex_decoded(encode_utf8(hex_text(d))) == Ok::<Seq<u8>, HexError>(d),
{
    let t = hex_text(d);
    let b = encode_utf8(t);
    lemma_hex_text(d);
    assert forall|i: int| 0 <= i < t.len() implies text::hex_digit(#[trigger] t[i]) is Some by {
        let k = i / 2;
        lemma_hex2(d[k]);
        assert(i == 2 * k || i == 2 * k + 1);
    }
    lemma_digits_are_ascii(t);
    lemma_first_bad(b);
    if first_bad(b) < b.len() {
        assert(b[first_bad(b)] as char == t[first_bad(b)]);
    }
    let p = hex_pairs(b);
    assert forall|i: int| 0 <= i < d.len() implies p[i] == d[i] by {
        lemma_hex2(d[i]);
        assert(b[2 * i] as char == t[2 * i]);
        assert(b[2 * i + 1] as char == t[2 * i + 1]);
        assert(16 * (d[i] / 16) + d[i] % 16 == d[i]);
    }
    assert(p =~= d);
}

/// A key that is written as text is read back as it was.
pub proof fn lemma_secret_roundtrip(key: Seq<u8>)
    requires
        key.len() == KEY_LEN,
    ensures
        secret_value(hex_text(key)) == Ok::<Seq<u8>, SecretError>(key),
{
    lemma_hex_roundtrip(key);
}

/// The texts that denote a key are those of 64 hexadecimal digits, and no
/// others.
pub proof fn lemma_secret_form(t: Seq<char>)
    ensures
        secret_value(t) is Ok <==> t.len() == 64 && forall|i: int|
            0 <= i < t.len() ==> text::hex_digit(#[trigger] t[i]) is Some,
{
    let b = encode_utf8(t);
    lemma_first_bad(b);
    if secret_value(t) is Ok {
        let c = b.map_values(|x: u8| x as char);
        assert forall|i: int| 0 <= i < c.len() implies text::hex_digit(#[trigger] c[i]) is Some by {
            assert(hex_value(b[i]) is Some);
        }
        lemma_digits_are_ascii(c);
        assert(encode_utf8(c) =~= b) by {
            assert forall|i: int| 0 <= i < b.len() implies encode_utf8(c)[i] == b[i] by {
                assert(encode_utf8(c)[i] as char == c[i]);
            }
        }
        encode_utf8_decode_utf8(c);
        encode_utf8_decode_utf8(t);
        assert(c == t);
    }
    if t.len() == 64 && forall|i: int|
        0 <= i < t.len() ==> text::hex_digit(#[trigger] t[i]) is Some {
        lemma_digits_are_ascii(t);
        if first_bad(b) < b.len() {
            assert(b[first_bad(b)] as char == t[first_bad(b)]);
        }
    }
}

} // verus!
