//! Public keys and the hexadecimal text in which Python sees them.

use vstd::prelude::*;
use vstd::utf8::encode_utf8;

verus! {

/// The lower case hexadecimal digit for a number below sixteen.
pub open spec fn hex_digit(n: int) -> char {
    if n < 10 {
        (0x30 + n) as char
    } else {
        (0x57 + n) as char
    }
}

/// The number that a hexadecimal digit of either case stands for.
pub open spec fn hex_value(c: u8) -> Option<int> {
    if 0x30 <= c <= 0x39 {
        Some(c - 0x30)
    } else if 0x41 <= c <= 0x46 {
        Some(c - 0x37)
    } else if 0x61 <= c <= 0x66 {
        Some(c - 0x57)
    } else {
        None
    }
}

/// Two digits for each byte, the upper half first.
pub open spec fn hex_text(bytes: Seq<u8>) -> Seq<char> {
    Seq::new(
        2 * bytes.len(),
        |i: int| hex_digit(if i % 2 == 0 { bytes[i / 2] as int / 16 } else { bytes[i / 2] as int % 16 }),
    )
}

/// Where the first byte stands that is no hexadecimal digit; the length if there is none.
pub open spec fn first_non_digit(text: Seq<u8>) -> nat
    decreases text.len(),
{
    if text.len() == 0 {
        0
    } else {
        let before = first_non_digit(text.drop_last());
        if before < text.len() - 1 || hex_value(text.last()) is None {
            before
        } else {
            text.len()
        }
    }
}

/// What decoding hexadecimal text gives: its bytes, or the first thing wrong with it.
pub open spec fn hex_outcome(text: Seq<u8>) -> Result<Seq<u8>, HexError> {
    if text.len() % 2 != 0 {
        Err(HexError::OddLength)
    } else if first_non_digit(text) < text.len() {
        let index = first_non_digit(text) as int;
        Err(HexError::InvalidHexCharacter { c: text[index] as char, index: index as usize })
    } else {
        Ok(
            Seq::new(
                text.len() / 2,
                |i: int| (16 * hex_value(text[2 * i])->0 + hex_value(text[2 * i + 1])->0) as u8,
            ),
        )
    }
}

pub proof fn lemma_first_non_digit(text: Seq<u8>)
    ensures
        first_non_digit(text) <= text.len(),
        forall|i: int| 0 <= i < first_non_digit(text) ==> hex_value(#[trigger] text[i]) is Some,
        first_non_digit(text) < text.len() ==> hex_value(
            text[first_non_digit(text) as int],
        ) is None,
    decreases text.len(),
{
    if text.len() > 0 {
        let shorter = text.drop_last();
        lemma_first_non_digit(shorter);
        assert forall|i: int| 0 <= i < first_non_digit(text) implies hex_value(
            #[trigger] text[i],
        ) is Some by {
            if i < shorter.len() {
                assert(shorter[i] == text[i]);
            }
        }
    }
}

/// The text of a key decodes to the key: writing bytes as hexadecimal text and reading
/// that text gives the same bytes.
pub proof fn hex_round_trip(bytes: Seq<u8>)
    ensures
        hex_outcome(encode_utf8(hex_text(bytes))) == Ok::<Seq<u8>, HexError>(bytes),
{
    let chars = hex_text(bytes);
    assert(vstd::utf8::is_ascii_chars(chars)) by {
        assert forall|i: int| 0 <= i < chars.len() implies '\0' <= #[trigger] chars[i]
            <= '\u{7f}' by {
            assert(0 <= i / 2 < bytes.len());
        }
    }
    vstd::utf8::is_ascii_chars_encode_utf8(chars);
    let text = encode_utf8(chars);
    assert forall|i: int| 0 <= i < bytes.len() implies hex_value(#[trigger] text[2 * i]) == Some(
        bytes[i] as int / 16,
    ) && hex_value(text[2 * i + 1]) == Some(bytes[i] as int % 16) by {
        assert(chars[2 * i] == hex_digit(bytes[i] as int / 16));
        assert(chars[2 * i + 1] == hex_digit(bytes[i] as int % 16));
        assert(text[2 * i] == chars[2 * i] as u8);
        assert(text[2 * i + 1] == chars[2 * i + 1] as u8);
    }
    lemma_first_non_digit(text);
    let bad = first_non_digit(text) as int;
    if bad < text.len() {
        assert(0 <= bad / 2 < bytes.len());
        assert(hex_value(text[2 * (bad / 2)]) is Some);
        assert(bad == 2 * (bad / 2) || bad == 2 * (bad / 2) + 1);
    }
    assert(hex_outcome(text)->Ok_0 =~= bytes);
}

/// What can be wrong with hexadecimal text.
#[derive(Debug, Clone, Copy, PartialEq, Eq)]
pub enum HexError {
    /// A character that is no hexadecimal digit, and where it stands.
    InvalidHexCharacter { c: char, index: usize },
    /// One digit is left without its pair.
    OddLength,
    /// The text is not as long as what it is to fill.
    InvalidStringLength,
}

/// `hex::encode`: two lower case digits for each byte, the upper half first.
#[verifier::external_body]
fn hex_encode(bytes: &[u8]) -> (text: String)
    ensures
        text@ == hex_text(bytes@),
{
    hex::encode(bytes)
}

/// `hex::decode` into a vector: text of odd length is refused first, then the first
/// byte that is no digit; otherwise each pair of digits gives one byte.
#[verifier::external_body]
fn hex_decode(text: &[u8]) -> (bytes: Result<Vec<u8>, HexError>)
    ensures
        match bytes {
            Ok(b) => hex_outcome(text@) == Ok::<Seq<u8>, HexError>(b@),
            Err(e) => hex_outcome(text@) == Err::<Seq<u8>, HexError>(e),
        },
{
    hex::decode(text).map_err(|error| match error {
        hex::FromHexError::InvalidHexCharacter { c, index } => HexError::InvalidHexCharacter { c, index },
        hex::FromHexError::OddLength => HexError::OddLength,
        hex::FromHexError::InvalidStringLength => HexError::InvalidStringLength,
    })
}

/// The words of `hex::FromHexError` for a character that is no hexadecimal digit.
pub uninterp spec fn invalid_character_text(c: char, index: usize) -> Seq<char>;

/// The words of a decoding error.
pub open spec fn hex_error_text(error: HexError) -> Seq<char> {
    match error {
        HexError::InvalidHexCharacter { c, index } => invalid_character_text(c, index),
        HexError::OddLength => "Odd number of digits"@,
        HexError::InvalidStringLength => "Invalid string length"@,
    }
}

/// The `Display` text of `hex::FromHexError`. It is fixed for an odd length and for a
/// wrong length; for an invalid character it quotes the character in Rust's debug
/// notation, which is named here and not spelled out.
#[verifier::external_body]
pub(crate) fn describe_hex_error(error: HexError) -> (text: String)
    ensures
        text@ == (match error {
            HexError::InvalidHexCharacter { c, index } => invalid_character_text(c, index),
            HexError::OddLength => "Odd number of digits"@,
            HexError::InvalidStringLength => "Invalid string length"@,
        }),
{
    let outside = match error {
        HexError::InvalidHexCharacter { c, index } => hex::FromHexError::InvalidHexCharacter { c, index },
        HexError::OddLength => hex::FromHexError::OddLength,
        HexError::InvalidStringLength => hex::FromHexError::InvalidStringLength,
    };
    outside.to_string()
}

/// Whether `ed25519_dalek` finds a curve point whose compressed form is these bytes.
pub uninterp spec fn decompresses(bytes: Seq<u8>) -> bool;

/// Whether the bytes are a public key: 32 of them, and the compressed form of a point.
pub open spec fn is_public_key(bytes: Seq<u8>) -> bool {
    bytes.len() == 32 && decompresses(bytes)
}

/// The words with which bytes are refused that are no public key.
pub open spec fn key_error_text(bytes: Seq<u8>) -> Seq<char> {
    if bytes.len() != 32 {
        "signature error: PublicKey must be 32 bytes in length"@
    } else {
        "signature error: Cannot decompress Edwards point"@
    }
}

/// `ed25519_dalek::PublicKey::from_bytes` followed by `to_bytes`: bytes of another
/// length than 32 are refused, then bytes that decompress to no curve point; a key
/// that is made gives back the bytes it was made from. An error is handed on as its
/// text.
#[verifier::external_body]
fn check_public_key(bytes: &[u8]) -> (key: Result<Vec<u8>, String>)
    ensures
        match key {
            Ok(k) => bytes@.len() == 32 && decompresses(bytes@) && k@ == bytes@,
            Err(text) => !(bytes@.len() == 32 && decompresses(bytes@)) && text@ == key_error_text(
                bytes@,
            ),
        },
{
    match ed25519_dalek::PublicKey::from_bytes(bytes) {
        Ok(key) => Ok(key.to_bytes().to_vec()),
        Err(error) => Err(error.to_string()),
    }
}

/// An Ed25519 public key.
#[derive(Debug, PartialEq, Eq)]
pub struct PublicKey {
    bytes: Vec<u8>,
}

impl View for PublicKey {
    type V = Seq<u8>;

    closed spec fn view(&self) -> Seq<u8> {
        self.bytes@
    }
}

impl Clone for PublicKey {
    fn clone(&self) -> (copy: PublicKey)
        ensures
            copy@ == self@,
    {
        proof {
            use_type_invariant(self);
        }
        let bytes: Vec<u8> = self.bytes.clone();
        assert(bytes@ =~= self.bytes@);
        PublicKey { bytes }
    }
}

impl PublicKey {
    #[verifier::type_invariant]
    spec fn inv(self) -> bool {
        is_public_key(self.bytes@)
    }

    /// Reads a key from its bytes; what is no key gives the words that say why.
    pub fn from_bytes(bytes: &[u8]) -> (key: Result<PublicKey, String>)
        ensures
            match key {
                Ok(k) => is_public_key(bytes@) && k@ == bytes@,
                Err(text) => !is_public_key(bytes@) && text@ == key_error_text(bytes@),
            },
    {
        match check_public_key(bytes) {
            Ok(bytes) => Ok(PublicKey { bytes }),
            Err(text) => Err(text),
        }
    }

    /// The bytes of the key.
    pub fn as_bytes(&self) -> (bytes: &[u8])
        ensures
            bytes@ == self@,
            is_public_key(bytes@),
    {
        proof {
            use_type_invariant(self);
        }
        self.bytes.as_slice()
    }

    /// The key as hexadecimal text.
    pub fn to_hex(&self) -> (text: String)
        ensures
            text@ == hex_text(self@),
    {
        hex_encode(self.bytes.as_slice())
    }
}

/// Why text is no public key.
#[derive(Debug, PartialEq, Eq)]
pub enum KeyTextError {
    /// The text is no hexadecimal text.
    Hex(HexError),
    /// The bytes are no key; the words say why.
    Key(String),
}

/// What reading a key from text gives, over the bytes of the text.
pub open spec fn key_from_text(text: Seq<char>) -> Result<Seq<u8>, KeyTextErrorModel> {
    match hex_outcome(encode_utf8(text)) {
        Err(e) => Err(KeyTextErrorModel::Hex(e)),
        Ok(bytes) => if is_public_key(bytes) {
            Ok(bytes)
        } else {
            Err(KeyTextErrorModel::Key(key_error_text(bytes)))
        },
    }
}

/// [`KeyTextError`] over sequences of characters.
pub enum KeyTextErrorModel {
    Hex(HexError),
    Key(Seq<char>),
}

impl View for KeyTextError {
    type V = KeyTextErrorModel;

    open spec fn view(&self) -> KeyTextErrorModel {
        match self {
            KeyTextError::Hex(e) => KeyTextErrorModel::Hex(*e),
            KeyTextError::Key(text) => KeyTextErrorModel::Key(text@),
        }
    }
}

/// Reads a key from hexadecimal text.
pub fn parse_key_text(text: &str) -> (key: Result<PublicKey, KeyTextError>)
    ensures
        match key {
            Ok(k) => key_from_text(text@) == Ok::<Seq<u8>, KeyTextErrorModel>(k@),
            Err(e) => key_from_text(text@) == Err::<Seq<u8>, KeyTextErrorModel>(e@),
        },
{
    match hex_decode(text.as_bytes()) {
        Err(error) => Err(KeyTextError::Hex(error)),
        Ok(bytes) => match PublicKey::from_bytes(bytes.as_slice()) {
            Ok(key) => Ok(key),
            Err(words) => Err(KeyTextError::Key(words)),
        },
    }
}

/// Every key reads back from its own text.
pub proof fn key_text_round_trip(key: Seq<u8>)
    requires
        is_public_key(key),
    ensures
        key_from_text(hex_text(key)) == Ok::<Seq<u8>, KeyTextErrorModel>(key),
{
    hex_round_trip(key);
}

/// Whether text is of digits and the letters from `a` to `f` alone.
pub open spec fn lower_hex(text: Seq<char>) -> bool {
    forall|i: int|
        0 <= i < text.len() ==> '0' <= #[trigger] text[i] <= '9' || 'a' <= text[i] <= 'f'
}

/// Lower case hexadecimal text from which a key is read is the text of that key.
pub proof fn lower_text_round_trip(text: Seq<char>)
    requires
        lower_hex(text),
    ensures
        key_from_text(text) matches Ok(key) ==> hex_text(key) == text,
{
    assert(vstd::utf8::is_ascii_chars(text));
    vstd::utf8::is_ascii_chars_encode_utf8(text);
    let bytes = encode_utf8(text);
    if let Ok(key) = key_from_text(text) {
        assert forall|i: int| 0 <= i < text.len() implies hex_text(key)[i] == #[trigger] text[i] by {
            let k = i / 2;
            assert(bytes[i] == text[i] as u8);
            assert(bytes[2 * k] == text[2 * k] as u8);
            assert(bytes[2 * k + 1] == text[2 * k + 1] as u8);
            let upper = hex_value(bytes[2 * k])->0;
            let lower = hex_value(bytes[2 * k + 1])->0;
            assert(0 <= upper < 16 && 0 <= lower < 16);
            assert(key[k] == (16 * upper + lower) as u8);
            assert(key[k] as int / 16 == upper);
            assert(key[k] as int % 16 == lower);
        }
        assert(hex_text(key) =~= text);
    }
}

} // verus!
