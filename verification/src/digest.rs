//! SHA-256 digests and their hexadecimal form.
use vstd::prelude::*;
use vstd::string::*;
use vstd::utf8::*;

verus! {

/// `sha2::Sha256`, a SHA-256 computation: it collects the bytes that it is given.
#[verifier::external_type_specification]
#[verifier::external_body]
pub struct ExSha256(sha2::Sha256);

/// The bytes that a hasher has been given.
pub uninterp spec fn absorbed(hasher: sha2::Sha256) -> Seq<u8>;

/// The SHA-256 digest of a byte string.
pub uninterp spec fn sha256_of(bytes: Seq<u8>) -> Seq<u8>;

/// Starts a computation.
///
/// Calls `sha2::Digest::new` for SHA-256: the hasher has been given nothing.
#[verifier::external_body]
pub(crate) fn new_hasher() -> (hasher: sha2::Sha256)
    ensures
        absorbed(hasher) == Seq::<u8>::empty(),
{
    <sha2::Sha256 as sha2::Digest>::new()
}

/// Gives bytes to a computation.
///
/// Calls `sha2::Digest::update`, which adds the bytes to those given before.
#[verifier::external_body]
pub(crate) fn absorb(hasher: &mut sha2::Sha256, bytes: &[u8])
    ensures
        absorbed(*final(hasher)) == absorbed(*old(hasher)) + bytes@,
{
    sha2::Digest::update(hasher, bytes);
}

/// Ends a computation.
///
/// Calls `sha2::Digest::finalize`: the digest depends on the bytes given, in
/// order, and not on how they were divided; it has 32 bytes.
#[verifier::external_body]
pub(crate) fn finish(hasher: sha2::Sha256) -> (digest: Vec<u8>)
    ensures
        digest@ == sha256_of(absorbed(hasher)),
        digest@.len() == 32,
{
    sha2::Digest::finalize(hasher).to_vec()
}

/// The hexadecimal digit of a value below 16, in small letters.
pub open spec fn hex_digit(value: nat) -> char {
    if value < 10 {
        (48 + value) as char
    } else {
        (87 + value) as char
    }
}

/// Two digits for each byte, the upper half first.
pub open spec fn hex_chars(bytes: Seq<u8>) -> Seq<char> {
    Seq::new(
        2 * bytes.len(),
        |i: int|
            if i % 2 == 0 {
                hex_digit((bytes[i / 2] / 16) as nat)
            } else {
                hex_digit((bytes[i / 2] % 16) as nat)
            },
    )
}

/// The value of a hexadecimal digit, in small or capital letters.
pub open spec fn hex_value(character: char) -> Option<nat> {
    let code = character as u32;
    if 48 <= code <= 57 {
        Some((code - 48) as nat)
    } else if 97 <= code <= 102 {
        Some((code - 87) as nat)
    } else if 65 <= code <= 70 {
        Some((code - 55) as nat)
    } else {
        None
    }
}

/// An even number of hexadecimal digits.
pub open spec fn is_hex(text: Seq<char>) -> bool {
    text.len() % 2 == 0 && forall|i: int|
        0 <= i < text.len() ==> hex_value(#[trigger] text[i]) is Some
}

/// The bytes that pairs of digits stand for.
pub open spec fn hex_bytes(text: Seq<char>) -> Seq<u8> {
    Seq::new(
        text.len() / 2,
        |i: int| (16 * hex_value(text[2 * i])->0 + hex_value(text[2 * i + 1])->0) as u8,
    )
}

/// Encodes bytes in hexadecimal.
///
/// Calls `hex::encode`, which gives two digits for each byte, in small letters.
#[verifier::external_body]
pub(crate) fn hex_encode(bytes: &[u8]) -> (text: String)
    ensures
        text@ == hex_chars(bytes@),
{
    hex::encode(bytes)
}

/// Decodes a hexadecimal string.
///
/// Calls `hex::decode`, which takes an even number of digits in small or
/// capital letters and nothing else.
#[verifier::external_body]
pub(crate) fn hex_decode(text: &str) -> (bytes: Option<Vec<u8>>)
    ensures
        bytes is Some <==> is_hex(text@),
        bytes matches Some(decoded) ==> decoded@ == hex_bytes(text@),
{
    hex::decode(text).ok()
}

/// Encoding in hexadecimal is undone by decoding.
pub proof fn hex_round_trips(bytes: Seq<u8>)
    ensures
        is_hex(hex_chars(bytes)),
        hex_bytes(hex_chars(bytes)) == bytes,
{
    let text = hex_chars(bytes);
    assert forall|i: int| 0 <= i < text.len() implies hex_value(#[trigger] text[i]) is Some by {
        hex_digit_has_value((bytes[i / 2] / 16) as nat);
        hex_digit_has_value((bytes[i / 2] % 16) as nat);
    }
    assert forall|i: int| 0 <= i < bytes.len() implies hex_bytes(text)[i] == bytes[i] by {
        hex_digit_has_value((bytes[i] / 16) as nat);
        hex_digit_has_value((bytes[i] % 16) as nat);
        assert(text[2 * i] == hex_digit((bytes[i] / 16) as nat));
        assert(text[2 * i + 1] == hex_digit((bytes[i] % 16) as nat));
    }
    assert(hex_bytes(text) =~= bytes);
}

proof fn hex_digit_has_value(value: nat)
    requires
        value < 16,
    ensures
        hex_value(hex_digit(value)) == Some(value),
{
}

/// A hexadecimal text has one byte for each digit.
pub proof fn hex_texts_are_ascii(bytes: Seq<u8>)
    ensures
        encode_utf8(hex_chars(bytes)).len() == 2 * bytes.len(),
{
    let text = hex_chars(bytes);
    assert forall|i: int| 0 <= i < text.len() implies (#[trigger] text[i] as u32) < 128 by {
        let value = if i % 2 == 0 {
            (bytes[i / 2] / 16) as nat
        } else {
            (bytes[i / 2] % 16) as nat
        };
        assert(value < 16);
        assert(text[i] == hex_digit(value));
    }
    is_ascii_chars_encode_utf8(text);
}

/// The digest of a byte string, in hexadecimal.
pub open spec fn digest_text(bytes: Seq<u8>) -> Seq<char> {
    hex_chars(sha256_of(bytes))
}

pub fn digest_hex(bytes: &[u8]) -> (digest: String)
    ensures
        digest@ == digest_text(bytes@),
        digest@.len() == 64,
        encode_utf8(digest@).len() == 64,
{
    let mut hasher = new_hasher();
    absorb(&mut hasher, bytes);
    assert(absorbed(hasher) =~= bytes@);
    let digest = finish(hasher);
    proof {
        hex_texts_are_ascii(digest@);
    }
    hex_encode(digest.as_slice())
}

} // verus!
