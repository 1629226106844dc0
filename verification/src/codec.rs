//! Byte encodings and symmetric encryption: base64 (`base64`), hexadecimal
//! (`hex`), AES-256-CBC (`openssl`) and UTF-8 decoding.
use vstd::prelude::*;
use vstd::utf8::{decode_utf8, encode_utf8, valid_utf8};
use openssl::symm::Cipher;

verus! {

// ---------------------------------------------------------------------
// Base64
// ---------------------------------------------------------------------
/// The standard, padded base64 text of some bytes.
pub uninterp spec fn base64_encoded(bytes: Seq<u8>) -> Seq<char>;

/// The bytes a text decodes to under the standard base64 alphabet with
/// padding, or `None` where it is not such a text.
pub uninterp spec fn base64_decoded(text: Seq<char>) -> Option<Seq<u8>>;

/// A character of the standard base64 alphabet, or the padding `=`.
pub open spec fn is_base64_char(c: char) -> bool {
    ||| ('A' <= c && c <= 'Z')
    ||| ('a' <= c && c <= 'z')
    ||| ('0' <= c && c <= '9')
    ||| c == '+'
    ||| c == '/'
    ||| c == '='
}

/// The length of the padded base64 text of `n` bytes.
pub open spec fn base64_len(n: nat) -> nat {
    4 * ((n + 2) / 3)
}

/// `base64::encode` (the `STANDARD` engine, with padding). Claimed: the text
/// is four alphabet characters for every three bytes begun, and decoding it
/// gives the bytes back.
#[verifier::external_body]
#[allow(deprecated)]
pub(crate) fn base64_text(bytes: &[u8]) -> (r: String)
    ensures
        r@ == base64_encoded(bytes@),
        r@.len() == base64_len(bytes@.len()),
        forall|i: int| 0 <= i < r@.len() ==> is_base64_char(#[trigger] r@[i]),
        base64_decoded(r@) == Some(bytes@),
{
    base64::encode(bytes)
}

/// `base64::decode` (the `STANDARD` engine) of a text's bytes: the decoded
/// bytes, or `None` where the crate reports an error.
#[verifier::external_body]
#[allow(deprecated)]
pub(crate) fn base64_bytes(text: &str) -> (r: Option<Vec<u8>>)
    ensures
        match r {
            Some(v) => base64_decoded(text@) == Some(v@),
            None => base64_decoded(text@) is None,
        },
{
    base64::decode(text).ok()
}

// ---------------------------------------------------------------------
// Hexadecimal
// ---------------------------------------------------------------------
/// The lowercase hexadecimal digit of `d < 16`.
pub open spec fn hex_digit(d: int) -> char {
    if d < 10 {
        ('0' as int + d) as char
    } else {
        ('a' as int + (d - 10)) as char
    }
}

/// Two lowercase hexadecimal digits per byte, high half first.
pub open spec fn hex_text(bytes: Seq<u8>) -> Seq<char>
    decreases bytes.len(),
{
    if bytes.len() == 0 {
        Seq::empty()
    } else {
        hex_text(bytes.drop_last()) + seq![hex_digit(bytes.last() as int / 16), hex_digit(bytes.last() as int % 16)]
    }
}

/// The value of a hexadecimal digit byte, in either case.
pub open spec fn hex_value(c: u8) -> Option<u8> {
    if 0x30 <= c && c <= 0x39 {
        Some((c - 0x30) as u8)
    } else if 0x41 <= c && c <= 0x46 {
        Some((c - 0x41 + 10) as u8)
    } else if 0x61 <= c && c <= 0x66 {
        Some((c - 0x61 + 10) as u8)
    } else {
        None
    }
}

/// The bytes that pairs of hexadecimal digits stand for; `None` for an odd
/// length or a byte that is no digit.
pub open spec fn hex_decoded(text: Seq<u8>) -> Option<Seq<u8>>
    decreases text.len(),
{
    if text.len() % 2 != 0 {
        None
    } else if text.len() == 0 {
        Some(Seq::empty())
    } else {
        let n = text.len() as int;
        match (hex_decoded(text.subrange(0, n - 2)), hex_value(text[n - 2]), hex_value(text[n - 1])) {
            (Some(p), Some(h), Some(l)) => Some(p.push((h * 16 + l) as u8)),
            _ => None,
        }
    }
}

/// `hex::encode`: two lowercase digits per byte.
#[verifier::external_body]
pub(crate) fn hex_string(bytes: &[u8]) -> (r: String)
    requires
        2 * bytes@.len() <= isize::MAX,
    ensures
        r@ == hex_text(bytes@),
{
    hex::encode(bytes)
}

/// `hex::decode`: the bytes the digit pairs stand for, or `None` where the
/// crate reports an odd length or a byte that is no digit.
#[verifier::external_body]
pub(crate) fn hex_bytes(text: &[u8]) -> (r: Option<Vec<u8>>)
    ensures
        match r {
            Some(v) => hex_decoded(text@) == Some(v@),
            None => hex_decoded(text@) is None,
        },
{
    hex::decode(text).ok()
}

/// Hexadecimal text turns back into its bytes.
pub proof fn lemma_hex_round_trip(bytes: Seq<u8>)
    ensures
        hex_decoded(hex_text(bytes).map_values(|c: char| c as u8)) == Some(bytes),
    decreases bytes.len(),
{
    let t = hex_text(bytes).map_values(|c: char| c as u8);
    if bytes.len() == 0 {
        assert(t.len() == 0);
    } else {
        let p = bytes.drop_last();
        let b = bytes.last();
        lemma_hex_round_trip(p);
        lemma_hex_text_len(p);
        let tp = hex_text(p).map_values(|c: char| c as u8);
        let n = t.len() as int;
        assert(t.subrange(0, n - 2) == tp);
        let h = b as int / 16;
        let l = b as int % 16;
        assert(hex_value(t[n - 2]) == Some(h as u8));
        assert(hex_value(t[n - 1]) == Some(l as u8));
        assert(h * 16 + l == b);
        assert(tp.len() % 2 == 0);
        assert(p.push(b) == bytes);
    }
}

proof fn lemma_hex_text_len(bytes: Seq<u8>)
    ensures
        hex_text(bytes).len() == 2 * bytes.len(),
    decreases bytes.len(),
{
    if bytes.len() > 0 {
        lemma_hex_text_len(bytes.drop_last());
    }
}

// ---------------------------------------------------------------------
// AES-256-CBC
// ---------------------------------------------------------------------
/// The AES-256-CBC ciphertext, with PKCS#7 padding, of `data` under `key`
/// and `iv`.
pub uninterp spec fn aes_cbc_encrypted(key: Seq<u8>, iv: Seq<u8>, data: Seq<u8>) -> Seq<u8>;

/// The plaintext of an AES-256-CBC ciphertext with PKCS#7 padding, or `None`
/// where the padding does not check out.
pub uninterp spec fn aes_cbc_decrypted(key: Seq<u8>, iv: Seq<u8>, data: Seq<u8>) -> Option<Seq<u8>>;

/// `openssl::symm::encrypt` with `Cipher::aes_256_cbc()` (padding on): the
/// ciphertext, or `None` where openssl reports an error. Claimed of a
/// ciphertext: it is whole blocks of 16 bytes, one more than the data fills,
/// and decrypting it with the same key and IV gives the data back.
#[verifier::external_body]
pub(crate) fn aes_encrypt(key: &[u8], iv: &[u8], data: &[u8]) -> (r: Option<Vec<u8>>)
    requires
        key@.len() == 32,
        iv@.len() == 16,
    ensures
        r matches Some(c) ==> {
            &&& c@ == aes_cbc_encrypted(key@, iv@, data@)
            &&& c@.len() == 16 * (data@.len() / 16 + 1)
            &&& aes_cbc_decrypted(key@, iv@, c@) == Some(data@)
        },
{
    openssl::symm::encrypt(Cipher::aes_256_cbc(), key, Some(iv), data).ok()
}

/// `openssl::symm::decrypt` with `Cipher::aes_256_cbc()` (padding on): the
/// plaintext, or `None` where openssl reports an error. Claimed of a
/// plaintext: it is what the name gives. Whether openssl reports an error for
/// a ciphertext that does check out is left unsaid.
#[verifier::external_body]
pub(crate) fn aes_decrypt(key: &[u8], iv: &[u8], data: &[u8]) -> (r: Option<Vec<u8>>)
    requires
        key@.len() == 32,
        iv@.len() == 16,
    ensures
        r matches Some(p) ==> aes_cbc_decrypted(key@, iv@, data@) == Some(p@),
{
    openssl::symm::decrypt(Cipher::aes_256_cbc(), key, Some(iv), data).ok()
}

/// Encrypts a text's UTF-8 bytes with AES-256-CBC under a 32-byte key and a
/// 16-byte IV; `None` where openssl reports an error.
pub fn encrypt_aes(plaintext: &str, key: &[u8], iv: &[u8]) -> (r: Option<Vec<u8>>)
    requires
        key@.len() == 32,
        iv@.len() == 16,
    ensures
        r matches Some(c) ==> {
            &&& c@ == aes_cbc_encrypted(key@, iv@, encode_utf8(plaintext@))
            &&& c@.len() == 16 * (encode_utf8(plaintext@).len() / 16 + 1)
            &&& aes_cbc_decrypted(key@, iv@, c@) == Some(encode_utf8(plaintext@))
        },
{
    aes_encrypt(key, iv, plaintext.as_bytes())
}

/// Decrypts an AES-256-CBC ciphertext under a 32-byte key and a 16-byte IV
/// into text; `None` where openssl reports an error or the plaintext is not
/// UTF-8.
pub fn decrypt_aes(ciphertext: &[u8], key: &[u8], iv: &[u8]) -> (r: Option<String>)
    requires
        key@.len() == 32,
        iv@.len() == 16,
    ensures
        r matches Some(s) ==> exists|p: Seq<u8>|
            aes_cbc_decrypted(key@, iv@, ciphertext@) == Some(p) && valid_utf8(p) && s@ == decode_utf8(p),
{
    match aes_decrypt(key, iv, ciphertext) {
        Some(p) => utf8_text(p),
        None => None,
    }
}

/// Text encrypted by `encrypt_aes` and decrypted by `decrypt_aes` under the
/// same key and IV comes back unchanged.
pub proof fn lemma_aes_text_round_trip(key: Seq<u8>, iv: Seq<u8>, text: Seq<char>, ciphertext: Seq<u8>, decrypted: Seq<char>)
    requires
        aes_cbc_decrypted(key, iv, ciphertext) == Some(encode_utf8(text)),
        exists|p: Seq<u8>|
            aes_cbc_decrypted(key, iv, ciphertext) == Some(p) && valid_utf8(p) && decrypted == decode_utf8(p),
    ensures
        decrypted == text,
{
    vstd::utf8::encode_utf8_decode_utf8(text);
}

// ---------------------------------------------------------------------
// UTF-8
// ---------------------------------------------------------------------
/// `String::from_utf8`: the text the bytes encode, or `None` where they are
/// not UTF-8.
#[verifier::external_body]
pub(crate) fn utf8_text(bytes: Vec<u8>) -> (r: Option<String>)
    ensures
        r is Some <==> valid_utf8(bytes@),
        r matches Some(s) ==> s@ == decode_utf8(bytes@),
{
    String::from_utf8(bytes).ok()
}

} // verus!
