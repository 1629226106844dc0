//! The port server's side of its link to the central database: which
//! requests go out encrypted, and which keys a key exchange leaves it with.
use vstd::prelude::*;
use vstd::utf8::encode_utf8;
use crate::codec::{
    aes_cbc_encrypted, base64_decoded, base64_encoded, encrypt_aes, hex_bytes, hex_decoded, hex_string, hex_text,
};
use crate::messages::DatabaseReply;
use crate::rlwe::{params_ok, Parameters};
use crate::central::KeyExchange;
use crate::rlwe_text::{
    decrypted_bytes, decrypts, is_encryption, key_a, key_b, key_numbers, key_pair,
    lemma_ascii_fits, lemma_key_strings_round_trip, plain_ascii, text_poly, try_decrypt_string, KeyStrings,
};
use crate::text::join_ints;
use crate::text::text_eq;

verus! {

/// The bytes hexadecimal key text stands for.
pub open spec fn hex_key(text: Seq<char>) -> Seq<u8> {
    hex_decoded(encode_utf8(text)).unwrap()
}

/// Key and IV texts that stand for 32 and 16 bytes.
pub open spec fn aes_texts_usable(key: Seq<char>, iv: Seq<char>) -> bool {
    &&& hex_decoded(encode_utf8(key)) is Some
    &&& hex_key(key).len() == 32
    &&& hex_decoded(encode_utf8(iv)) is Some
    &&& hex_key(iv).len() == 16
}

/// A request goes out encrypted once a key and an IV are known, unless it
/// is the key exchange itself.
pub open spec fn sent_encrypted(key: Option<&str>, iv: Option<&str>, command: Seq<char>) -> bool {
    key is Some && iv is Some && command != "KEY_EXCHANGE"@
}

/// Whether a request goes out encrypted.
pub fn sends_encrypted(key: Option<&str>, iv: Option<&str>, command: &str) -> (r: bool)
    ensures
        r == sent_encrypted(key, iv, command@),
{
    key.is_some() && iv.is_some() && !text_eq(command, "KEY_EXCHANGE")
}

/// Whether key and IV texts stand for 32 and 16 bytes.
pub fn usable_aes_texts(key: &str, iv: &str) -> (r: bool)
    ensures
        r == aes_texts_usable(key@, iv@),
{
    match (hex_bytes(key.as_bytes()), hex_bytes(iv.as_bytes())) {
        (Some(k), Some(v)) => k.len() == 32 && v.len() == 16,
        _ => false,
    }
}

/// The bytes a request travels as: its JSON text encrypted with AES under
/// the hexadecimal key and IV where `sent_encrypted`, the text's bytes
/// otherwise. `None` where openssl reports an error.
pub fn outgoing_request(request_json: &str, key: Option<&str>, iv: Option<&str>, command: &str) -> (r: Option<Vec<u8>>)
    requires
        sent_encrypted(key, iv, command@) ==> aes_texts_usable(key.unwrap()@, iv.unwrap()@),
    ensures
        sent_encrypted(key, iv, command@) ==> (r matches Some(c) ==> c@ == aes_cbc_encrypted(
            hex_key(key.unwrap()@),
            hex_key(iv.unwrap()@),
            encode_utf8(request_json@),
        )),
        !sent_encrypted(key, iv, command@) ==> (r matches Some(b) && b@ == encode_utf8(request_json@)),
{
    match (key, iv) {
        (Some(k), Some(v)) => {
            if !text_eq(command, "KEY_EXCHANGE") {
                let kb = hex_bytes(k.as_bytes());
                let vb = hex_bytes(v.as_bytes());
                match (kb, vb) {
                    (Some(kb), Some(vb)) => {
                        return encrypt_aes(request_json, kb.as_slice(), vb.as_slice());
                    },
                    _ => {
                        return None;
                    },
                }
            }
        },
        _ => {},
    }
    Some(slice_to_vec_u8(request_json.as_bytes()))
}

fn slice_to_vec_u8(s: &[u8]) -> (r: Vec<u8>)
    ensures
        r@ == s@,
{
    vstd::slice::slice_to_vec(s)
}

/// A key exchange's reply carries both encrypted parts.
pub open spec fn exchange_complete(reply: DatabaseReply) -> bool {
    &&& reply.status@ == "success"@
    &&& reply.encrypted_aes_key is Some
    &&& reply.encrypted_iv is Some
}

/// The key and IV a key exchange leaves the port server with, as
/// hexadecimal text: `None` where the reply is not a complete success, or
/// either part does not decrypt with the port server's secret key (or
/// decrypts to more bytes than hexadecimal text of them can hold).
pub fn stored_keys(reply: &DatabaseReply, secret: &String, params: &Parameters) -> (r: Option<(String, String)>)
    requires
        params_ok(params),
    ensures
        !exchange_complete(*reply) ==> r is None,
        exchange_complete(*reply) ==> {
            let k = reply.encrypted_aes_key.unwrap()@;
            let v = reply.encrypted_iv.unwrap()@;
            &&& (r is Some <==> decrypts(secret@, k, params) && decrypts(secret@, v, params) && 2
                * decrypted_bytes(secret@, k, params).len() <= isize::MAX && 2 * decrypted_bytes(secret@, v, params).len()
                <= isize::MAX)
            &&& r matches Some((ks, vs)) ==> ks@ == hex_text(decrypted_bytes(secret@, k, params)) && vs@ == hex_text(
                decrypted_bytes(secret@, v, params),
            )
        },
{
    if !text_eq(reply.status.as_str(), "success") {
        return None;
    }
    match (&reply.encrypted_aes_key, &reply.encrypted_iv) {
        (Some(k), Some(v)) => {
            let key = try_decrypt_string(secret, k, params);
            let iv = try_decrypt_string(secret, v, params);
            match (key, iv) {
                (Some(key), Some(iv)) => {
                    let limit: usize = (isize::MAX as usize) / 2;
                    if key.len() <= limit && iv.len() <= limit {
                        Some((hex_string(key.as_slice()), hex_string(iv.as_slice())))
                    } else {
                        None
                    }
                },
                _ => None,
            }
        },
        _ => None,
    }
}

/// The key exchange hands over the key: where a port server's keys are as
/// `keygen_string` makes them and the central database answered its public
/// key as `key_exchange_for` does, the reply is complete, and both parts
/// decrypt with the port server's secret key text to the key and IV the
/// central database keeps (in hexadecimal). This is for parameters where
/// `t` divides `q`, is at least 128, and times an encryption's noise stays
/// below `q / 2`, with `n` at least 44; and for key and ciphertext texts of
/// all `2n` numbers.
pub proof fn lemma_key_exchange_round_trip(p: &Parameters, keys: KeyStrings, ex: KeyExchange)
    requires
        params_ok(p),
        p.q % p.t == 0,
        p.t >= 128,
        2 * p.t * (2 * p.n + 1) < p.q,
        p.n >= 44,
        exists|b: Seq<i64>, a: Seq<i64>, s: Seq<i64>|
            key_pair(b, a, s, p) && keys.public@ == join_ints(b + a) && keys.secret@ == join_ints(s),
        key_numbers(keys.public@).len() == 2 * p.n,
        exists|key: Seq<u8>, iv: Seq<u8>|
            {
                &&& key.len() == 32
                &&& iv.len() == 16
                &&& ex.aes_key_hex@ == hex_text(key)
                &&& ex.iv_hex@ == hex_text(iv)
                &&& ex.reply.status@ == "success"@
                &&& ex.reply.encrypted_aes_key matches Some(k) && is_encryption(
                    k@,
                    key_b(key_numbers(keys.public@), p.n as int),
                    key_a(key_numbers(keys.public@), p.n as int),
                    text_poly(base64_encoded(key)),
                    p,
                )
                &&& ex.reply.encrypted_iv matches Some(v) && is_encryption(
                    v@,
                    key_b(key_numbers(keys.public@), p.n as int),
                    key_a(key_numbers(keys.public@), p.n as int),
                    text_poly(base64_encoded(iv)),
                    p,
                )
                &&& plain_ascii(base64_encoded(key)) && base64_decoded(base64_encoded(key)) == Some(key)
                &&& plain_ascii(base64_encoded(iv)) && base64_decoded(base64_encoded(iv)) == Some(iv)
                &&& base64_encoded(key).len() == 44 && base64_encoded(iv).len() == 24
            },
        ex.reply.encrypted_aes_key matches Some(k) && key_numbers(k@).len() == 2 * p.n,
        ex.reply.encrypted_iv matches Some(v) && key_numbers(v@).len() == 2 * p.n,
    ensures
        exchange_complete(ex.reply),
        decrypts(keys.secret@, ex.reply.encrypted_aes_key.unwrap()@, p),
        decrypts(keys.secret@, ex.reply.encrypted_iv.unwrap()@, p),
        hex_text(decrypted_bytes(keys.secret@, ex.reply.encrypted_aes_key.unwrap()@, p)) == ex.aes_key_hex@,
        hex_text(decrypted_bytes(keys.secret@, ex.reply.encrypted_iv.unwrap()@, p)) == ex.iv_hex@,
{
    let (key, iv) = choose|key: Seq<u8>, iv: Seq<u8>|
        {
            &&& key.len() == 32
            &&& iv.len() == 16
            &&& ex.aes_key_hex@ == hex_text(key)
            &&& ex.iv_hex@ == hex_text(iv)
            &&& ex.reply.status@ == "success"@
            &&& ex.reply.encrypted_aes_key matches Some(k) && is_encryption(
                k@,
                key_b(key_numbers(keys.public@), p.n as int),
                key_a(key_numbers(keys.public@), p.n as int),
                text_poly(base64_encoded(key)),
                p,
            )
            &&& ex.reply.encrypted_iv matches Some(v) && is_encryption(
                v@,
                key_b(key_numbers(keys.public@), p.n as int),
                key_a(key_numbers(keys.public@), p.n as int),
                text_poly(base64_encoded(iv)),
                p,
            )
            &&& plain_ascii(base64_encoded(key)) && base64_decoded(base64_encoded(key)) == Some(key)
            &&& plain_ascii(base64_encoded(iv)) && base64_decoded(base64_encoded(iv)) == Some(iv)
            &&& base64_encoded(key).len() == 44 && base64_encoded(iv).len() == 24
        };
    let k = ex.reply.encrypted_aes_key.unwrap();
    let v = ex.reply.encrypted_iv.unwrap();
    lemma_ascii_fits(base64_encoded(key), p);
    lemma_ascii_fits(base64_encoded(iv), p);
    lemma_key_strings_round_trip(p, keys, key, k@);
    lemma_key_strings_round_trip(p, keys, iv, v@);
}

} // verus!
