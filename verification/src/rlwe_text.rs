//! Ring-LWE keys and ciphertexts as text, and the encryption of byte
//! strings with them. Coefficients travel as comma-separated decimal lists;
//! a byte string travels as its base64 text, one coefficient per character.
use vstd::prelude::*;
use vstd::slice::{slice_subrange, slice_to_vec};
use vstd::utf8::{encode_utf8, is_ascii_chars, is_ascii_chars_encode_utf8};
use crate::codec::{base64_bytes, base64_decoded, base64_encoded, base64_len, base64_text, is_base64_char};
use crate::poly::{
    add_fits, bounded, degree_of, ints, lemma_max_abs, lemma_max_abs_le, lemma_trim_bounded, lemma_trim_idem,
    lemma_ints_injective, lemma_trim_prefix, lemma_trim_trimmed, max_abs, max_len, mul_fits, polymul, polymul_spec, trim_zeros, Poly,
};
use crate::ring::{in_window, lemma_polymul_coeffs};
use crate::rlwe::{
    ciphertext, decrypt, decrypt_fits, decrypt_noisy, decrypt_spec, encrypt, encrypt_fits, keygen,
    lemma_ciphertext_shape, lemma_decrypt_encrypt, message_fits, params_ok, public_b, seeded_poly, small,
    Parameters,
};
use crate::text::{
    all_i64, join_i64, join_ints, lemma_join_all_i64, lemma_join_parse_round_trip, parse_i64_list, parse_i64_list_strict, parsed_i64_list, push_char,
    pop_char, split_on, trim_end_char,
};

verus! {

// ---------------------------------------------------------------------
// Keys
// ---------------------------------------------------------------------
/// A key pair as text: the public key's coefficients (`b`, then `a`) and the
/// secret's, each a comma-separated list.
#[derive(Debug)]
pub struct KeyStrings {
    pub public: String,
    pub secret: String,
}

/// Public key `[b, a]` and secret `s` as `keygen` makes them.
pub open spec fn key_pair(b: Seq<i64>, a: Seq<i64>, s: Seq<i64>, p: &Parameters) -> bool {
    &&& in_range_q(ints(a), p)
    &&& a.len() <= p.n
    &&& b.len() <= p.n
    &&& small(ints(s), p.n as int)
    &&& exists|e: Seq<int>| small(e, p.n as int) && ints(b) == public_b(ints(a), ints(s), e, p.q as int, p.f@)
}

pub open spec fn in_range_q(a: Seq<int>, p: &Parameters) -> bool {
    crate::poly::in_range(a, 0, p.q as int)
}

/// `v` followed by `w`.
fn extend_i64(v: &mut Vec<i64>, w: &Vec<i64>)
    ensures
        final(v)@ == old(v)@ + w@,
{
    let ghost start = v@;
    let mut i: usize = 0;
    while i < w.len()
        invariant
            i <= w@.len(),
            v@ == start + w@.take(i as int),
        decreases w@.len() - i,
    {
        v.push(w[i]);
        proof {
            assert(w@.take(i + 1) == w@.take(i as int).push(w@[i as int]));
        }
        i = i + 1;
    }
    assert(w@.take(w@.len() as int) == w@);
}

/// The key pair `keygen` makes from seed `x`: the secret is the seeded
/// ternary polynomial, `a` the seeded uniform one, and the key's error is the
/// secret again.
pub open spec fn seeded_key(x: u64, p: &Parameters, b: Seq<int>, a: Seq<int>, s: Seq<int>) -> bool {
    &&& s == seeded_poly(x, p.n as nat, -1, 2)
    &&& a == seeded_poly(x, p.n as nat, 0, p.q as int)
    &&& b == public_b(a, s, s, p.q as int, p.f@)
}

/// A fresh key pair as text.
pub fn keygen_string(params: &Parameters, seed: Option<u64>) -> (r: KeyStrings)
    requires
        params_ok(params),
    ensures
        exists|b: Seq<i64>, a: Seq<i64>, s: Seq<i64>|
            {
                &&& key_pair(b, a, s, params)
                &&& r.public@ == join_ints(b + a)
                &&& r.secret@ == join_ints(s)
                &&& seed matches Some(x) ==> seeded_key(x, params, ints(b), ints(a), ints(s))
            },
{
    let (public, secret) = keygen(params, seed);
    let mut pk: Vec<i64> = Vec::new();
    extend_i64(&mut pk, public[0].coeffs());
    extend_i64(&mut pk, public[1].coeffs());
    let public_text = join_i64(&pk);
    let secret_text = join_i64(secret.coeffs());
    proof {
        assert(pk@ == public[0]@ + public[1]@);
        assert(key_pair(public[0]@, public[1]@, secret@, params));
        assert(seed matches Some(x) ==> seeded_key(x, params, ints(public[0]@), ints(public[1]@), ints(secret@)));
    }
    KeyStrings { public: public_text, secret: secret_text }
}

// ---------------------------------------------------------------------
// Encryption
// ---------------------------------------------------------------------
/// The numbers of a comma-separated list, skipping entries that are not
/// 64-bit integers.
pub open spec fn key_numbers(text: Seq<char>) -> Seq<i64> {
    parsed_i64_list(split_on(text, ','))
}

/// The public key's `b`: its first `n` numbers.
pub open spec fn key_b(nums: Seq<i64>, n: int) -> Seq<int> {
    trim_zeros(ints(nums.take(n)))
}

/// The public key's `a`: the numbers after the first `n`.
pub open spec fn key_a(nums: Seq<i64>, n: int) -> Seq<int> {
    trim_zeros(ints(nums.skip(n)))
}

/// A text as a polynomial: one coefficient per UTF-8 byte.
pub open spec fn text_poly(text: Seq<char>) -> Seq<int> {
    trim_zeros(encode_utf8(text).map_values(|b: u8| b as int))
}

/// `r` is the text of an encryption of `m` under `[b, a]`: the first
/// ciphertext polynomial's coefficients, then the second's.
pub open spec fn is_encryption(r: Seq<char>, b: Seq<int>, a: Seq<int>, m: Seq<int>, p: &Parameters) -> bool {
    exists|c0: Seq<i64>, c1: Seq<i64>, u: Seq<int>, e1: Seq<int>, e2: Seq<int>|
        {
            &&& small(u, p.n as int)
            &&& small(e1, p.n as int)
            &&& small(e2, p.n as int)
            &&& (ints(c0), ints(c1)) == ciphertext(b, a, m, u, e1, e2, p.q as int, p.t as int, p.f@)
            &&& r == join_ints(c0 + c1)
        }
}

/// `r` is the text of the encryption of `m` under `[b, a]` that seed `x`
/// makes: its small polynomials are all the seeded ternary polynomial.
pub open spec fn is_seeded_encryption(r: Seq<char>, b: Seq<int>, a: Seq<int>, m: Seq<int>, x: u64, p: &Parameters) -> bool {
    let t = seeded_poly(x, p.n as nat, -1, 2);
    exists|c0: Seq<i64>, c1: Seq<i64>|
        (ints(c0), ints(c1)) == ciphertext(b, a, m, t, t, t, p.q as int, p.t as int, p.f@) && r == join_ints(c0 + c1)
}

/// The coefficients `v[lo..hi]` as a polynomial.
pub(crate) fn poly_of_range(v: &Vec<i64>, lo: usize, hi: usize) -> (r: Poly)
    requires
        lo <= hi <= v@.len(),
    ensures
        ints(r@) == trim_zeros(ints(v@.subrange(lo as int, hi as int))),
{
    Poly::new(slice_to_vec(slice_subrange(v.as_slice(), lo, hi)))
}

/// Encrypts a text, one coefficient per UTF-8 byte, under the public key
/// in `pk_string` (its first `n` numbers are `b`, the rest `a`).
pub fn encrypt_encoded(pk_string: &String, encoded: &str, params: &Parameters, seed: Option<u64>) -> (r: String)
    requires
        params_ok(params),
        key_numbers(pk_string@).len() >= params.n,
        encrypt_fits(
            key_b(key_numbers(pk_string@), params.n as int),
            key_a(key_numbers(pk_string@), params.n as int),
            text_poly(encoded@),
            params,
        ),
    ensures
        is_encryption(
            r@,
            key_b(key_numbers(pk_string@), params.n as int),
            key_a(key_numbers(pk_string@), params.n as int),
            text_poly(encoded@),
            params,
        ),
        seed matches Some(x) ==> is_seeded_encryption(
            r@,
            key_b(key_numbers(pk_string@), params.n as int),
            key_a(key_numbers(pk_string@), params.n as int),
            text_poly(encoded@),
            x,
            params,
        ),
{
    let pk_arr = parse_i64_list(pk_string.as_str());
    let n = params.n;
    let pk_b = poly_of_range(&pk_arr, 0, n);
    let pk_a = poly_of_range(&pk_arr, n, pk_arr.len());
    proof {
        assert(pk_arr@.subrange(0, n as int) == pk_arr@.take(n as int));
        assert(pk_arr@.subrange(n as int, pk_arr@.len() as int) == pk_arr@.skip(n as int));
    }
    let bytes = encoded.as_bytes();
    let mut ints_v: Vec<i64> = Vec::new();
    let mut i: usize = 0;
    while i < bytes.len()
        invariant
            i <= bytes@.len(),
            bytes@ == encode_utf8(encoded@),
            ints(ints_v@) == bytes@.take(i as int).map_values(|b: u8| b as int),
        decreases bytes@.len() - i,
    {
        let b = bytes[i];
        let ghost before = ints_v@;
        ints_v.push(b as i64);
        proof {
            assert(bytes@.take(i + 1) == bytes@.take(i as int).push(b));
            assert(ints_v@ == before.push(b as i64));
            assert(ints(ints_v@) == ints(before).push(b as int));
        }
        i = i + 1;
    }
    assert(bytes@.take(bytes@.len() as int) == bytes@);
    let m = Poly::new(ints_v);
    let pk = [pk_b, pk_a];
    let ct = encrypt(&pk, &m, params, seed);
    let mut all: Vec<i64> = Vec::new();
    extend_i64(&mut all, ct.0.coeffs());
    extend_i64(&mut all, ct.1.coeffs());
    proof {
        assert(all@ == ct.0@ + ct.1@);
    }
    join_i64(&all)
}

/// The first two conditions of `encrypt_fits`: the public key's parts times
/// small polynomials stay within 64 bits.
pub open spec fn key_fits(b: Seq<int>, a: Seq<int>, p: &Parameters) -> bool {
    &&& (b.len() + p.n) * (b.len() * max_abs(b)) <= i64::MAX
    &&& (a.len() + p.n) * (a.len() * max_abs(a)) <= i64::MAX
}

proof fn lemma_base64_poly(text: Seq<char>)
    requires
        forall|i: int| 0 <= i < text.len() ==> is_base64_char(#[trigger] text[i]),
    ensures
        text_poly(text).len() <= text.len(),
        bounded(text_poly(text), 127),
{
    assert(is_ascii_chars(text));
    is_ascii_chars_encode_utf8(text);
    let raw = encode_utf8(text).map_values(|b: u8| b as int);
    assert(bounded(raw, 127)) by {
        assert forall|i: int| 0 <= i < raw.len() implies -127 <= #[trigger] raw[i] <= 127 by {
            assert(encode_utf8(text)[i] == text[i] as u8);
        }
    }
    crate::poly::lemma_trim_bounded(raw, 127);
    crate::poly::lemma_trim_prefix(raw);
}

/// Encrypts bytes for the holder of the public key in `pk_string`: their
/// base64 text, one coefficient per character.
pub fn encrypt_string(pk_string: &String, message: &[u8], params: &Parameters, seed: Option<u64>) -> (r: String)
    requires
        params_ok(params),
        key_numbers(pk_string@).len() >= params.n,
        key_fits(
            key_b(key_numbers(pk_string@), params.n as int),
            key_a(key_numbers(pk_string@), params.n as int),
            params,
        ),
        (base64_len(message@.len()) + params.n) * (params.q * params.q) <= i64::MAX,
    ensures
        is_encryption(
            r@,
            key_b(key_numbers(pk_string@), params.n as int),
            key_a(key_numbers(pk_string@), params.n as int),
            text_poly(base64_encoded(message@)),
            params,
        ),
        seed matches Some(x) ==> is_seeded_encryption(
            r@,
            key_b(key_numbers(pk_string@), params.n as int),
            key_a(key_numbers(pk_string@), params.n as int),
            text_poly(base64_encoded(message@)),
            x,
            params,
        ),
        plain_ascii(base64_encoded(message@)),
        base64_encoded(message@).len() == base64_len(message@.len()),
        base64_decoded(base64_encoded(message@)) == Some(message@),
{
    let message_str = base64_text(message);
    proof {
        assert forall|i: int| 0 <= i < message_str@.len() implies '\0' < #[trigger] message_str@[i]
            && message_str@[i] <= '\u{7f}' by {
            assert(is_base64_char(message_str@[i]));
        }
        let m = text_poly(message_str@);
        let q = params.q as int;
        let n = params.n as int;
        lemma_base64_poly(message_str@);
        lemma_max_abs(m);
        lemma_max_abs_le(m, 127);
        assert(4 * (q * q) <= 4 * (n * n) * (q * q)) by (nonlinear_arith)
            requires
                n >= 1,
        ;
        assert(max_abs(m) * q <= i64::MAX) by (nonlinear_arith)
            requires
                0 <= max_abs(m) <= 127,
                q >= 2,
                4 * (q * q) <= i64::MAX,
        ;
        assert((m.len() + n) * (q * q) <= (base64_len(message@.len()) + n) * (q * q)) by (nonlinear_arith)
            requires
                m.len() <= base64_len(message@.len()),
                q * q >= 0,
        ;
    }
    encrypt_encoded(pk_string, message_str.as_str(), params, seed)
}

// ---------------------------------------------------------------------
// Decryption
// ---------------------------------------------------------------------
/// Part `part` (0 or 1) of ciphertext block `i`: the `n` numbers at
/// `(2i + part) * n`.
pub open spec fn block(ct: Seq<i64>, n: int, i: int, part: int) -> Seq<int> {
    trim_zeros(ints(ct.subrange((2 * i + part) * n, (2 * i + part + 1) * n)))
}

/// How many whole blocks of `2n` numbers a ciphertext holds.
pub open spec fn block_count(ct: Seq<i64>, n: int) -> int {
    ct.len() as int / (2 * n)
}

/// A decrypted coefficient as a character: its low byte.
pub open spec fn coeff_char(c: int) -> char {
    ((c % 256) as u8) as char
}

/// The characters of the first `k` decrypted blocks.
pub open spec fn decrypted_blocks(s: Seq<int>, ct: Seq<i64>, p: &Parameters, k: int) -> Seq<char>
    decreases k,
{
    if k <= 0 {
        Seq::empty()
    } else {
        decrypted_blocks(s, ct, p, k - 1) + decrypt_spec(
            s,
            block(ct, p.n as int, k - 1, 0),
            block(ct, p.n as int, k - 1, 1),
            p,
        ).map_values(|c: int| coeff_char(c))
    }
}

/// The text a ciphertext decrypts to with secret `s`: the characters of
/// all its blocks, without trailing NUL characters.
pub open spec fn decrypted_text(s: Seq<int>, ct: Seq<i64>, p: &Parameters) -> Seq<char> {
    trim_end_char(decrypted_blocks(s, ct, p, block_count(ct, p.n as int)), '\0')
}

/// Decryption of every block stays within 64 bits.
pub open spec fn blocks_fit(s: Seq<int>, ct: Seq<i64>, p: &Parameters) -> bool {
    forall|i: int|
        0 <= i < block_count(ct, p.n as int) ==> #[trigger] decrypt_fits(
            s,
            block(ct, p.n as int, i, 0),
            block(ct, p.n as int, i, 1),
            p,
        )
}

proof fn lemma_block_bounds(ct: Seq<i64>, n: int, i: int)
    requires
        n >= 1,
        0 <= i < block_count(ct, n),
    ensures
        0 <= (2 * i + 2) * n <= ct.len(),
{
    assert((i + 1) * (2 * n) <= (ct.len() as int / (2 * n)) * (2 * n)) by (nonlinear_arith)
        requires
            i + 1 <= ct.len() as int / (2 * n),
            n >= 1,
    ;
    assert((ct.len() as int / (2 * n)) * (2 * n) <= ct.len()) by (nonlinear_arith)
        requires
            n >= 1,
    ;
    assert((2 * i + 2) * n == (i + 1) * (2 * n)) by (nonlinear_arith);
    assert(0 <= (2 * i + 2) * n) by (nonlinear_arith)
        requires
            i >= 0,
            n >= 1,
    ;
}

/// The text that a ciphertext's blocks decrypt to with the secret `sk`.
pub fn decrypt_blocks(sk: &Poly, ct: &Vec<i64>, params: &Parameters) -> (r: String)
    requires
        params_ok(params),
        blocks_fit(ints(sk@), ct@, params),
    ensures
        r@ == decrypted_text(ints(sk@), ct@, params),
{
    let n = params.n;
    proof {
        let q = params.q as int;
        assert(n < 0x4000_0000) by (nonlinear_arith)
            requires
                n >= 1,
                q >= 2,
                4 * (n * n) * (q * q) <= i64::MAX,
        ;
    }
    let num_blocks = ct.len() / (2 * n);
    let mut out = String::new();
    let mut i: usize = 0;
    while i < num_blocks
        invariant
            params_ok(params),
            n == params.n,
            num_blocks == block_count(ct@, n as int),
            blocks_fit(ints(sk@), ct@, params),
            i <= num_blocks,
            out@ == decrypted_blocks(ints(sk@), ct@, params, i as int),
        decreases num_blocks - i,
    {
        proof {
            lemma_block_bounds(ct@, n as int, i as int);
            assert((2 * i + 1) * n <= (2 * i + 2) * n) by (nonlinear_arith)
                requires
                    n >= 1,
            ;
            assert(2 * i * n <= (2 * i + 1) * n) by (nonlinear_arith)
                requires
                    n >= 1,
            ;
            assert(2 * i <= 2 * i * n) by (nonlinear_arith)
                requires
                    n >= 1,
            ;
            assert(2 * i + 2 <= (2 * i + 2) * n) by (nonlinear_arith)
                requires
                    n >= 1,
            ;
        }
        let total = ct.len();
        assert((2 * i + 2) * n <= total);
        let lo: usize = 2 * i * n;
        let mid: usize = (2 * i + 1) * n;
        let hi: usize = (2 * i + 2) * n;
        let c0 = poly_of_range(ct, lo, mid);
        let c1 = poly_of_range(ct, mid, hi);
        proof {
            assert(ints(c0@) == block(ct@, n as int, i as int, 0));
            assert(ints(c1@) == block(ct@, n as int, i as int, 1));
            assert(decrypt_fits(ints(sk@), block(ct@, n as int, i as int, 0), block(ct@, n as int, i as int, 1), params));
        }
        let cipher = [c0, c1];
        let plain = decrypt(sk, &cipher, params);
        let coeffs = plain.coeffs();
        let ghost before = out@;
        let ghost d = ints(plain@);
        let mut j: usize = 0;
        while j < coeffs.len()
            invariant
                coeffs@ == plain@,
                d == ints(plain@),
                d == decrypt_spec(ints(sk@), block(ct@, n as int, i as int, 0), block(ct@, n as int, i as int, 1), params),
                params_ok(params),
                j <= coeffs@.len(),
                out@ == before + d.take(j as int).map_values(|c: int| coeff_char(c)),
            decreases coeffs@.len() - j,
        {
            let c = coeffs[j];
            assert(d[j as int] == c as int);
            assert(d[j as int] >= 0) by {
                lemma_decrypted_nonneg(ints(sk@), block(ct@, n as int, i as int, 0), block(ct@, n as int, i as int, 1), params, j as int);
            }
            let low: u8 = (c % 256) as u8;
            let ch: char = low as char;
            assert(ch == coeff_char(c as int));
            push_char(&mut out, ch);
            proof {
                assert(d.take(j + 1) == d.take(j as int).push(c as int));
            }
            j = j + 1;
        }
        proof {
            assert(d.take(d.len() as int) == d);
        }
        i = i + 1;
    }
    assert(trim_end_char(out@, '\0') == decrypted_text(ints(sk@), ct@, params));
    loop
        invariant
            trim_end_char(out@, '\0') == decrypted_text(ints(sk@), ct@, params),
        ensures
            out@ == decrypted_text(ints(sk@), ct@, params),
        decreases out@.len(),
    {
        let ghost before = out@;
        match pop_char(&mut out) {
            Some(c) => {
                if c != '\0' {
                    push_char(&mut out, c);
                    proof {
                        assert(before.drop_last().push(c) == before);
                    }
                    break;
                }
            },
            None => {
                break;
            },
        }
    }
    out
}

proof fn lemma_decrypted_nonneg(s: Seq<int>, c0: Seq<int>, c1: Seq<int>, p: &Parameters, j: int)
    requires
        params_ok(p),
        0 <= j < decrypt_spec(s, c0, c1, p).len(),
    ensures
        decrypt_spec(s, c0, c1, p)[j] >= 0,
{
    let raw = crate::rlwe::decrypt_noisy(s, c0, c1, p).map_values(|c: int| crate::rlwe::decode(c, p));
    crate::poly::lemma_trim_prefix(raw);
    assert(decrypt_spec(s, c0, c1, p)[j] == raw[j]);
}

/// The secret polynomial a key text holds.
pub open spec fn secret_poly(text: Seq<char>) -> Seq<int> {
    trim_zeros(ints(key_numbers(text)))
}

/// Decrypts a ciphertext text with the secret key text: the bytes whose
/// base64 text its blocks decrypt to.
pub fn decrypt_string(sk_string: &String, ciphertext_string: &String, params: &Parameters) -> (r: Vec<u8>)
    requires
        params_ok(params),
        all_i64(split_on(ciphertext_string@, ',')),
        blocks_fit(secret_poly(sk_string@), key_numbers(ciphertext_string@), params),
        base64_decoded(
            decrypted_text(
                secret_poly(sk_string@),
                key_numbers(ciphertext_string@),
                params,
            ),
        ) is Some,
    ensures
        base64_decoded(
            decrypted_text(
                secret_poly(sk_string@),
                key_numbers(ciphertext_string@),
                params,
            ),
        ) == Some(r@),
{
    let sk = Poly::new(parse_i64_list(sk_string.as_str()));
    let ct = match parse_i64_list_strict(ciphertext_string.as_str()) {
        Some(v) => v,
        None => Vec::new(),
    };
    let text = decrypt_blocks(&sk, &ct, params);
    match base64_bytes(text.as_str()) {
        Some(v) => v,
        None => Vec::new(),
    }
}

/// The largest magnitude of a coefficient.
pub(crate) fn max_abs_of(v: &Vec<i64>) -> (r: u64)
    ensures
        r as int == max_abs(ints(v@)),
{
    let mut m: u64 = 0;
    let mut i: usize = 0;
    while i < v.len()
        invariant
            i <= v@.len(),
            m as int == max_abs(ints(v@).take(i as int)),
        decreases v@.len() - i,
    {
        let c = v[i];
        let a: u64 = if c < 0 {
            if c == i64::MIN {
                0x8000_0000_0000_0000u64
            } else {
                (-c) as u64
            }
        } else {
            c as u64
        };
        proof {
            let t = ints(v@).take(i + 1);
            assert(t.drop_last() == ints(v@).take(i as int));
            assert(t.last() == c as int);
            assert(a as int == crate::poly::abs(c as int));
        }
        if a > m {
            m = a;
        }
        i = i + 1;
    }
    assert(ints(v@).take(v@.len() as int) == ints(v@));
    m
}

/// Whether `polymul(x, y)` stays within 64 bits.
fn mul_fits_check(x: &Poly, y: &Poly) -> (r: bool)
    ensures
        r == mul_fits(ints(x@), ints(y@)),
{
    let mx = max_abs_of(x.coeffs()) as u128;
    let my = max_abs_of(y.coeffs()) as u128;
    let lx = x.coeffs().len() as u128;
    let ly = y.coeffs().len() as u128;
    assert(mx * my <= 0xffff_ffff_ffff_ffffu128 * 0xffff_ffff_ffff_ffffu128) by (nonlinear_arith)
        requires
            mx <= 0xffff_ffff_ffff_ffffu128,
            my <= 0xffff_ffff_ffff_ffffu128,
    ;
    let p: u128 = mx * my;
    match lx.checked_mul(p) {
        Some(lp) => match (lx + ly).checked_mul(lp) {
            Some(total) => total <= 0x7fff_ffff_ffff_ffffu128,
            None => false,
        },
        None => {
            assert(lx * p > i64::MAX) by (nonlinear_arith)
                requires
                    lx * p > u128::MAX,
            ;
            assert((lx + ly) * (lx * p) > i64::MAX) by (nonlinear_arith)
                requires
                    lx * p > i64::MAX,
                    lx >= 0,
                    p >= 0,
                    ly >= 0,
            ;
            false
        },
    }
}

/// Whether `polyadd(x, y)` stays within 64 bits.
fn add_fits_check(x: &Poly, y: &Poly) -> (r: bool)
    ensures
        r == add_fits(ints(x@), ints(y@)),
{
    let mx = max_abs_of(x.coeffs()) as u128;
    let my = max_abs_of(y.coeffs()) as u128;
    let lx = x.coeffs().len();
    let ly = y.coeffs().len();
    let l: u128 = if lx >= ly { lx as u128 } else { ly as u128 };
    assert(l == max_len(ints(x@), ints(y@)));
    match l.checked_mul(mx + my) {
        Some(total) => total <= 0x7fff_ffff_ffff_ffffu128,
        None => false,
    }
}

/// Whether decrypting every block stays within 64 bits.
fn blocks_fit_check(sk: &Poly, ct: &Vec<i64>, params: &Parameters) -> (r: bool)
    requires
        params_ok(params),
    ensures
        r == blocks_fit(ints(sk@), ct@, params),
{
    let n = params.n;
    proof {
        let q = params.q as int;
        assert(n < 0x4000_0000) by (nonlinear_arith)
            requires
                n >= 1,
                q >= 2,
                4 * (n * n) * (q * q) <= i64::MAX,
        ;
    }
    let num_blocks = ct.len() / (2 * n);
    let mut i: usize = 0;
    while i < num_blocks
        invariant
            params_ok(params),
            n == params.n,
            n < 0x4000_0000,
            num_blocks == block_count(ct@, n as int),
            i <= num_blocks,
            forall|j: int|
                0 <= j < i ==> #[trigger] decrypt_fits(ints(sk@), block(ct@, n as int, j, 0), block(ct@, n as int, j, 1), params),
        decreases num_blocks - i,
    {
        proof {
            lemma_block_bounds(ct@, n as int, i as int);
            assert((2 * i + 1) * n <= (2 * i + 2) * n) by (nonlinear_arith)
                requires
                    n >= 1,
            ;
            assert(2 * i * n <= (2 * i + 1) * n) by (nonlinear_arith)
                requires
                    n >= 1,
            ;
            assert(2 * i <= 2 * i * n) by (nonlinear_arith)
                requires
                    n >= 1,
            ;
            assert(2 * i + 2 <= (2 * i + 2) * n) by (nonlinear_arith)
                requires
                    n >= 1,
            ;
        }
        let total = ct.len();
        assert((2 * i + 2) * n <= total);
        let c0 = poly_of_range(ct, 2 * i * n, (2 * i + 1) * n);
        let c1 = poly_of_range(ct, (2 * i + 1) * n, (2 * i + 2) * n);
        let ghost b0 = block(ct@, n as int, i as int, 0);
        let ghost b1 = block(ct@, n as int, i as int, 1);
        assert(ints(c0@) == b0);
        assert(ints(c1@) == b1);
        if !mul_fits_check(&c1, sk) {
            assert(!decrypt_fits(ints(sk@), b0, b1, params));
            return false;
        }
        let m = polymul(&c1, sk, params.q, &params.f);
        if !add_fits_check(&m, &c0) {
            assert(!decrypt_fits(ints(sk@), b0, b1, params));
            return false;
        }
        assert(decrypt_fits(ints(sk@), b0, b1, params));
        i = i + 1;
    }
    true
}

/// A ciphertext text that `decrypt_string` decrypts with the secret key
/// text: every entry a number, every block's arithmetic within 64 bits, and
/// base64 text as the result.
pub open spec fn decrypts(sk: Seq<char>, ct: Seq<char>, p: &Parameters) -> bool {
    &&& all_i64(split_on(ct, ','))
    &&& blocks_fit(secret_poly(sk), key_numbers(ct), p)
    &&& base64_decoded(decrypted_text(secret_poly(sk), key_numbers(ct), p)) is Some
}

/// The bytes a ciphertext text decrypts to with the secret key text.
pub open spec fn decrypted_bytes(sk: Seq<char>, ct: Seq<char>, p: &Parameters) -> Seq<u8> {
    base64_decoded(decrypted_text(secret_poly(sk), key_numbers(ct), p)).unwrap()
}

/// Decrypts a ciphertext text with the secret key text where that can be
/// done: `None` where an entry of the ciphertext is not a number, a block's
/// arithmetic would leave 64 bits, or the decrypted text is not base64.
pub fn try_decrypt_string(sk_string: &String, ciphertext_string: &String, params: &Parameters) -> (r: Option<Vec<u8>>)
    requires
        params_ok(params),
    ensures
        r is Some <==> decrypts(sk_string@, ciphertext_string@, params),
        r matches Some(v) ==> v@ == decrypted_bytes(sk_string@, ciphertext_string@, params),
{
    let ct = match parse_i64_list_strict(ciphertext_string.as_str()) {
        Some(v) => v,
        None => {
            return None;
        },
    };
    let sk = Poly::new(parse_i64_list(sk_string.as_str()));
    if !blocks_fit_check(&sk, &ct, params) {
        return None;
    }
    let text = decrypt_blocks(&sk, &ct, params);
    match base64_bytes(text.as_str()) {
        Some(_) => Some(decrypt_string(sk_string, ciphertext_string, params)),
        None => None,
    }
}

// ---------------------------------------------------------------------
// Round trip
// ---------------------------------------------------------------------
/// ASCII text without NUL characters.
pub open spec fn plain_ascii(text: Seq<char>) -> bool {
    forall|i: int| 0 <= i < text.len() ==> '\0' < #[trigger] text[i] && text[i] <= '\u{7f}'
}

/// The polynomial of an ASCII text holds its character codes, and they
/// turn back into the text.
proof fn lemma_ascii_poly(text: Seq<char>)
    requires
        plain_ascii(text),
    ensures
        text_poly(text).len() == text.len(),
        trim_zeros(text_poly(text)) == text_poly(text),
        text_poly(text).map_values(|c: int| coeff_char(c)) == text,
        forall|i: int| 0 <= i < text.len() ==> 0 < #[trigger] text_poly(text)[i] < 128,
{
    assert(is_ascii_chars(text));
    is_ascii_chars_encode_utf8(text);
    let raw = encode_utf8(text).map_values(|b: u8| b as int);
    assert forall|i: int| 0 <= i < text.len() implies #[trigger] raw[i] == text[i] as int by {
        assert(encode_utf8(text)[i] == text[i] as u8);
    }
    if raw.len() > 0 {
        assert(raw.last() == text[text.len() - 1] as int);
    }
    lemma_trim_trimmed(raw);
    assert(text_poly(text) == raw);
    lemma_trim_idem(raw);
    let back = raw.map_values(|c: int| coeff_char(c));
    assert forall|i: int| 0 <= i < text.len() implies #[trigger] back[i] == text[i] by {
        let v = text[i] as int;
        assert(raw[i] == v);
        assert(0 < v < 128);
        assert(v % 256 == v);
        assert(coeff_char(v) == ((v % 256) as u8) as char);
    }
    assert(back =~= text);
}

/// A block whose parts have at most `n` coefficients of magnitude at most
/// `q^2 / 2`, with a small secret, decrypts within 64 bits.
proof fn lemma_block_fits(p: &Parameters, sp: Seq<int>, b0: Seq<int>, b1: Seq<int>)
    requires
        params_ok(p),
        sp.len() <= p.n,
        bounded(sp, 1),
        b0.len() <= p.n,
        b1.len() <= p.n,
        bounded(b0, (p.q * p.q) / 2),
        bounded(b1, (p.q * p.q) / 2),
    ensures
        decrypt_fits(sp, b0, b1, p),
{
    let n = p.n as int;
    let q = p.q as int;
    let f = p.f@;
    let qq = q * q;
    let h = qq / 2;
    assert(degree_of(f) == n);
    assert(qq >= 4) by (nonlinear_arith)
        requires
            qq == q * q,
            q >= 2,
    ;
    assert(4 * (n * n) * qq <= i64::MAX);
    lemma_max_abs_le(sp, 1);
    lemma_max_abs_le(b0, h);
    lemma_max_abs_le(b1, h);
    lemma_max_abs(sp);
    lemma_max_abs(b0);
    lemma_max_abs(b1);
    let m1 = max_abs(b1);
    let ms = max_abs(sp);
    let l1 = b1.len() as int;
    let ls = sp.len() as int;
    assert(m1 * ms <= h) by (nonlinear_arith)
        requires
            0 <= m1 <= h,
            0 <= ms <= 1,
    ;
    assert(l1 * (m1 * ms) <= n * h) by (nonlinear_arith)
        requires
            0 <= l1 <= n,
            0 <= m1 * ms <= h,
    ;
    assert((l1 + ls) * (l1 * (m1 * ms)) <= (n + n) * (n * h)) by (nonlinear_arith)
        requires
            0 <= l1 + ls <= n + n,
            0 <= l1 * (m1 * ms) <= n * h,
    ;
    assert((n + n) * (n * h) <= 4 * (n * n) * qq) by (nonlinear_arith)
        requires
            0 <= h,
            2 * h <= qq,
            n >= 1,
    ;
    assert(mul_fits(b1, sp));
    let pm = polymul_spec(b1, sp, q, f);
    lemma_polymul_coeffs(b1, sp, q, f);
    assert(crate::poly::trunc_div(q, 2) == q / 2);
    assert(bounded(pm, q / 2)) by {
        assert forall|k: int| 0 <= k < pm.len() implies -(q / 2) <= #[trigger] pm[k] <= q / 2 by {
            assert(in_window(crate::poly::coeff(pm, k), q));
        }
    }
    lemma_max_abs_le(pm, q / 2);
    lemma_max_abs(pm);
    let l = max_len(pm, b0) as int;
    assert(q / 2 <= h) by (nonlinear_arith)
        requires
            h == qq / 2,
            qq == q * q,
            q >= 2,
    ;
    assert(l * (max_abs(pm) + max_abs(b0)) <= n * (h + h)) by (nonlinear_arith)
        requires
            0 <= l <= n,
            0 <= max_abs(pm) <= h,
            0 <= max_abs(b0) <= h,
    ;
    assert(n * (h + h) <= 4 * (n * n) * qq) by (nonlinear_arith)
        requires
            0 <= h,
            2 * h <= qq,
            n >= 1,
    ;
}

/// Decryption undoes encryption, as text: an ASCII text without NUL
/// characters that fits the parameters, encrypted under the public key
/// text of a key pair, decrypts with the key pair's secret key text to the
/// text itself, within 64 bits. This is for keys whose `b` has all `n`
/// coefficients and ciphertexts of all `2n` numbers, as both texts are
/// split after their `n`-th number.
pub proof fn lemma_decrypt_blocks_encrypt_encoded(
    p: &Parameters,
    b: Seq<i64>,
    a: Seq<i64>,
    s: Seq<i64>,
    text: Seq<char>,
    r: Seq<char>,
)
    requires
        params_ok(p),
        key_pair(b, a, s, p),
        b.len() == p.n,
        plain_ascii(text),
        message_fits(text_poly(text), p),
        is_encryption(
            r,
            key_b(key_numbers(join_ints(b + a)), p.n as int),
            key_a(key_numbers(join_ints(b + a)), p.n as int),
            text_poly(text),
            p,
        ),
        key_numbers(r).len() == 2 * p.n,
    ensures
        blocks_fit(secret_poly(join_ints(s)), key_numbers(r), p),
        decrypted_text(secret_poly(join_ints(s)), key_numbers(r), p) == text,
{
    let n = p.n as int;
    let q = p.q as int;
    let t = p.t as int;
    let f = p.f@;
    let qq = q * q;
    let m = text_poly(text);
    lemma_ascii_poly(text);
    // The public key text gives back the key.
    lemma_join_parse_round_trip(b + a);
    lemma_join_parse_round_trip(s);
    let nums = key_numbers(join_ints(b + a));
    assert(nums == b + a);
    assert(nums.take(n) == b);
    assert(nums.skip(n) == a);
    let bi = ints(b);
    let ai = ints(a);
    let si = ints(s);
    let kb = key_b(nums, n);
    let ka = key_a(nums, n);
    assert(kb == trim_zeros(bi));
    assert(ka == trim_zeros(ai));
    let e = choose|e: Seq<int>| small(e, n) && bi == public_b(ai, si, e, q, f);
    let (c0, c1, u, e1, e2) = choose|c0: Seq<i64>, c1: Seq<i64>, u: Seq<int>, e1: Seq<int>, e2: Seq<int>|
        {
            &&& small(u, n)
            &&& small(e1, n)
            &&& small(e2, n)
            &&& (ints(c0), ints(c1)) == ciphertext(kb, ka, m, u, e1, e2, q, t, f)
            &&& r == join_ints(c0 + c1)
        };
    // Trimming the key's parts changes no product.
    lemma_trim_idem(bi);
    lemma_trim_idem(ai);
    assert(polymul_spec(kb, u, qq, f) == polymul_spec(bi, u, qq, f));
    assert(polymul_spec(ka, u, qq, f) == polymul_spec(ai, u, qq, f));
    let c = ciphertext(public_b(ai, si, e, q, f), ai, m, u, e1, e2, q, t, f);
    assert(ints(c0) == c.0 && ints(c1) == c.1);
    lemma_decrypt_encrypt(p, ai, si, e, m, u, e1, e2);
    lemma_ciphertext_shape(p, bi, ai, m, u, e1, e2);
    // The ciphertext text gives back the ciphertext: one block.
    lemma_join_parse_round_trip(c0 + c1);
    let ct = key_numbers(r);
    assert(ct == c0 + c1);
    assert(c0.len() == ints(c0).len() && c1.len() == ints(c1).len());
    assert(c0.len() == n && c1.len() == n);
    assert(block_count(ct, n) == 1) by {
        vstd::arithmetic::div_mod::lemma_div_by_multiple(1, 2 * n);
        assert(1 * (2 * n) == ct.len());
    }
    assert(ct.subrange(0, n) == c0);
    assert(ct.subrange(n, 2 * n) == c1);
    let sp = secret_poly(join_ints(s));
    assert(sp == trim_zeros(si));
    lemma_trim_idem(si);
    lemma_trim_idem(c.0);
    lemma_trim_idem(c.1);
    let b0 = block(ct, n, 0, 0);
    let b1 = block(ct, n, 0, 1);
    assert((2 * 0 + 0) * n == 0 && (2 * 0 + 0 + 1) * n == n) by (nonlinear_arith);
    assert((2 * 0 + 1) * n == n && (2 * 0 + 1 + 1) * n == 2 * n) by (nonlinear_arith);
    assert(ct.subrange((2 * 0 + 0) * n, (2 * 0 + 0 + 1) * n) == c0);
    assert(ct.subrange((2 * 0 + 1) * n, (2 * 0 + 1 + 1) * n) == c1);
    assert(b0 == trim_zeros(c.0));
    assert(b1 == trim_zeros(c.1));
    assert(polymul_spec(b1, sp, q, f) == polymul_spec(c.1, si, q, f));
    assert(decrypt_noisy(sp, b0, b1, p) == decrypt_noisy(si, c.0, c.1, p));
    assert(decrypt_spec(sp, b0, b1, p) == m);
    // The block's characters are the text.
    reveal_with_fuel(decrypted_blocks, 2);
    assert(decrypted_blocks(sp, ct, p, 1) == m.map_values(|c: int| coeff_char(c)));
    if text.len() > 0 {
        assert(text.last() != '\0');
    }
    assert(trim_end_char(text, '\0') == text);
    // Its arithmetic stays within 64 bits.
    assert(bounded(si, 1));
    lemma_trim_bounded(si, 1);
    lemma_trim_prefix(si);
    lemma_trim_bounded(c.0, qq / 2);
    lemma_trim_prefix(c.0);
    lemma_trim_bounded(c.1, qq / 2);
    lemma_trim_prefix(c.1);
    lemma_block_fits(p, sp, b0, b1);
    assert forall|i: int| 0 <= i < block_count(ct, n) implies #[trigger] decrypt_fits(
        sp,
        block(ct, n, i, 0),
        block(ct, n, i, 1),
        p,
    ) by {
        assert(i == 0);
    }
}

/// Decryption undoes encryption, as bytes: bytes encrypted by
/// `encrypt_string` under the public key text of a key pair decrypt with the
/// key pair's secret key text to the bytes themselves. Their base64 text is
/// ASCII and decodes back to them, as `encrypt_string` promises; the rest is
/// as in `lemma_decrypt_blocks_encrypt_encoded`.
pub proof fn lemma_decrypt_string_encrypt_string(
    p: &Parameters,
    b: Seq<i64>,
    a: Seq<i64>,
    s: Seq<i64>,
    message: Seq<u8>,
    r: Seq<char>,
)
    requires
        params_ok(p),
        key_pair(b, a, s, p),
        b.len() == p.n,
        plain_ascii(base64_encoded(message)),
        base64_decoded(base64_encoded(message)) == Some(message),
        message_fits(text_poly(base64_encoded(message)), p),
        is_encryption(
            r,
            key_b(key_numbers(join_ints(b + a)), p.n as int),
            key_a(key_numbers(join_ints(b + a)), p.n as int),
            text_poly(base64_encoded(message)),
            p,
        ),
        key_numbers(r).len() == 2 * p.n,
    ensures
        decrypts(join_ints(s), r, p),
        decrypted_bytes(join_ints(s), r, p) == message,
{
    lemma_decrypt_blocks_encrypt_encoded(p, b, a, s, base64_encoded(message), r);
    let m = text_poly(base64_encoded(message));
    let kb = key_b(key_numbers(join_ints(b + a)), p.n as int);
    let ka = key_a(key_numbers(join_ints(b + a)), p.n as int);
    let (c0, c1, u, e1, e2) = choose|c0: Seq<i64>, c1: Seq<i64>, u: Seq<int>, e1: Seq<int>, e2: Seq<int>|
        {
            &&& small(u, p.n as int)
            &&& small(e1, p.n as int)
            &&& small(e2, p.n as int)
            &&& (ints(c0), ints(c1)) == ciphertext(kb, ka, m, u, e1, e2, p.q as int, p.t as int, p.f@)
            &&& r == join_ints(c0 + c1)
        };
    lemma_join_parse_round_trip(c0 + c1);
    lemma_join_all_i64(c0 + c1);
}

/// The executable round trip: a key pair as `keygen` makes it and a message
/// that fits the parameters, encrypted by `encrypt` under the public key,
/// can be given to `decrypt` with the secret, and it gives the message back
/// (without trailing zeros). The requirements on the keys and the
/// ciphertext are what `keygen` and `encrypt` ensure.
pub proof fn lemma_keygen_encrypt_decrypt(p: &Parameters, public: [Poly; 2], secret: Poly, m: Poly, c0: Poly, c1: Poly)
    requires
        params_ok(p),
        crate::poly::in_range(ints(public[1]@), 0, p.q as int),
        public[1]@.len() <= p.n,
        public[0]@.len() <= p.n,
        small(ints(secret@), p.n as int),
        exists|e: Seq<int>|
            small(e, p.n as int) && ints(public[0]@) == public_b(ints(public[1]@), ints(secret@), e, p.q as int, p.f@),
        exists|u: Seq<int>, e1: Seq<int>, e2: Seq<int>|
            small(u, p.n as int) && small(e1, p.n as int) && small(e2, p.n as int) && (ints(c0@), ints(c1@))
                == ciphertext(ints(public[0]@), ints(public[1]@), ints(m@), u, e1, e2, p.q as int, p.t as int, p.f@),
        message_fits(ints(m@), p),
    ensures
        decrypt_fits(ints(secret@), ints(c0@), ints(c1@), p),
        decrypt_spec(ints(secret@), ints(c0@), ints(c1@), p) == trim_zeros(ints(m@)),
{
    let n = p.n as int;
    let q = p.q as int;
    let bi = ints(public[0]@);
    let ai = ints(public[1]@);
    let si = ints(secret@);
    let mi = ints(m@);
    let e = choose|e: Seq<int>| small(e, n) && bi == public_b(ai, si, e, q, p.f@);
    let (u, e1, e2) = choose|u: Seq<int>, e1: Seq<int>, e2: Seq<int>|
        small(u, n) && small(e1, n) && small(e2, n) && (ints(c0@), ints(c1@)) == ciphertext(bi, ai, mi, u, e1, e2, q, p.t as int, p.f@);
    lemma_decrypt_encrypt(p, ai, si, e, mi, u, e1, e2);
    lemma_ciphertext_shape(p, bi, ai, mi, u, e1, e2);
    assert(bounded(si, 1));
    lemma_block_fits(p, si, ints(c0@), ints(c1@));
}

/// The text round trip over what the functions give: with keys as
/// `keygen_string` makes them and a ciphertext text as `encrypt_string`
/// makes it of `message`, the ciphertext decrypts with the secret key text
/// (so `try_decrypt_string` gives `Some` and `decrypt_string` may be called)
/// to the message. This is for parameters the message's base64 text fits,
/// and for key and ciphertext texts of all `2n` numbers.
pub proof fn lemma_key_strings_round_trip(p: &Parameters, keys: KeyStrings, message: Seq<u8>, ct: Seq<char>)
    requires
        params_ok(p),
        exists|b: Seq<i64>, a: Seq<i64>, s: Seq<i64>|
            key_pair(b, a, s, p) && keys.public@ == join_ints(b + a) && keys.secret@ == join_ints(s),
        key_numbers(keys.public@).len() == 2 * p.n,
        is_encryption(
            ct,
            key_b(key_numbers(keys.public@), p.n as int),
            key_a(key_numbers(keys.public@), p.n as int),
            text_poly(base64_encoded(message)),
            p,
        ),
        plain_ascii(base64_encoded(message)),
        base64_decoded(base64_encoded(message)) == Some(message),
        message_fits(text_poly(base64_encoded(message)), p),
        key_numbers(ct).len() == 2 * p.n,
    ensures
        decrypts(keys.secret@, ct, p),
        decrypted_bytes(keys.secret@, ct, p) == message,
{
    let (b, a, s) = choose|b: Seq<i64>, a: Seq<i64>, s: Seq<i64>|
        key_pair(b, a, s, p) && keys.public@ == join_ints(b + a) && keys.secret@ == join_ints(s);
    lemma_join_parse_round_trip(b + a);
    assert(key_numbers(keys.public@) == b + a);
    assert(b.len() == p.n);
    lemma_decrypt_string_encrypt_string(p, b, a, s, message, ct);
}

/// An ASCII text of at most `n` characters fits parameters where `t`
/// divides `q`, exceeds every character code, and times the noise of an
/// encryption stays below `q / 2`.
pub proof fn lemma_ascii_fits(text: Seq<char>, p: &Parameters)
    requires
        plain_ascii(text),
        text.len() <= p.n,
        p.q % p.t == 0,
        p.t >= 128,
        2 * p.t * (2 * p.n + 1) < p.q,
    ensures
        message_fits(text_poly(text), p),
{
    lemma_ascii_poly(text);
}

/// The same seed gives the same key texts: two results that `keygen_string`
/// may give for seed `x` are equal.
pub proof fn lemma_keygen_string_repeatable(p: &Parameters, x: u64, r1: KeyStrings, r2: KeyStrings)
    requires
        exists|b: Seq<i64>, a: Seq<i64>, s: Seq<i64>|
            {
                &&& r1.public@ == join_ints(b + a)
                &&& r1.secret@ == join_ints(s)
                &&& seeded_key(x, p, ints(b), ints(a), ints(s))
            },
        exists|b: Seq<i64>, a: Seq<i64>, s: Seq<i64>|
            {
                &&& r2.public@ == join_ints(b + a)
                &&& r2.secret@ == join_ints(s)
                &&& seeded_key(x, p, ints(b), ints(a), ints(s))
            },
    ensures
        r1.public@ == r2.public@,
        r1.secret@ == r2.secret@,
{
    let (b1, a1, s1) = choose|b: Seq<i64>, a: Seq<i64>, s: Seq<i64>|
        {
            &&& r1.public@ == join_ints(b + a)
            &&& r1.secret@ == join_ints(s)
            &&& seeded_key(x, p, ints(b), ints(a), ints(s))
        };
    let (b2, a2, s2) = choose|b: Seq<i64>, a: Seq<i64>, s: Seq<i64>|
        {
            &&& r2.public@ == join_ints(b + a)
            &&& r2.secret@ == join_ints(s)
            &&& seeded_key(x, p, ints(b), ints(a), ints(s))
        };
    lemma_ints_injective(s1, s2);
    lemma_ints_injective(a1, a2);
    lemma_ints_injective(b1, b2);
}

} // verus!
