//! Ring-LWE public-key encryption over `Z[x]/(x^n + 1)`: key generation,
//! encryption and decryption of polynomials.
use vstd::prelude::*;
use crate::ring::{
    cf, cong, in_window, lemma_cong_add, lemma_cong_elim, lemma_cong_refl, lemma_cong_square, lemma_cong_trans,
    lemma_polyadd_coeffs, lemma_polyinv_coeffs, lemma_polymul_coeffs, lemma_rp_exchange, lemma_rp_lin,
    lemma_rp_small, lemma_scale_coeffs, rp, rpf,
};
use crate::poly::{
    coeff,
    abs, add_fits, bounded, degree_of, gen_ternary_poly, gen_uniform_poly, in_range, ints,
    is_ring_modulus, lemma_max_abs, lemma_max_abs_le, lemma_mod_coeffs_bound, lemma_trim_bounded,
    lemma_trim_prefix, max_abs, max_len, mod_coeffs, mod_coeffs_spec, modulus_ok, mul_fits, nearest_int,
    polyadd, polyadd_spec, polyinv, polyinv_spec, polymul, polymul_spec, reduce_raw, seeded_draws, trim_zeros,
    trunc_div, Poly, add_raw, mul_raw, reduce_mod, scale_message, scale_message_spec,
};

verus! {

/// The scheme's parameters.
#[derive(Debug)]
pub struct Parameters {
    /// Polynomial modulus degree.
    pub n: usize,
    /// Ciphertext modulus.
    pub q: i64,
    /// Plaintext modulus.
    pub t: i64,
    /// Polynomial modulus, `x^n + 1`.
    pub f: Poly,
}

/// Parameters the scheme works with: `f` is `x^n + 1`, and the moduli are
/// small enough for the arithmetic to stay within 64 bits.
pub open spec fn params_ok(p: &Parameters) -> bool {
    &&& p.n >= 1
    &&& is_ring_modulus(p.f@)
    &&& p.f@.len() == p.n + 1
    &&& p.q >= 2
    &&& p.t >= 1
    &&& 4 * (p.n * p.n) * (p.q * p.q) <= i64::MAX
    &&& p.q * p.t <= i64::MAX
}

impl Default for Parameters {
    /// `n = 512`, `q = 2^20`, `t = 256`, `f = x^512 + 1`.
    fn default() -> (r: Parameters)
        ensures
            r.n == 512,
            r.q == 1048576,
            r.t == 256,
            is_ring_modulus(r.f@),
            degree_of(r.f@) == 512,
            params_ok(&r),
    {
        let n: usize = 512;
        let mut poly_vec: Vec<i64> = Vec::new();
        let mut i: usize = 0;
        while i <= n
            invariant
                n == 512,
                i <= n + 1,
                poly_vec@.len() == i,
                forall|j: int| 0 <= j < i ==> #[trigger] poly_vec@[j] == (if j == 0 || j == 512 { 1i64 } else { 0i64 }),
            decreases n + 1 - i,
        {
            if i == 0 || i == n {
                poly_vec.push(1);
            } else {
                poly_vec.push(0);
            }
            i = i + 1;
        }
        let ghost v = poly_vec@;
        let f = Poly::new(poly_vec);
        proof {
            assert(ints(v) =~= crate::poly::ring_modulus(512));
            crate::poly::lemma_trim_trimmed(ints(v));
            assert(ints(f@) == crate::poly::ring_modulus(512));
            assert(ints(f@).len() == f@.len());
            assert(4 * (512 * 512) * (1048576 * 1048576) <= i64::MAX) by (nonlinear_arith);
        }
        Parameters { n, q: 1048576, t: 256, f }
    }
}

// ---------------------------------------------------------------------
// Bounds that the operations keep
// ---------------------------------------------------------------------
proof fn lemma_reduce_len(x: Seq<int>, d: nat)
    ensures
        x.len() <= d ==> reduce_raw(x, d) == x,
        reduce_raw(x, d).len() <= d,
{
    if x.len() > d {
        lemma_trim_prefix(Seq::new(d, |k: int| crate::poly::fold_at(x, d, k)));
    }
}

proof fn lemma_reduce_mod_bound(r: Seq<int>, m: int)
    requires
        m > 0,
    ensures
        bounded(reduce_mod(r, m), m / 2),
        reduce_mod(r, m).len() <= r.len(),
{
    lemma_mod_coeffs_bound(r, m);
}

/// What a ring operation with a positive modulus gives: coefficients within
/// half the modulus, and at most `n` of them.
proof fn lemma_polymul_result(x: Seq<int>, y: Seq<int>, m: int, f: Seq<i64>)
    requires
        m > 0,
        is_ring_modulus(f),
    ensures
        bounded(polymul_spec(x, y, m, f), m / 2),
        polymul_spec(x, y, m, f).len() <= degree_of(f),
{
    let p = trim_zeros(mul_raw(trim_zeros(x), trim_zeros(y)));
    let r = reduce_raw(p, degree_of(f));
    lemma_reduce_len(p, degree_of(f));
    lemma_reduce_mod_bound(r, m);
}

proof fn lemma_polyadd_result(x: Seq<int>, y: Seq<int>, m: int, f: Seq<i64>)
    requires
        m > 0,
        is_ring_modulus(f),
        x.len() <= degree_of(f),
        y.len() <= degree_of(f),
    ensures
        bounded(polyadd_spec(x, y, m, f), m / 2),
        polyadd_spec(x, y, m, f).len() <= degree_of(f),
{
    let a = trim_zeros(add_raw(trim_zeros(x), trim_zeros(y)));
    lemma_trim_prefix(x);
    lemma_trim_prefix(y);
    lemma_trim_prefix(add_raw(trim_zeros(x), trim_zeros(y)));
    let r = reduce_raw(a, degree_of(f));
    lemma_reduce_len(a, degree_of(f));
    lemma_reduce_mod_bound(r, m);
}

proof fn lemma_polyadd_result_any(x: Seq<int>, y: Seq<int>, m: int, f: Seq<i64>)
    requires
        m > 0,
        is_ring_modulus(f),
    ensures
        bounded(polyadd_spec(x, y, m, f), m / 2),
{
    let a = trim_zeros(add_raw(trim_zeros(x), trim_zeros(y)));
    let r = reduce_raw(a, degree_of(f));
    lemma_reduce_mod_bound(r, m);
}

proof fn lemma_polyinv_result(x: Seq<int>, m: int)
    requires
        m > 0,
    ensures
        bounded(polyinv_spec(x, m), m / 2),
        polyinv_spec(x, m).len() <= x.len(),
{
    lemma_trim_prefix(x);
    lemma_reduce_mod_bound(trim_zeros(x).map_values(|c: int| -c), m);
}

proof fn lemma_mul_fits(x: Seq<int>, y: Seq<int>, lx: int, ly: int, bx: int, by: int)
    requires
        x.len() <= lx,
        y.len() <= ly,
        bounded(x, bx),
        bounded(y, by),
        bx >= 0,
        by >= 0,
        (lx + ly) * (lx * (bx * by)) <= i64::MAX,
    ensures
        mul_fits(x, y),
{
    lemma_max_abs_le(x, bx);
    lemma_max_abs_le(y, by);
    lemma_max_abs(x);
    lemma_max_abs(y);
    assert((x.len() + y.len()) * (x.len() * (max_abs(x) * max_abs(y))) <= (lx + ly) * (lx * (bx * by))) by (nonlinear_arith)
        requires
            0 <= x.len() <= lx,
            0 <= y.len() <= ly,
            0 <= max_abs(x) <= bx,
            0 <= max_abs(y) <= by,
    ;
}

proof fn lemma_add_fits(x: Seq<int>, y: Seq<int>, l: int, bx: int, by: int)
    requires
        x.len() <= l,
        y.len() <= l,
        bounded(x, bx),
        bounded(y, by),
        bx >= 0,
        by >= 0,
        l * (bx + by) <= i64::MAX,
    ensures
        add_fits(x, y),
{
    lemma_max_abs_le(x, bx);
    lemma_max_abs_le(y, by);
    lemma_max_abs(x);
    lemma_max_abs(y);
    assert(max_len(x, y) * (max_abs(x) + max_abs(y)) <= l * (bx + by)) by (nonlinear_arith)
        requires
            0 <= max_len(x, y) <= l,
            0 <= max_abs(x) <= bx,
            0 <= max_abs(y) <= by,
    ;
}

proof fn lemma_ternary_bounded(s: Seq<int>)
    requires
        in_range(s, -1, 2),
    ensures
        bounded(s, 1),
{
}

proof fn lemma_range_bounded(s: Seq<int>, q: int)
    requires
        in_range(s, 0, q),
        q > 0,
    ensures
        bounded(s, q),
{
}

// ---------------------------------------------------------------------
// Key generation
// ---------------------------------------------------------------------
/// The public key's first part, `b = -a*s - e` in the ring with
/// coefficients modulo `q^2`.
pub open spec fn public_b(a: Seq<int>, s: Seq<int>, e: Seq<int>, q: int, f: Seq<i64>) -> Seq<int> {
    let qq = q * q;
    polyadd_spec(polymul_spec(polyinv_spec(a, qq), s, qq, f), polyinv_spec(e, qq), qq, f)
}

/// A small polynomial: at most `n` coefficients, each -1, 0 or 1.
pub open spec fn small(s: Seq<int>, n: int) -> bool {
    s.len() <= n && in_range(s, -1, 2)
}

/// The polynomial of `n` seeded draws in `[low, high)`, trailing zeros
/// dropped.
pub open spec fn seeded_poly(seed: u64, n: nat, low: int, high: int) -> Seq<int> {
    trim_zeros(seeded_draws(seed, n, low, high))
}

/// A key pair: the public key `[b, a]` with `a` uniform modulo `q` and
/// `b = -a*s - e` for a small secret `s` and a small error `e`; and `s`.
pub fn keygen(params: &Parameters, seed: Option<u64>) -> (r: ([Poly; 2], Poly))
    requires
        params_ok(params),
    ensures
        in_range(ints(r.0[1]@), 0, params.q as int),
        r.0[1]@.len() <= params.n,
        r.0[0]@.len() <= params.n,
        small(ints(r.1@), params.n as int),
        exists|e: Seq<int>|
            small(e, params.n as int) && ints(r.0[0]@) == public_b(ints(r.0[1]@), ints(r.1@), e, params.q as int, params.f@),
        seed matches Some(x) ==> {
            &&& ints(r.1@) == seeded_poly(x, params.n as nat, -1, 2)
            &&& ints(r.0[1]@) == seeded_poly(x, params.n as nat, 0, params.q as int)
            &&& ints(r.0[0]@) == public_b(ints(r.0[1]@), ints(r.1@), ints(r.1@), params.q as int, params.f@)
        },
{
    let n = params.n;
    let q = params.q;
    let f = &params.f;
    let ghost d = degree_of(f@);
    assert(q * q <= 4 * (n * n) * (q * q)) by (nonlinear_arith)
        requires
            n >= 1,
    ;
    let qq: i64 = q * q;
    assert(qq >= 4) by (nonlinear_arith)
        requires
            qq == q * q,
            q >= 2,
    ;
    let secret = gen_ternary_poly(n, seed);
    let a = gen_uniform_poly(n, q, seed);
    let error = gen_ternary_poly(n, seed);
    let ghost ai = ints(a@);
    let ghost si = ints(secret@);
    let ghost ei = ints(error@);
    proof {
        lemma_range_bounded(ai, q as int);
        lemma_ternary_bounded(si);
        lemma_ternary_bounded(ei);
        assert forall|i: int| 0 <= i < a@.len() implies #[trigger] a@[i] != i64::MIN by {
            assert(ai[i] == a@[i] as int);
        }
        assert forall|i: int| 0 <= i < error@.len() implies #[trigger] error@[i] != i64::MIN by {
            assert(ei[i] == error@[i] as int);
        }
    }
    let ia = polyinv(&a, qq);
    proof {
        lemma_polyinv_result(ai, qq as int);
        assert(qq / 2 <= qq) by (nonlinear_arith)
            requires
                qq >= 0,
        ;
        assert((n + n) * (n * ((qq / 2) * 1)) <= i64::MAX) by (nonlinear_arith)
            requires
                4 * (n * n) * qq <= i64::MAX,
                qq >= 0,
                n >= 1,
        ;
        lemma_mul_fits(ints(ia@), si, n as int, n as int, qq / 2, 1);
    }
    let pm = polymul(&ia, &secret, qq, f);
    let ie = polyinv(&error, qq);
    proof {
        lemma_polymul_result(ints(ia@), si, qq as int, f@);
        lemma_polyinv_result(ei, qq as int);
        assert(n * ((qq / 2) + (qq / 2)) <= i64::MAX) by (nonlinear_arith)
            requires
                4 * (n * n) * qq <= i64::MAX,
                qq >= 0,
                n >= 1,
        ;
        lemma_add_fits(ints(pm@), ints(ie@), n as int, qq / 2, qq / 2);
    }
    let b = polyadd(&pm, &ie, qq, f);
    proof {
        assert(small(ei, n as int) && ints(b@) == public_b(ai, si, ei, q as int, f@));
        assert(degree_of(f@) == n);
        lemma_key_coeffs(ai, si, ei, q as int, f@);
        assert(ints(b@).len() == b@.len());
    }
    let r = ([b, a], secret);
    assert(ints(r.0[0]@) == public_b(ints(r.0[1]@), ints(r.1@), ei, q as int, f@));
    r
}

// ---------------------------------------------------------------------
// Encryption
// ---------------------------------------------------------------------
/// The ciphertext of message `m` under public key `[b, a]` with small
/// polynomials `u`, `e1`, `e2`: `(b*u + e1 + m*q/t, a*u + e2)`, with
/// coefficients modulo `q^2`.
pub open spec fn ciphertext(
    b: Seq<int>,
    a: Seq<int>,
    m: Seq<int>,
    u: Seq<int>,
    e1: Seq<int>,
    e2: Seq<int>,
    q: int,
    t: int,
    f: Seq<i64>,
) -> (Seq<int>, Seq<int>) {
    let qq = q * q;
    (
        polyadd_spec(polyadd_spec(polymul_spec(b, u, qq, f), e1, qq, f), scale_message_spec(m, q, t), qq, f),
        polyadd_spec(polymul_spec(a, u, qq, f), e2, qq, f),
    )
}

/// The arithmetic of an encryption stays within 64 bits: the public key's
/// parts times small polynomials, and the message scaled by `q`.
pub open spec fn encrypt_fits(b: Seq<int>, a: Seq<int>, m: Seq<int>, p: &Parameters) -> bool {
    &&& (b.len() + p.n) * (b.len() * max_abs(b)) <= i64::MAX
    &&& (a.len() + p.n) * (a.len() * max_abs(a)) <= i64::MAX
    &&& max_abs(m) * p.q <= i64::MAX
    &&& (m.len() + p.n) * (p.q * p.q) <= i64::MAX
}

/// Encrypts message polynomial `m` under `public = [b, a]`.
pub fn encrypt(public: &[Poly; 2], m: &Poly, params: &Parameters, seed: Option<u64>) -> (r: (Poly, Poly))
    requires
        params_ok(params),
        encrypt_fits(ints(public[0]@), ints(public[1]@), ints(m@), params),
    ensures
        exists|u: Seq<int>, e1: Seq<int>, e2: Seq<int>|
            small(u, params.n as int) && small(e1, params.n as int) && small(e2, params.n as int) && (ints(r.0@), ints(r.1@))
                == ciphertext(
                ints(public[0]@),
                ints(public[1]@),
                ints(m@),
                u,
                e1,
                e2,
                params.q as int,
                params.t as int,
                params.f@,
            ),
        seed matches Some(x) ==> (ints(r.0@), ints(r.1@)) == ciphertext(
            ints(public[0]@),
            ints(public[1]@),
            ints(m@),
            seeded_poly(x, params.n as nat, -1, 2),
            seeded_poly(x, params.n as nat, -1, 2),
            seeded_poly(x, params.n as nat, -1, 2),
            params.q as int,
            params.t as int,
            params.f@,
        ),
{
    let n = params.n;
    let q = params.q;
    let t = params.t;
    let f = &params.f;
    assert(q * q <= 4 * (n * n) * (q * q)) by (nonlinear_arith)
        requires
            n >= 1,
    ;
    let qq: i64 = q * q;
    assert(qq >= 4) by (nonlinear_arith)
        requires
            qq == q * q,
            q >= 2,
    ;
    let ghost mi = ints(m@);
    proof {
        lemma_max_abs(mi);
        assert forall|i: int| 0 <= i < m@.len() implies i64::MIN <= #[trigger] m@[i] * q <= i64::MAX by {
            assert(mi[i] == m@[i] as int);
            assert(abs(mi[i]) <= max_abs(mi));
            assert(-(max_abs(mi) * q) <= m@[i] * q <= max_abs(mi) * q) by (nonlinear_arith)
                requires
                    -max_abs(mi) <= m@[i] <= max_abs(mi),
                    q >= 0,
            ;
        }
    }
    let scaled_m = scale_message(m, q, t);
    let e1 = gen_ternary_poly(n, seed);
    let e2 = gen_ternary_poly(n, seed);
    let u = gen_ternary_poly(n, seed);
    let ghost ui = ints(u@);
    let ghost bi = ints(public[0]@);
    let ghost ai = ints(public[1]@);
    proof {
        lemma_ternary_bounded(ui);
        lemma_ternary_bounded(ints(e1@));
        lemma_ternary_bounded(ints(e2@));
        lemma_max_abs(bi);
        lemma_max_abs(ai);
        lemma_mul_fits(bi, ui, bi.len() as int, n as int, max_abs(bi), 1);
        lemma_mul_fits(ai, ui, ai.len() as int, n as int, max_abs(ai), 1);
    }
    let bu = polymul(&public[0], &u, qq, f);
    proof {
        lemma_polymul_result(bi, ui, qq as int, f@);
        assert(n * ((qq / 2) + 1) <= i64::MAX) by (nonlinear_arith)
            requires
                4 * (n * n) * qq <= i64::MAX,
                qq >= 4,
                n >= 1,
        ;
        lemma_add_fits(ints(bu@), ints(e1@), n as int, qq / 2, 1);
    }
    let c0a = polyadd(&bu, &e1, qq, f);
    proof {
        lemma_polyadd_result_any(ints(bu@), ints(e1@), qq as int, f@);
        crate::poly::lemma_scale_message_bound(mi, q as int, t as int);
        let sm = ints(scaled_m@);
        let l = if mi.len() >= n { mi.len() as int } else { n as int };
        assert(ints(c0a@).len() <= n) by {
            lemma_polyadd_result(ints(bu@), ints(e1@), qq as int, f@);
        }
        assert(l * ((qq / 2) + (q / 2)) <= i64::MAX) by (nonlinear_arith)
            requires
                (mi.len() + n) * qq <= i64::MAX,
                l <= mi.len() + n,
                qq == q * q,
                q >= 2,
                qq >= 0,
                l >= 0,
        ;
        lemma_add_fits(ints(c0a@), sm, l, qq / 2, q / 2);
    }
    let ct0 = polyadd(&c0a, &scaled_m, qq, f);
    let au = polymul(&public[1], &u, qq, f);
    proof {
        lemma_polymul_result(ai, ui, qq as int, f@);
        lemma_add_fits(ints(au@), ints(e2@), n as int, qq / 2, 1);
    }
    let ct1 = polyadd(&au, &e2, qq, f);
    proof {
        let ghost e1i = ints(e1@);
        let ghost e2i = ints(e2@);
        assert(small(ui, n as int) && small(e1i, n as int) && small(e2i, n as int) && (ints(ct0@), ints(ct1@))
            == ciphertext(bi, ai, mi, ui, e1i, e2i, q as int, t as int, f@));
    }
    (ct0, ct1)
}

// ---------------------------------------------------------------------
// Decryption
// ---------------------------------------------------------------------
/// `c1*s + c0` with coefficients modulo `q`.
pub open spec fn decrypt_noisy(s: Seq<int>, c0: Seq<int>, c1: Seq<int>, p: &Parameters) -> Seq<int> {
    polyadd_spec(polymul_spec(c1, s, p.q as int, p.f@), c0, p.q as int, p.f@)
}

/// A noisy coefficient scaled by `t / q` and rounded to the nearest
/// integer (halves up), modulo `t`.
pub open spec fn decode(c: int, p: &Parameters) -> int {
    ((c * p.t + (p.q as int) / 2) / (p.q as int)) % (p.t as int)
}

/// Each noisy coefficient decoded.
pub open spec fn decrypt_spec(s: Seq<int>, c0: Seq<int>, c1: Seq<int>, p: &Parameters) -> Seq<int> {
    trim_zeros(decrypt_noisy(s, c0, c1, p).map_values(|c: int| decode(c, p)))
}

/// Decryption's arithmetic stays within 64 bits.
pub open spec fn decrypt_fits(s: Seq<int>, c0: Seq<int>, c1: Seq<int>, p: &Parameters) -> bool {
    &&& mul_fits(c1, s)
    &&& add_fits(polymul_spec(c1, s, p.q as int, p.f@), c0)
}

/// Decrypts `cipher = [c0, c1]` with secret `s`.
pub fn decrypt(secret: &Poly, cipher: &[Poly; 2], params: &Parameters) -> (r: Poly)
    requires
        params_ok(params),
        decrypt_fits(ints(secret@), ints(cipher[0]@), ints(cipher[1]@), params),
    ensures
        ints(r@) == decrypt_spec(ints(secret@), ints(cipher[0]@), ints(cipher[1]@), params),
{
    let q = params.q;
    let t = params.t;
    let f = &params.f;
    let m = polymul(&cipher[1], secret, q, f);
    let scaled_pt = polyadd(&m, &cipher[0], q, f);
    let ghost sp = ints(scaled_pt@);
    proof {
        lemma_polyadd_result_any(ints(m@), ints(cipher[0]@), q as int, f@);
    }
    let coeffs = scaled_pt.coeffs();
    let mut decrypted: Vec<i64> = Vec::new();
    let mut i: usize = 0;
    while i < coeffs.len()
        invariant
            coeffs@ == scaled_pt@,
            sp == ints(scaled_pt@),
            bounded(sp, q / 2),
            params_ok(params),
            q == params.q,
            t == params.t,
            i <= coeffs@.len(),
            ints(decrypted@) == sp.take(i as int).map_values(|c: int| decode(c, params)),
        decreases coeffs@.len() - i,
    {
        let c = coeffs[i];
        assert(sp[i as int] == c as int);
        assert(-(q * t) <= c * t <= q * t) by (nonlinear_arith)
            requires
                -(q / 2) <= c <= q / 2,
                t >= 1,
                q >= 2,
        ;
        let ct: i64 = c * t;
        assert(ct + q / 2 <= i64::MAX) by (nonlinear_arith)
            requires
                ct <= q * t / 2 + q * t / 2 || ct <= q * t,
                q * t <= i64::MAX,
                ct == c * t,
                -(q / 2) <= c <= q / 2,
                t >= 1,
                q >= 2,
        ;
        let s = nearest_int(ct, q);
        let v = s.checked_rem_euclid(t);
        let w: i64 = match v {
            Some(x) => x,
            None => 0,
        };
        assert(w as int == decode(c as int, params));
        let ghost before = decrypted@;
        decrypted.push(w);
        proof {
            assert(sp.take(i + 1) == sp.take(i as int).push(c as int));
            assert(ints(decrypted@) == ints(before).push(w as int));
        }
        i = i + 1;
    }
    assert(sp.take(coeffs@.len() as int) == sp);
    Poly::new(decrypted)
}

// ---------------------------------------------------------------------
// Correctness
// ---------------------------------------------------------------------
/// A message the parameters can carry: at most `n` coefficients, each in
/// `[0, t)`; `t` divides `q`, and `t` times the largest noise of an
/// encryption stays below `q / 2`.
pub open spec fn message_fits(m: Seq<int>, p: &Parameters) -> bool {
    &&& p.q % p.t == 0
    &&& m.len() <= p.n
    &&& 2 * p.t * (2 * p.n + 1) < p.q
    &&& forall|i: int| 0 <= i < m.len() ==> 0 <= #[trigger] m[i] < p.t
}

/// Decoding `v = delta * mi + e` gives back `mi` when `delta * t == q`
/// and `2 * t * |e| < q`.
proof fn lemma_decode(v: int, mi: int, e: int, p: &Parameters, delta: int)
    requires
        p.q > 0,
        p.t > 0,
        delta * p.t == p.q,
        0 <= mi < p.t,
        v == delta * mi + e,
        -p.q < 2 * p.t * e < p.q,
    ensures
        decode(v, p) == mi,
{
    let q = p.q as int;
    let t = p.t as int;
    let h = q / 2;
    let et = e * t;
    assert(2 * t * e == 2 * et) by (nonlinear_arith)
        requires
            et == e * t,
    ;
    let r = et + h;
    assert(0 <= r < q);
    assert(v * t + h == mi * q + r) by (nonlinear_arith)
        requires
            v == delta * mi + e,
            delta * t == q,
            r == et + h,
            et == e * t,
    ;
    assert(mi * q == q * mi) by (nonlinear_arith);
    vstd::arithmetic::div_mod::lemma_fundamental_div_mod_converse(v * t + h, q, mi, r);
    vstd::arithmetic::div_mod::lemma_small_mod(mi as nat, t as nat);
}

/// Values congruent modulo `q` decode alike.
proof fn lemma_decode_cong(x: int, y: int, p: &Parameters)
    requires
        p.q > 0,
        p.t > 0,
        cong(x, y, p.q as int),
    ensures
        decode(x, p) == decode(y, p),
{
    let q = p.q as int;
    let t = p.t as int;
    let h = q / 2;
    lemma_cong_elim(x, y, q);
    let k = (x - y) / q;
    let a = y * t + h;
    assert(x * t + h == a + (k * t) * q) by (nonlinear_arith)
        requires
            x - y == k * q,
            a == y * t + h,
    ;
    vstd::arithmetic::div_mod::lemma_fundamental_div_mod(a, q);
    assert(a + (k * t) * q == q * (a / q + k * t) + a % q) by (nonlinear_arith)
        requires
            a == q * (a / q) + a % q,
    ;
    vstd::arithmetic::div_mod::lemma_fundamental_div_mod_converse(a + (k * t) * q, q, a / q + k * t, a % q);
    let z = a / q;
    vstd::arithmetic::div_mod::lemma_fundamental_div_mod(z, t);
    assert(z + k * t == t * (z / t + k) + z % t) by (nonlinear_arith)
        requires
            z == t * (z / t) + z % t,
    ;
    vstd::arithmetic::div_mod::lemma_fundamental_div_mod_converse(z + k * t, t, z / t + k, z % t);
}

/// Sequences with the same coefficients have the same trimmed form.
proof fn lemma_trim_same_coeffs(x: Seq<int>, y: Seq<int>)
    requires
        forall|i: int| #[trigger] coeff(x, i) == coeff(y, i),
    ensures
        trim_zeros(x) == trim_zeros(y),
    decreases x.len() + y.len(),
{
    if x.len() > 0 && x.last() == 0 {
        assert forall|i: int| #[trigger] coeff(x.drop_last(), i) == coeff(y, i) by {
            assert(coeff(x, i) == coeff(y, i));
        }
        lemma_trim_same_coeffs(x.drop_last(), y);
    } else if y.len() > 0 && y.last() == 0 {
        assert forall|i: int| #[trigger] coeff(x, i) == coeff(y.drop_last(), i) by {
            assert(coeff(x, i) == coeff(y, i));
        }
        lemma_trim_same_coeffs(x, y.drop_last());
    } else {
        if x.len() > y.len() {
            assert(coeff(x, x.len() - 1) == coeff(y, x.len() - 1));
        } else if y.len() > x.len() {
            assert(coeff(x, y.len() - 1) == coeff(y, y.len() - 1));
        } else {
            assert forall|i: int| 0 <= i < x.len() implies x[i] == y[i] by {
                assert(coeff(x, i) == coeff(y, i));
            }
            assert(x == y);
        }
    }
}

/// Small polynomials have coefficients -1, 0 or 1 everywhere.
proof fn lemma_small_cf(x: Seq<int>, n: int)
    requires
        small(x, n),
    ensures
        forall|i: int| 0 <= i < n ==> -1 <= #[trigger] cf(x)(i) <= 1,
{
    assert forall|i: int| 0 <= i < n implies -1 <= #[trigger] cf(x)(i) <= 1 by {
        if 0 <= i < x.len() {
            assert(-1 <= x[i] < 2);
        }
    }
}

/// The public key's coefficients: `b = -a*s - e` modulo `q^2`.
proof fn lemma_key_coeffs(a: Seq<int>, s: Seq<int>, e: Seq<int>, q: int, f: Seq<i64>)
    requires
        degree_of(f) >= 1,
        a.len() <= degree_of(f),
        s.len() <= degree_of(f),
        e.len() <= degree_of(f),
        q * q > 0,
    ensures
        public_b(a, s, e, q, f).len() <= degree_of(f),
        forall|i: int|
            0 <= i < degree_of(f) ==> cong(
                #[trigger] coeff(public_b(a, s, e, q, f), i),
                -rp(cf(a), cf(s), degree_of(f) as int, i) - coeff(e, i),
                q * q,
            ),
{
    let n = degree_of(f) as int;
    let qq = q * q;
    let ia = polyinv_spec(a, qq);
    lemma_polyinv_coeffs(a, qq);
    lemma_polymul_coeffs(ia, s, qq, f);
    let pm = polymul_spec(ia, s, qq, f);
    let ie = polyinv_spec(e, qq);
    lemma_polyinv_coeffs(e, qq);
    lemma_polyadd_coeffs(pm, ie, qq, f);
    let b = public_b(a, s, e, q, f);
    assert(b == polyadd_spec(pm, ie, qq, f));
    assert forall|j: int| 0 <= j < n implies cong(#[trigger] cf(ia)(j), -1 * cf(a)(j) + 0 * cf(a)(j), qq) by {
        assert(cong(coeff(ia, j), -coeff(a, j), qq));
    }
    assert forall|i: int| 0 <= i < n implies cong(
        #[trigger] coeff(b, i),
        -rp(cf(a), cf(s), n, i) - coeff(e, i),
        qq,
    ) by {
        let r = rp(cf(a), cf(s), n, i);
        lemma_rp_lin(cf(ia), cf(a), cf(a), cf(s), n, i, qq, -1, 0);
        assert(cong(coeff(pm, i), rp(cf(ia), cf(s), n, i), qq));
        lemma_cong_trans(coeff(pm, i), rp(cf(ia), cf(s), n, i), -r, qq);
        assert(cong(coeff(ie, i), -coeff(e, i), qq));
        lemma_cong_add(coeff(pm, i), -r, coeff(ie, i), -coeff(e, i), qq);
        assert(cong(coeff(b, i), coeff(pm, i) + coeff(ie, i), qq));
        lemma_cong_trans(coeff(b, i), coeff(pm, i) + coeff(ie, i), -r - coeff(e, i), qq);
    }
}

/// The second part of a ciphertext: `a*u + e2` modulo `q^2`.
proof fn lemma_c1_coeffs(a: Seq<int>, u: Seq<int>, e2: Seq<int>, qq: int, f: Seq<i64>)
    requires
        degree_of(f) >= 1,
        a.len() <= degree_of(f),
        u.len() <= degree_of(f),
        e2.len() <= degree_of(f),
        qq > 0,
    ensures
        polyadd_spec(polymul_spec(a, u, qq, f), e2, qq, f).len() <= degree_of(f),
        forall|i: int|
            0 <= i < degree_of(f) ==> cong(
                #[trigger] coeff(polyadd_spec(polymul_spec(a, u, qq, f), e2, qq, f), i),
                rp(cf(a), cf(u), degree_of(f) as int, i) + coeff(e2, i),
                qq,
            ),
{
    let n = degree_of(f) as int;
    let au = polymul_spec(a, u, qq, f);
    lemma_polymul_coeffs(a, u, qq, f);
    lemma_polyadd_coeffs(au, e2, qq, f);
    let c1 = polyadd_spec(au, e2, qq, f);
    assert forall|i: int| 0 <= i < n implies cong(
        #[trigger] coeff(c1, i),
        rp(cf(a), cf(u), n, i) + coeff(e2, i),
        qq,
    ) by {
        assert(cong(coeff(au, i), rp(cf(a), cf(u), n, i), qq));
        lemma_cong_refl(coeff(e2, i), qq);
        lemma_cong_add(coeff(au, i), rp(cf(a), cf(u), n, i), coeff(e2, i), coeff(e2, i), qq);
        lemma_cong_trans(coeff(c1, i), coeff(au, i) + coeff(e2, i), rp(cf(a), cf(u), n, i) + coeff(e2, i), qq);
    }
}

/// The first part of a ciphertext: `b*u + e1 + m*q/t` modulo `q^2`.
proof fn lemma_c0_coeffs(b: Seq<int>, m: Seq<int>, u: Seq<int>, e1: Seq<int>, q: int, t: int, f: Seq<i64>)
    requires
        degree_of(f) >= 1,
        b.len() <= degree_of(f),
        m.len() <= degree_of(f),
        u.len() <= degree_of(f),
        e1.len() <= degree_of(f),
        q > 0,
        t > 0,
        q * q > 0,
    ensures
        ({
            let qq = q * q;
            let c0 = polyadd_spec(polyadd_spec(polymul_spec(b, u, qq, f), e1, qq, f), scale_message_spec(m, q, t), qq, f);
            &&& c0.len() <= degree_of(f)
            &&& forall|i: int|
                0 <= i < degree_of(f) ==> cong(
                    #[trigger] coeff(c0, i),
                    rp(cf(b), cf(u), degree_of(f) as int, i) + coeff(e1, i) + coeff(scale_message_spec(m, q, t), i),
                    qq,
                )
        }),
{
    let n = degree_of(f) as int;
    let qq = q * q;
    let bu = polymul_spec(b, u, qq, f);
    lemma_polymul_coeffs(b, u, qq, f);
    let x = polyadd_spec(bu, e1, qq, f);
    lemma_polyadd_coeffs(bu, e1, qq, f);
    let sm = scale_message_spec(m, q, t);
    lemma_scale_coeffs(m, q, t);
    lemma_polyadd_coeffs(x, sm, qq, f);
    let c0 = polyadd_spec(x, sm, qq, f);
    assert forall|i: int| 0 <= i < n implies cong(
        #[trigger] coeff(c0, i),
        rp(cf(b), cf(u), n, i) + coeff(e1, i) + coeff(sm, i),
        qq,
    ) by {
        let r = rp(cf(b), cf(u), n, i);
        assert(cong(coeff(bu, i), r, qq));
        lemma_cong_refl(coeff(e1, i), qq);
        lemma_cong_add(coeff(bu, i), r, coeff(e1, i), coeff(e1, i), qq);
        lemma_cong_trans(coeff(x, i), coeff(bu, i) + coeff(e1, i), r + coeff(e1, i), qq);
        lemma_cong_refl(coeff(sm, i), qq);
        lemma_cong_add(coeff(x, i), r + coeff(e1, i), coeff(sm, i), coeff(sm, i), qq);
        lemma_cong_trans(coeff(c0, i), coeff(x, i) + coeff(sm, i), r + coeff(e1, i) + coeff(sm, i), qq);
    }
}

/// The parts of a ciphertext have at most `n` coefficients, each of
/// magnitude at most `q^2 / 2`.
pub(crate) proof fn lemma_ciphertext_shape(
    p: &Parameters,
    b: Seq<int>,
    a: Seq<int>,
    m: Seq<int>,
    u: Seq<int>,
    e1: Seq<int>,
    e2: Seq<int>,
)
    requires
        params_ok(p),
        b.len() <= p.n,
        a.len() <= p.n,
        m.len() <= p.n,
        u.len() <= p.n,
        e1.len() <= p.n,
        e2.len() <= p.n,
    ensures
        ({
            let c = ciphertext(b, a, m, u, e1, e2, p.q as int, p.t as int, p.f@);
            let qq = p.q * p.q;
            &&& c.0.len() <= p.n
            &&& c.1.len() <= p.n
            &&& bounded(c.0, qq / 2)
            &&& bounded(c.1, qq / 2)
        }),
{
    let q = p.q as int;
    let t = p.t as int;
    let f = p.f@;
    let qq = q * q;
    assert(degree_of(f) == p.n);
    assert(qq > 0) by (nonlinear_arith)
        requires
            qq == q * q,
            q >= 2,
    ;
    let c = ciphertext(b, a, m, u, e1, e2, q, t, f);
    let bu = polymul_spec(b, u, qq, f);
    lemma_polymul_coeffs(b, u, qq, f);
    let x = polyadd_spec(bu, e1, qq, f);
    lemma_polyadd_coeffs(bu, e1, qq, f);
    let sm = scale_message_spec(m, q, t);
    lemma_scale_coeffs(m, q, t);
    lemma_polyadd_coeffs(x, sm, qq, f);
    let au = polymul_spec(a, u, qq, f);
    lemma_polymul_coeffs(a, u, qq, f);
    lemma_polyadd_coeffs(au, e2, qq, f);
    assert(trunc_div(qq, 2) == qq / 2);
    assert forall|k: int| 0 <= k < c.0.len() implies -(qq / 2) <= #[trigger] c.0[k] <= qq / 2 by {
        assert(in_window(coeff(c.0, k), qq));
    }
    assert forall|k: int| 0 <= k < c.1.len() implies -(qq / 2) <= #[trigger] c.1[k] <= qq / 2 by {
        assert(in_window(coeff(c.1, k), qq));
    }
}

/// Modulo `q`, the first part of a ciphertext is
/// `-(a*s)*u - e*u + e1 + (q/t)*m`.
proof fn lemma_c0_mod_q(
    p: &Parameters,
    a: Seq<int>,
    s: Seq<int>,
    e: Seq<int>,
    m: Seq<int>,
    u: Seq<int>,
    e1: Seq<int>,
    e2: Seq<int>,
    i: int,
)
    requires
        params_ok(p),
        a.len() <= p.n,
        small(s, p.n as int),
        small(e, p.n as int),
        small(u, p.n as int),
        small(e1, p.n as int),
        message_fits(m, p),
        0 <= i < p.n,
    ensures
        ({
            let n = p.n as int;
            let q = p.q as int;
            let c0 = ciphertext(public_b(a, s, e, q, p.f@), a, m, u, e1, e2, q, p.t as int, p.f@).0;
            &&& c0.len() <= n
            &&& cong(
                coeff(c0, i),
                -rp(rpf(cf(a), cf(s), n), cf(u), n, i) - rp(cf(e), cf(u), n, i) + coeff(e1, i) + (q / (p.t as int))
                    * coeff(m, i),
                q,
            )
        }),
{
    let n = p.n as int;
    let q = p.q as int;
    let t = p.t as int;
    let f = p.f@;
    let qq = q * q;
    assert(degree_of(f) == n);
    assert(qq > 0) by (nonlinear_arith)
        requires
            qq == q * q,
            q >= 2,
    ;
    let delta = q / t;
    vstd::arithmetic::div_mod::lemma_fundamental_div_mod(q, t);
    assert(delta * t == q);
    let b = public_b(a, s, e, q, f);
    lemma_key_coeffs(a, s, e, q, f);
    lemma_c0_coeffs(b, m, u, e1, q, t, f);
    let c0 = ciphertext(b, a, m, u, e1, e2, q, t, f).0;
    let sm = scale_message_spec(m, q, t);
    let ras = rpf(cf(a), cf(s), n);
    assert forall|j: int| 0 <= j < n implies cong(#[trigger] cf(b)(j), -1 * ras(j) + -1 * cf(e)(j), qq) by {
        assert(cong(coeff(b, j), -rp(cf(a), cf(s), n, j) - coeff(e, j), qq));
    }
    lemma_rp_lin(cf(b), ras, cf(e), cf(u), n, i, qq, -1, -1);
    let rb = rp(cf(b), cf(u), n, i);
    let r1 = rp(ras, cf(u), n, i);
    let r2 = rp(cf(e), cf(u), n, i);
    let w = coeff(e1, i) + coeff(sm, i);
    assert(cong(coeff(c0, i), rb + coeff(e1, i) + coeff(sm, i), qq));
    lemma_cong_refl(w, qq);
    lemma_cong_add(rb, -1 * r1 + -1 * r2, w, w, qq);
    lemma_cong_trans(coeff(c0, i), rb + w, -r1 - r2 + w, qq);
    lemma_cong_square(coeff(c0, i), -r1 - r2 + w, q);
    // The scaled message is `delta * m` modulo `q`.
    let mi = coeff(m, i);
    assert(0 <= mi) by {
        if 0 <= i < m.len() {
            assert(0 <= m[i]);
        }
    }
    lemma_scale_coeffs(m, q, t);
    assert(mi * q == (mi * delta) * t && mi * q >= 0 && mi * delta >= 0) by (nonlinear_arith)
        requires
            delta * t == q,
            mi >= 0,
            q > 0,
            t > 0,
    ;
    vstd::arithmetic::div_mod::lemma_div_by_multiple(mi * delta, t);
    assert(trunc_div(mi * q, t) == delta * mi);
    assert(cong(coeff(sm, i), delta * mi, q));
    lemma_cong_refl(-r1 - r2 + coeff(e1, i), q);
    lemma_cong_add(-r1 - r2 + coeff(e1, i), -r1 - r2 + coeff(e1, i), coeff(sm, i), delta * mi, q);
    lemma_cong_trans(coeff(c0, i), -r1 - r2 + w, -r1 - r2 + coeff(e1, i) + delta * mi, q);
}

/// Modulo `q`, the second part of a ciphertext times the secret is
/// `(a*u)*s + e2*s`.
proof fn lemma_c1s_mod_q(p: &Parameters, a: Seq<int>, s: Seq<int>, u: Seq<int>, e2: Seq<int>, i: int)
    requires
        params_ok(p),
        a.len() <= p.n,
        small(s, p.n as int),
        small(u, p.n as int),
        small(e2, p.n as int),
        0 <= i < p.n,
    ensures
        ({
            let n = p.n as int;
            let q = p.q as int;
            let qq = q * q;
            let c1 = polyadd_spec(polymul_spec(a, u, qq, p.f@), e2, qq, p.f@);
            &&& c1.len() <= n
            &&& cong(
                coeff(polymul_spec(c1, s, q, p.f@), i),
                rp(rpf(cf(a), cf(u), n), cf(s), n, i) + rp(cf(e2), cf(s), n, i),
                q,
            )
        }),
{
    let n = p.n as int;
    let q = p.q as int;
    let f = p.f@;
    let qq = q * q;
    assert(degree_of(f) == n);
    assert(qq > 0) by (nonlinear_arith)
        requires
            qq == q * q,
            q >= 2,
    ;
    lemma_c1_coeffs(a, u, e2, qq, f);
    let c1 = polyadd_spec(polymul_spec(a, u, qq, f), e2, qq, f);
    let rau = rpf(cf(a), cf(u), n);
    assert forall|j: int| 0 <= j < n implies cong(#[trigger] cf(c1)(j), 1 * rau(j) + 1 * cf(e2)(j), qq) by {
        assert(cong(coeff(c1, j), rp(cf(a), cf(u), n, j) + coeff(e2, j), qq));
    }
    lemma_rp_lin(cf(c1), rau, cf(e2), cf(s), n, i, qq, 1, 1);
    let r = rp(cf(c1), cf(s), n, i);
    let target = rp(rau, cf(s), n, i) + rp(cf(e2), cf(s), n, i);
    lemma_cong_square(r, target, q);
    lemma_polymul_coeffs(c1, s, q, f);
    lemma_cong_trans(coeff(polymul_spec(c1, s, q, f), i), r, target, q);
}

/// Coefficient `i` of the noisy decryption of an encryption is, modulo `q`,
/// the scaled message plus the noise `e2*s - e*u + e1`.
proof fn lemma_noisy_coeff(
    p: &Parameters,
    a: Seq<int>,
    s: Seq<int>,
    e: Seq<int>,
    m: Seq<int>,
    u: Seq<int>,
    e1: Seq<int>,
    e2: Seq<int>,
    i: int,
)
    requires
        params_ok(p),
        a.len() <= p.n,
        small(s, p.n as int),
        small(e, p.n as int),
        small(u, p.n as int),
        small(e1, p.n as int),
        small(e2, p.n as int),
        message_fits(m, p),
        0 <= i < p.n,
    ensures
        ({
            let n = p.n as int;
            let q = p.q as int;
            let c = ciphertext(public_b(a, s, e, q, p.f@), a, m, u, e1, e2, q, p.t as int, p.f@);
            let noisy = decrypt_noisy(s, c.0, c.1, p);
            &&& noisy.len() <= n
            &&& cong(
                coeff(noisy, i),
                (q / (p.t as int)) * coeff(m, i) + (rp(cf(e2), cf(s), n, i) - rp(cf(e), cf(u), n, i)
                    + coeff(e1, i)),
                q,
            )
            &&& -(2 * n + 1) <= rp(cf(e2), cf(s), n, i) - rp(cf(e), cf(u), n, i) + coeff(e1, i) <= 2 * n + 1
        }),
{
    let n = p.n as int;
    let q = p.q as int;
    let t = p.t as int;
    let f = p.f@;
    assert(degree_of(f) == n);
    let c = ciphertext(public_b(a, s, e, q, f), a, m, u, e1, e2, q, t, f);
    lemma_c0_mod_q(p, a, s, e, m, u, e1, e2, i);
    lemma_c1s_mod_q(p, a, s, u, e2, i);
    let pq = polymul_spec(c.1, s, q, f);
    lemma_polymul_coeffs(c.1, s, q, f);
    lemma_polyadd_coeffs(pq, c.0, q, f);
    let noisy = decrypt_noisy(s, c.0, c.1, p);
    assert(noisy == polyadd_spec(pq, c.0, q, f));
    lemma_rp_exchange(cf(a), cf(u), cf(s), n, i);
    let r1 = rp(rpf(cf(a), cf(s), n), cf(u), n, i);
    let es = rp(cf(e2), cf(s), n, i);
    let eu = rp(cf(e), cf(u), n, i);
    let delta = q / t;
    let mi = coeff(m, i);
    let noise = es - eu + coeff(e1, i);
    let v = delta * mi + noise;
    lemma_cong_add(coeff(pq, i), r1 + es, coeff(c.0, i), -r1 - eu + coeff(e1, i) + delta * mi, q);
    lemma_cong_trans(coeff(noisy, i), coeff(pq, i) + coeff(c.0, i), v, q);
    // The noise is small.
    lemma_small_cf(s, n);
    lemma_small_cf(e, n);
    lemma_small_cf(u, n);
    lemma_small_cf(e2, n);
    lemma_rp_small(cf(e2), cf(s), n, i);
    lemma_rp_small(cf(e), cf(u), n, i);
    assert(-1 <= coeff(e1, i) <= 1) by {
        if 0 <= i < e1.len() {
            assert(-1 <= e1[i] < 2);
        }
    }
}

/// Decryption undoes encryption: a message that fits the parameters,
/// encrypted under a public key made from secret `s`, decrypts with `s` to
/// the message itself (without trailing zeros). Here `e` is the key's
/// error, and `u`, `e1`, `e2` are the encryption's random polynomials.
pub proof fn lemma_decrypt_encrypt(
    p: &Parameters,
    a: Seq<int>,
    s: Seq<int>,
    e: Seq<int>,
    m: Seq<int>,
    u: Seq<int>,
    e1: Seq<int>,
    e2: Seq<int>,
)
    requires
        params_ok(p),
        a.len() <= p.n,
        small(s, p.n as int),
        small(e, p.n as int),
        small(u, p.n as int),
        small(e1, p.n as int),
        small(e2, p.n as int),
        message_fits(m, p),
    ensures
        decrypt_spec(
            s,
            ciphertext(public_b(a, s, e, p.q as int, p.f@), a, m, u, e1, e2, p.q as int, p.t as int, p.f@).0,
            ciphertext(public_b(a, s, e, p.q as int, p.f@), a, m, u, e1, e2, p.q as int, p.t as int, p.f@).1,
            p,
        ) == trim_zeros(m),
{
    let n = p.n as int;
    let q = p.q as int;
    let t = p.t as int;
    let f = p.f@;
    let c = ciphertext(public_b(a, s, e, q, f), a, m, u, e1, e2, q, t, f);
    let noisy = decrypt_noisy(s, c.0, c.1, p);
    let dec = |v: int| decode(v, p);
    let d = noisy.map_values(dec);
    let delta = q / t;
    vstd::arithmetic::div_mod::lemma_fundamental_div_mod(q, t);
    assert(delta * t == q);
    lemma_noisy_coeff(p, a, s, e, m, u, e1, e2, 0);
    assert forall|i: int| #[trigger] coeff(d, i) == coeff(m, i) by {
        if 0 <= i < n {
            lemma_noisy_coeff(p, a, s, e, m, u, e1, e2, i);
            let mi = coeff(m, i);
            let noise = rp(cf(e2), cf(s), n, i) - rp(cf(e), cf(u), n, i) + coeff(e1, i);
            assert(0 <= mi < t) by {
                if 0 <= i < m.len() {
                    assert(0 <= m[i] < t);
                }
            }
            assert(-q < 2 * t * noise < q) by (nonlinear_arith)
                requires
                    -(2 * n + 1) <= noise <= 2 * n + 1,
                    2 * t * (2 * n + 1) < q,
                    t >= 1,
            ;
            lemma_decode(delta * mi + noise, mi, noise, p, delta);
            lemma_decode_cong(coeff(noisy, i), delta * mi + noise, p);
            if i >= noisy.len() {
                vstd::arithmetic::div_mod::lemma_basic_div(q / 2, q);
                vstd::arithmetic::div_mod::lemma_small_mod(0, t as nat);
                assert(0 * p.t == 0);
                assert(decode(0, p) == 0);
            }
        }
    }
    lemma_trim_same_coeffs(d, m);
}

} // verus!
