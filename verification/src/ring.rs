//! Facts about the ring `Z[x]/(x^n + 1)` that the scheme's correctness
//! rests on: finite sums, congruences, and the ring product written as a
//! double sum over coefficients.
use vstd::prelude::*;
use crate::poly::{
    add_raw, centered, coeff, conv, fold_at, lemma_trim_idem, lemma_trim_prefix, mod_coeffs_spec, mul_raw, polyadd_spec,
    polyinv_spec, polymul_spec, reduce_mod, reduce_raw, scale_message_spec, trim_zeros, trunc_div, degree_of,
};

verus! {

// ---------------------------------------------------------------------
// Finite sums
// ---------------------------------------------------------------------
/// `f(lo) + f(lo + 1) + ... + f(hi - 1)`.
pub open spec fn sum(f: spec_fn(int) -> int, lo: int, hi: int) -> int
    decreases hi - lo,
{
    if lo >= hi {
        0
    } else {
        sum(f, lo, hi - 1) + f(hi - 1)
    }
}

pub proof fn lemma_sum_ext(f: spec_fn(int) -> int, g: spec_fn(int) -> int, lo: int, hi: int)
    requires
        forall|i: int| lo <= i < hi ==> #[trigger] f(i) == g(i),
    ensures
        sum(f, lo, hi) == sum(g, lo, hi),
    decreases hi - lo,
{
    if lo < hi {
        lemma_sum_ext(f, g, lo, hi - 1);
    }
}

pub proof fn lemma_sum_add(f: spec_fn(int) -> int, g: spec_fn(int) -> int, lo: int, hi: int)
    ensures
        sum(|i: int| f(i) + g(i), lo, hi) == sum(f, lo, hi) + sum(g, lo, hi),
    decreases hi - lo,
{
    if lo < hi {
        lemma_sum_add(f, g, lo, hi - 1);
    }
}

pub proof fn lemma_sum_scale(f: spec_fn(int) -> int, c: int, lo: int, hi: int)
    ensures
        sum(|i: int| c * f(i), lo, hi) == c * sum(f, lo, hi),
    decreases hi - lo,
{
    if lo < hi {
        lemma_sum_scale(f, c, lo, hi - 1);
        assert(c * sum(f, lo, hi - 1) + c * f(hi - 1) == c * (sum(f, lo, hi - 1) + f(hi - 1))) by (nonlinear_arith);
    }
}

/// A sum whose terms vanish but at `p` is its term at `p`.
pub proof fn lemma_sum_single(f: spec_fn(int) -> int, lo: int, hi: int, p: int)
    requires
        forall|i: int| lo <= i < hi && i != p ==> #[trigger] f(i) == 0,
    ensures
        sum(f, lo, hi) == (if lo <= p < hi { f(p) } else { 0 }),
    decreases hi - lo,
{
    if lo < hi {
        lemma_sum_single(f, lo, hi - 1, p);
    }
}

pub proof fn lemma_sum_zero(lo: int, hi: int)
    ensures
        sum(|i: int| 0int, lo, hi) == 0,
    decreases hi - lo,
{
    if lo < hi {
        lemma_sum_zero(lo, hi - 1);
    }
}

/// The order of a double sum does not matter.
pub proof fn lemma_sum_swap(f: spec_fn(int, int) -> int, n1: int, n2: int)
    ensures
        sum(|i: int| sum(|j: int| f(i, j), 0, n2), 0, n1) == sum(|j: int| sum(|i: int| f(i, j), 0, n1), 0, n2),
    decreases n1,
{
    let lhs = |i: int| sum(|j: int| f(i, j), 0, n2);
    let rhs = |j: int| sum(|i: int| f(i, j), 0, n1);
    if n1 > 0 {
        lemma_sum_swap(f, n1 - 1, n2);
        let a = |j: int| sum(|i: int| f(i, j), 0, n1 - 1);
        let b = |j: int| f(n1 - 1, j);
        lemma_sum_add(a, b, 0, n2);
        lemma_sum_ext(|j: int| a(j) + b(j), rhs, 0, n2);
        assert(sum(lhs, 0, n1) == sum(lhs, 0, n1 - 1) + lhs(n1 - 1));
        assert(lhs(n1 - 1) == sum(b, 0, n2));
        assert(sum(lhs, 0, n1 - 1) == sum(a, 0, n2));
    } else {
        lemma_sum_ext(rhs, |j: int| 0int, 0, n2);
        lemma_sum_zero(0, n2);
    }
}

/// A sum of terms of magnitude at most `b` has magnitude at most `(hi - lo) * b`.
pub proof fn lemma_sum_bound(f: spec_fn(int) -> int, lo: int, hi: int, b: int)
    requires
        lo <= hi,
        forall|i: int| lo <= i < hi ==> -b <= #[trigger] f(i) <= b,
    ensures
        -((hi - lo) * b) <= sum(f, lo, hi) <= (hi - lo) * b,
    decreases hi - lo,
{
    if lo < hi {
        lemma_sum_bound(f, lo, hi - 1, b);
        assert((hi - 1 - lo) * b + b == (hi - lo) * b) by (nonlinear_arith);
        assert(-((hi - 1 - lo) * b) - b == -((hi - lo) * b)) by (nonlinear_arith);
    } else {
        assert((hi - lo) * b == 0) by (nonlinear_arith)
            requires
                hi == lo,
        ;
    }
}

// ---------------------------------------------------------------------
// Congruences
// ---------------------------------------------------------------------
/// `a` and `b` are congruent modulo `m`.
pub open spec fn cong(a: int, b: int, m: int) -> bool {
    (a - b) % m == 0
}

pub proof fn lemma_cong_intro(a: int, b: int, m: int, k: int)
    requires
        m > 0,
        a - b == k * m,
    ensures
        cong(a, b, m),
{
    vstd::arithmetic::div_mod::lemma_mod_multiples_basic(k, m);
}

pub proof fn lemma_cong_elim(a: int, b: int, m: int)
    requires
        m > 0,
        cong(a, b, m),
    ensures
        a - b == ((a - b) / m) * m,
{
    vstd::arithmetic::div_mod::lemma_fundamental_div_mod(a - b, m);
    assert(m * ((a - b) / m) == ((a - b) / m) * m) by (nonlinear_arith);
}

pub proof fn lemma_cong_refl(a: int, m: int)
    requires
        m > 0,
    ensures
        cong(a, a, m),
{
    lemma_cong_intro(a, a, m, 0);
}

pub proof fn lemma_cong_trans(a: int, b: int, c: int, m: int)
    requires
        m > 0,
        cong(a, b, m),
        cong(b, c, m),
    ensures
        cong(a, c, m),
{
    lemma_cong_elim(a, b, m);
    lemma_cong_elim(b, c, m);
    let k = (a - b) / m + (b - c) / m;
    assert(a - c == k * m) by (nonlinear_arith)
        requires
            a - b == ((a - b) / m) * m,
            b - c == ((b - c) / m) * m,
            k == (a - b) / m + (b - c) / m,
    ;
    lemma_cong_intro(a, c, m, k);
}

pub proof fn lemma_cong_add(a: int, b: int, c: int, d: int, m: int)
    requires
        m > 0,
        cong(a, b, m),
        cong(c, d, m),
    ensures
        cong(a + c, b + d, m),
        cong(a - c, b - d, m),
{
    lemma_cong_elim(a, b, m);
    lemma_cong_elim(c, d, m);
    let k1 = (a - b) / m;
    let k2 = (c - d) / m;
    assert((a + c) - (b + d) == (k1 + k2) * m) by (nonlinear_arith)
        requires
            a - b == k1 * m,
            c - d == k2 * m,
    ;
    assert((a - c) - (b - d) == (k1 - k2) * m) by (nonlinear_arith)
        requires
            a - b == k1 * m,
            c - d == k2 * m,
    ;
    lemma_cong_intro(a + c, b + d, m, k1 + k2);
    lemma_cong_intro(a - c, b - d, m, k1 - k2);
}

pub proof fn lemma_cong_mul(a: int, b: int, c: int, m: int)
    requires
        m > 0,
        cong(a, b, m),
    ensures
        cong(a * c, b * c, m),
{
    lemma_cong_elim(a, b, m);
    let k = (a - b) / m;
    assert(a * c - b * c == (k * c) * m) by (nonlinear_arith)
        requires
            a - b == k * m,
    ;
    lemma_cong_intro(a * c, b * c, m, k * c);
}

/// Congruence modulo `m * m` gives congruence modulo `m`.
pub proof fn lemma_cong_square(a: int, b: int, m: int)
    requires
        m > 0,
        cong(a, b, m * m),
    ensures
        cong(a, b, m),
{
    assert(m * m > 0) by (nonlinear_arith)
        requires
            m > 0,
    ;
    lemma_cong_elim(a, b, m * m);
    let k = (a - b) / (m * m);
    assert(a - b == (k * m) * m) by (nonlinear_arith)
        requires
            a - b == k * (m * m),
    ;
    lemma_cong_intro(a, b, m, k * m);
}

/// Sums of congruent terms are congruent.
pub proof fn lemma_sum_cong(f: spec_fn(int) -> int, g: spec_fn(int) -> int, lo: int, hi: int, m: int)
    requires
        m > 0,
        forall|i: int| lo <= i < hi ==> cong(#[trigger] f(i), g(i), m),
    ensures
        cong(sum(f, lo, hi), sum(g, lo, hi), m),
    decreases hi - lo,
{
    if lo < hi {
        lemma_sum_cong(f, g, lo, hi - 1, m);
        assert(cong(f(hi - 1), g(hi - 1), m));
        lemma_cong_add(sum(f, lo, hi - 1), sum(g, lo, hi - 1), f(hi - 1), g(hi - 1), m);
    } else {
        lemma_cong_refl(0, m);
    }
}

// ---------------------------------------------------------------------
// Double and triple sums
// ---------------------------------------------------------------------
/// `sum_{i < n1} sum_{j < n2} f(i, j)`.
pub open spec fn sum2(f: spec_fn(int, int) -> int, n1: int, n2: int) -> int {
    sum(|i: int| sum(|j: int| f(i, j), 0, n2), 0, n1)
}

/// `sum_{i < n} sum_{j < n} sum_{m < n} f(i, j, m)`.
pub open spec fn sum3(f: spec_fn(int, int, int) -> int, n: int) -> int {
    sum(|i: int| sum2(|j: int, m: int| f(i, j, m), n, n), 0, n)
}

pub proof fn lemma_sum2_ext(f: spec_fn(int, int) -> int, g: spec_fn(int, int) -> int, n1: int, n2: int)
    requires
        forall|i: int, j: int| 0 <= i < n1 && 0 <= j < n2 ==> #[trigger] f(i, j) == g(i, j),
    ensures
        sum2(f, n1, n2) == sum2(g, n1, n2),
{
    let rf = |i: int| sum(|j: int| f(i, j), 0, n2);
    let rg = |i: int| sum(|j: int| g(i, j), 0, n2);
    assert forall|i: int| 0 <= i < n1 implies #[trigger] rf(i) == rg(i) by {
        lemma_sum_ext(|j: int| f(i, j), |j: int| g(i, j), 0, n2);
    }
    lemma_sum_ext(rf, rg, 0, n1);
}

pub proof fn lemma_sum2_swap(f: spec_fn(int, int) -> int, n1: int, n2: int)
    ensures
        sum2(f, n1, n2) == sum2(|j: int, i: int| f(i, j), n2, n1),
{
    lemma_sum_swap(f, n1, n2);
    let g = |j: int, i: int| f(i, j);
    let c1 = |j: int| sum(|i: int| f(i, j), 0, n1);
    let c2 = |j: int| sum(|i: int| g(j, i), 0, n1);
    assert forall|j: int| 0 <= j < n2 implies #[trigger] c1(j) == c2(j) by {
        lemma_sum_ext(|i: int| f(i, j), |i: int| g(j, i), 0, n1);
    }
    lemma_sum_ext(c1, c2, 0, n2);
}

pub proof fn lemma_sum2_scale(f: spec_fn(int, int) -> int, c: int, n1: int, n2: int)
    ensures
        c * sum2(f, n1, n2) == sum2(|i: int, j: int| c * f(i, j), n1, n2),
{
    let rf = |i: int| sum(|j: int| f(i, j), 0, n2);
    lemma_sum_scale(rf, c, 0, n1);
    let g = |i: int, j: int| c * f(i, j);
    let crf = |i: int| c * rf(i);
    let rg = |i: int| sum(|j: int| g(i, j), 0, n2);
    assert forall|i: int| 0 <= i < n1 implies #[trigger] crf(i) == rg(i) by {
        let fi = |j: int| f(i, j);
        lemma_sum_scale(fi, c, 0, n2);
        lemma_sum_ext(|j: int| c * fi(j), |j: int| g(i, j), 0, n2);
    }
    lemma_sum_ext(crf, rg, 0, n1);
}

pub proof fn lemma_sum3_ext(f: spec_fn(int, int, int) -> int, g: spec_fn(int, int, int) -> int, n: int)
    requires
        forall|i: int, j: int, m: int| 0 <= i < n && 0 <= j < n && 0 <= m < n ==> #[trigger] f(i, j, m) == g(i, j, m),
    ensures
        sum3(f, n) == sum3(g, n),
{
    let rf = |i: int| sum2(|j: int, m: int| f(i, j, m), n, n);
    let rg = |i: int| sum2(|j: int, m: int| g(i, j, m), n, n);
    assert forall|i: int| 0 <= i < n implies #[trigger] rf(i) == rg(i) by {
        let fi = |j: int, m: int| f(i, j, m);
        let gi = |j: int, m: int| g(i, j, m);
        assert forall|j: int, m: int| 0 <= j < n && 0 <= m < n implies #[trigger] fi(j, m) == gi(j, m) by {
            assert(f(i, j, m) == g(i, j, m));
        }
        lemma_sum2_ext(fi, gi, n, n);
    }
    lemma_sum_ext(rf, rg, 0, n);
}

/// A sum over `l` of double sums is the triple sum.
pub proof fn lemma_sum3_from_outer(outer: spec_fn(int) -> int, f: spec_fn(int, int, int) -> int, n: int)
    requires
        forall|l: int| 0 <= l < n ==> #[trigger] outer(l) == sum2(|i: int, j: int| f(l, i, j), n, n),
    ensures
        sum(outer, 0, n) == sum3(f, n),
{
    lemma_sum_ext(outer, |l: int| sum2(|i: int, j: int| f(l, i, j), n, n), 0, n);
}

/// The innermost sum of a triple sum done: `sum_m f(i, j, m) = g(i, j)`.
pub proof fn lemma_sum3_inner(f: spec_fn(int, int, int) -> int, g: spec_fn(int, int) -> int, n: int)
    requires
        forall|i: int, j: int| 0 <= i < n && 0 <= j < n ==> #[trigger] g(i, j) == sum(|m: int| f(i, j, m), 0, n),
    ensures
        sum3(f, n) == sum2(g, n, n),
{
    let r3 = |i: int| sum2(|j: int, m: int| f(i, j, m), n, n);
    let r2 = |i: int| sum(|j: int| g(i, j), 0, n);
    assert forall|i: int| 0 <= i < n implies #[trigger] r3(i) == r2(i) by {
        let fi = |j: int, m: int| f(i, j, m);
        let inner = |j: int| sum(|m: int| fi(j, m), 0, n);
        assert forall|j: int| 0 <= j < n implies #[trigger] inner(j) == g(i, j) by {
            lemma_sum_ext(|m: int| fi(j, m), |m: int| f(i, j, m), 0, n);
        }
        lemma_sum_ext(inner, |j: int| g(i, j), 0, n);
    }
    lemma_sum_ext(r3, r2, 0, n);
}

/// The outermost index moved innermost: `sum_l sum_i sum_j` as `sum_i sum_j sum_l`.
pub proof fn lemma_sum3_rotate(f: spec_fn(int, int, int) -> int, n: int)
    ensures
        sum3(f, n) == sum3(|i: int, j: int, l: int| f(l, i, j), n),
{
    // sum_l sum_i [sum_j f] = sum_i sum_l [sum_j f]
    let a = |l: int, i: int| sum(|j: int| f(l, i, j), 0, n);
    lemma_sum2_swap(a, n, n);
    // the triple sum is the double sum of a
    let ra = |l: int| sum(|i: int| a(l, i), 0, n);
    let r3 = |l: int| sum2(|i: int, j: int| f(l, i, j), n, n);
    assert forall|l: int| 0 <= l < n implies #[trigger] r3(l) == ra(l) by {
        let fl = |i: int, j: int| f(l, i, j);
        let rl = |i: int| sum(|j: int| fl(i, j), 0, n);
        assert forall|i: int| 0 <= i < n implies #[trigger] rl(i) == a(l, i) by {
            lemma_sum_ext(|j: int| fl(i, j), |j: int| f(l, i, j), 0, n);
        }
        lemma_sum_ext(rl, |i: int| a(l, i), 0, n);
    }
    lemma_sum_ext(r3, ra, 0, n);
    // inside, sum_l sum_j = sum_j sum_l
    let g = |i: int, j: int, l: int| f(l, i, j);
    let b = |i: int, l: int| a(l, i);
    let rb = |i: int| sum(|l: int| b(i, l), 0, n);
    let rg = |i: int| sum2(|j: int, l: int| g(i, j, l), n, n);
    assert forall|i: int| 0 <= i < n implies #[trigger] rb(i) == rg(i) by {
        let fi = |l: int, j: int| f(l, i, j);
        lemma_sum2_swap(fi, n, n);
        let rfi = |l: int| sum(|j: int| fi(l, j), 0, n);
        assert forall|l: int| 0 <= l < n implies #[trigger] b(i, l) == rfi(l) by {
            lemma_sum_ext(|j: int| f(l, i, j), |j: int| fi(l, j), 0, n);
        }
        lemma_sum_ext(|l: int| b(i, l), rfi, 0, n);
        let gi = |j: int, l: int| g(i, j, l);
        lemma_sum2_ext(|j: int, l: int| fi(l, j), gi, n, n);
    }
    lemma_sum_ext(rb, rg, 0, n);
    let flipped = |i: int, l: int| a(l, i);
    lemma_sum_ext(|i: int| sum(|l: int| flipped(i, l), 0, n), rb, 0, n);
}

/// The two inner indices exchanged.
pub proof fn lemma_sum3_swap_inner(f: spec_fn(int, int, int) -> int, n: int)
    ensures
        sum3(f, n) == sum3(|i: int, x: int, y: int| f(i, y, x), n),
{
    let g = |i: int, x: int, y: int| f(i, y, x);
    let rf = |i: int| sum2(|j: int, m: int| f(i, j, m), n, n);
    let rg = |i: int| sum2(|x: int, y: int| g(i, x, y), n, n);
    assert forall|i: int| 0 <= i < n implies #[trigger] rf(i) == rg(i) by {
        let fi = |j: int, m: int| f(i, j, m);
        lemma_sum2_swap(fi, n, n);
        lemma_sum2_ext(|m: int, j: int| fi(j, m), |x: int, y: int| g(i, x, y), n, n);
    }
    lemma_sum_ext(rf, rg, 0, n);
}

// ---------------------------------------------------------------------
// The ring product
// ---------------------------------------------------------------------
/// The sign with which `x^s` lands on `x^k` modulo `x^n + 1`, for
/// `0 <= s < 2n` and `0 <= k < n`.
pub open spec fn chi(s: int, k: int, n: int) -> int {
    if s == k {
        1
    } else if s == k + n {
        -1
    } else {
        0
    }
}

/// The same for `0 <= s < 3n`.
pub open spec fn psi(s: int, k: int, n: int) -> int {
    if s == k || s == k + 2 * n {
        1
    } else if s == k + n {
        -1
    } else {
        0
    }
}

/// Coefficient `k` of the product of `x` and `y` modulo `x^n + 1`, for
/// polynomials of degree below `n` given by their coefficients.
pub open spec fn rp(x: spec_fn(int) -> int, y: spec_fn(int) -> int, n: int, k: int) -> int {
    sum2(|i: int, j: int| x(i) * y(j) * chi(i + j, k, n), n, n)
}

/// The product's coefficients.
pub open spec fn rpf(x: spec_fn(int) -> int, y: spec_fn(int) -> int, n: int) -> spec_fn(int) -> int {
    |k: int| rp(x, y, n, k)
}

/// Coefficient `d` of `y`, continued below zero by `x^n = -1`.
pub open spec fn tw(y: spec_fn(int) -> int, d: int, n: int) -> int {
    if d >= 0 {
        y(d)
    } else {
        -y(d + n)
    }
}

/// Where `x^s` lands modulo `x^n + 1`, for `0 <= s < 2n`, and with which sign.
pub open spec fn land(s: int, n: int) -> int {
    if s < n {
        s
    } else {
        s - n
    }
}

pub open spec fn land_sign(s: int, n: int) -> int {
    if s < n {
        1
    } else {
        -1
    }
}

/// A row of the product: `sum_j c * y(j) * chi(i + j, k)` is `c` times
/// the coefficient of `y` that lands on `k`.
proof fn lemma_row(c: int, y: spec_fn(int) -> int, i: int, n: int, k: int)
    requires
        0 <= i < n,
        0 <= k < n,
    ensures
        sum(|j: int| c * y(j) * chi(i + j, k, n), 0, n) == c * tw(y, k - i, n),
{
    let f = |j: int| c * y(j) * chi(i + j, k, n);
    let p = if i <= k { k - i } else { k + n - i };
    assert forall|j: int| 0 <= j < n && j != p implies #[trigger] f(j) == 0 by {
        assert(chi(i + j, k, n) == 0);
        assert(c * y(j) * chi(i + j, k, n) == 0) by (nonlinear_arith)
            requires
                chi(i + j, k, n) == 0,
        ;
    }
    lemma_sum_single(f, 0, n, p);
    if i <= k {
        assert(f(p) == c * y(p) * 1);
    } else {
        assert(f(p) == c * y(p) * (-1));
        assert(c * y(p) * (-1) == c * (-y(p))) by (nonlinear_arith);
    }
}

/// The ring product with its inner sum done: `sum_i x(i) * y(k - i)`, the
/// index continued below zero by `x^n = -1`.
pub proof fn lemma_rp_twisted(x: spec_fn(int) -> int, y: spec_fn(int) -> int, n: int, k: int)
    requires
        0 <= k < n,
    ensures
        rp(x, y, n, k) == sum(|i: int| x(i) * tw(y, k - i, n), 0, n),
{
    let t = |i: int, j: int| x(i) * y(j) * chi(i + j, k, n);
    let rows = |i: int| sum(|j: int| t(i, j), 0, n);
    let twisted = |i: int| x(i) * tw(y, k - i, n);
    assert forall|i: int| 0 <= i < n implies #[trigger] rows(i) == twisted(i) by {
        lemma_row(x(i), y, i, n, k);
        lemma_sum_ext(|j: int| t(i, j), |j: int| x(i) * y(j) * chi(i + j, k, n), 0, n);
    }
    lemma_sum_ext(rows, twisted, 0, n);
}

/// Summing over where `x^t` lands: `sum_m s(m) * psi(t + m, k)`.
proof fn lemma_psi_row(s: spec_fn(int) -> int, t: int, n: int, k: int)
    requires
        0 <= t < 2 * n,
        0 <= k < n,
    ensures
        sum(|m: int| s(m) * psi(t + m, k, n), 0, n) == land_sign(t, n) * tw(s, k - land(t, n), n),
{
    let f = |m: int| s(m) * psi(t + m, k, n);
    let l0 = land(t, n);
    let p = if k - l0 >= 0 { k - l0 } else { k - l0 + n };
    assert(0 <= p < n);
    assert forall|m: int| 0 <= m < n && m != p implies #[trigger] f(m) == 0 by {
        assert(psi(t + m, k, n) == 0);
    }
    lemma_sum_single(f, 0, n, p);
    if t < n {
        if k - l0 >= 0 {
            assert(f(p) == s(p) * 1);
            assert(land_sign(t, n) * tw(s, k - l0, n) == s(p));
        } else {
            assert(f(p) == s(p) * (-1));
            assert(land_sign(t, n) * tw(s, k - l0, n) == -s(p));
        }
    } else {
        assert(land_sign(t, n) == -1);
        if k - l0 >= 0 {
            assert(f(p) == s(p) * (-1));
            assert(tw(s, k - l0, n) == s(p));
            assert(land_sign(t, n) * tw(s, k - l0, n) == -s(p));
        } else {
            assert(f(p) == s(p) * 1);
            assert(tw(s, k - l0, n) == -s(p));
            assert(land_sign(t, n) * tw(s, k - l0, n) == s(p));
        }
    }
}

/// The triple product written out: `sum_i sum_j sum_m a(i) u(j) s(m)
/// psi(i + j + m, k)`.
pub open spec fn triple(a: spec_fn(int) -> int, u: spec_fn(int) -> int, s: spec_fn(int) -> int, n: int, k: int) -> int {
    sum3(|i: int, j: int, m: int| a(i) * u(j) * s(m) * psi(i + j + m, k, n), n)
}

/// `a(i) * u(j)` times where `x^(i+j) * s` lands on `x^k`.
pub open spec fn pair_term(a: spec_fn(int) -> int, u: spec_fn(int) -> int, s: spec_fn(int) -> int, n: int, k: int, i: int, j: int) -> int {
    a(i) * u(j) * (land_sign(i + j, n) * tw(s, k - land(i + j, n), n))
}

proof fn lemma_triple_pairs(a: spec_fn(int) -> int, u: spec_fn(int) -> int, s: spec_fn(int) -> int, n: int, k: int)
    requires
        0 <= k < n,
    ensures
        triple(a, u, s, n, k) == sum2(|i: int, j: int| pair_term(a, u, s, n, k, i, j), n, n),
{
    let h = |i: int, j: int, m: int| a(i) * u(j) * s(m) * psi(i + j + m, k, n);
    let g = |i: int, j: int| pair_term(a, u, s, n, k, i, j);
    assert forall|i: int, j: int| 0 <= i < n && 0 <= j < n implies #[trigger] g(i, j) == sum(|m: int| h(i, j, m), 0, n) by {
        let t = i + j;
        let c = a(i) * u(j);
        let srow = |m: int| s(m) * psi(t + m, k, n);
        lemma_psi_row(s, t, n, k);
        lemma_sum_scale(srow, c, 0, n);
        let csrow = |m: int| c * srow(m);
        let hm = |m: int| h(i, j, m);
        assert forall|m: int| 0 <= m < n implies #[trigger] csrow(m) == hm(m) by {
            assert(c * (s(m) * psi(t + m, k, n)) == a(i) * u(j) * s(m) * psi(i + j + m, k, n)) by (nonlinear_arith)
                requires
                    c == a(i) * u(j),
                    t == i + j,
            ;
        }
        lemma_sum_ext(csrow, hm, 0, n);
        assert(g(i, j) == c * (land_sign(t, n) * tw(s, k - land(t, n), n))) by (nonlinear_arith)
            requires
                g(i, j) == a(i) * u(j) * (land_sign(i + j, n) * tw(s, k - land(i + j, n), n)),
                c == a(i) * u(j),
                t == i + j,
        ;
    }
    lemma_sum3_inner(h, g, n);
}

proof fn lemma_rp_rp(a: spec_fn(int) -> int, u: spec_fn(int) -> int, s: spec_fn(int) -> int, n: int, k: int)
    requires
        0 <= k < n,
    ensures
        rp(rpf(a, u, n), s, n, k) == triple(a, u, s, n, k),
{
    let au = rpf(a, u, n);
    lemma_rp_twisted(au, s, n, k);
    let g = |l: int, i: int, j: int| a(i) * u(j) * chi(i + j, l, n) * tw(s, k - l, n);
    let outer = |l: int| au(l) * tw(s, k - l, n);
    // Each term of the outer sum is a double sum.
    assert forall|l: int| 0 <= l < n implies #[trigger] outer(l) == sum2(|i: int, j: int| g(l, i, j), n, n) by {
        let w = tw(s, k - l, n);
        let fl = |i: int, j: int| a(i) * u(j) * chi(i + j, l, n);
        lemma_sum2_scale(fl, w, n, n);
        let gl = |i: int, j: int| g(l, i, j);
        assert forall|i: int, j: int| 0 <= i < n && 0 <= j < n implies #[trigger] (w * fl(i, j)) == gl(i, j) by {
            assert(w * (a(i) * u(j) * chi(i + j, l, n)) == a(i) * u(j) * chi(i + j, l, n) * w) by (nonlinear_arith);
        }
        lemma_sum2_ext(|i: int, j: int| w * fl(i, j), gl, n, n);
        assert(au(l) == sum2(fl, n, n));
        assert(au(l) * w == w * au(l)) by (nonlinear_arith);
    }
    lemma_sum3_from_outer(outer, g, n);
    // Move the sum over l innermost, where it has a single term.
    lemma_sum3_rotate(g, n);
    let r = |i: int, j: int, l: int| g(l, i, j);
    let pt = |i: int, j: int| pair_term(a, u, s, n, k, i, j);
    assert forall|i: int, j: int| 0 <= i < n && 0 <= j < n implies #[trigger] pt(i, j) == sum(|l: int| r(i, j, l), 0, n) by {
        let t = i + j;
        let l0 = land(t, n);
        let rl = |l: int| r(i, j, l);
        assert forall|l: int| 0 <= l < n && l != l0 implies #[trigger] rl(l) == 0 by {
            assert(chi(i + j, l, n) == 0);
            assert(a(i) * u(j) * chi(i + j, l, n) * tw(s, k - l, n) == 0) by (nonlinear_arith)
                requires
                    chi(i + j, l, n) == 0,
            ;
        }
        lemma_sum_single(rl, 0, n, l0);
        assert(chi(t, l0, n) == land_sign(t, n));
        assert(rl(l0) == pt(i, j)) by (nonlinear_arith)
            requires
                rl(l0) == a(i) * u(j) * chi(i + j, l0, n) * tw(s, k - l0, n),
                pt(i, j) == a(i) * u(j) * (land_sign(i + j, n) * tw(s, k - land(i + j, n), n)),
                chi(i + j, l0, n) == land_sign(t, n),
                l0 == land(t, n),
                t == i + j,
        ;
    }
    lemma_sum3_inner(r, pt, n);
    lemma_triple_pairs(a, u, s, n, k);
}

/// Multiplying `a` by `u` and then by `s` is multiplying it by `s` and
/// then by `u`.
pub proof fn lemma_rp_exchange(a: spec_fn(int) -> int, u: spec_fn(int) -> int, s: spec_fn(int) -> int, n: int, k: int)
    requires
        0 <= k < n,
    ensures
        rp(rpf(a, u, n), s, n, k) == rp(rpf(a, s, n), u, n, k),
{
    lemma_rp_rp(a, u, s, n, k);
    lemma_rp_rp(a, s, u, n, k);
    let h1 = |i: int, j: int, m: int| a(i) * u(j) * s(m) * psi(i + j + m, k, n);
    let h2 = |i: int, j: int, m: int| a(i) * s(j) * u(m) * psi(i + j + m, k, n);
    lemma_sum3_swap_inner(h1, n);
    let sw = |i: int, x: int, y: int| h1(i, y, x);
    assert forall|i: int, x: int, y: int| 0 <= i < n && 0 <= x < n && 0 <= y < n implies #[trigger] sw(i, x, y) == h2(
        i,
        x,
        y,
    ) by {
        assert(a(i) * u(y) * s(x) * psi(i + y + x, k, n) == a(i) * s(x) * u(y) * psi(i + x + y, k, n)) by (nonlinear_arith);
    }
    lemma_sum3_ext(sw, h2, n);
}

// ---------------------------------------------------------------------
// More on sums
// ---------------------------------------------------------------------
/// Terms that vanish from `l` on add nothing.
pub proof fn lemma_sum_extend(f: spec_fn(int) -> int, l: int, n: int)
    requires
        0 <= l <= n,
        forall|i: int| l <= i < n ==> #[trigger] f(i) == 0,
    ensures
        sum(f, 0, l) == sum(f, 0, n),
    decreases n - l,
{
    if l < n {
        lemma_sum_extend(f, l, n - 1);
    }
}

pub proof fn lemma_sum_sub(f: spec_fn(int) -> int, g: spec_fn(int) -> int, lo: int, hi: int)
    ensures
        sum(|i: int| f(i) - g(i), lo, hi) == sum(f, lo, hi) - sum(g, lo, hi),
    decreases hi - lo,
{
    if lo < hi {
        lemma_sum_sub(f, g, lo, hi - 1);
    }
}

pub proof fn lemma_sum2_cong(f: spec_fn(int, int) -> int, g: spec_fn(int, int) -> int, n1: int, n2: int, m: int)
    requires
        m > 0,
        forall|i: int, j: int| 0 <= i < n1 && 0 <= j < n2 ==> cong(#[trigger] f(i, j), g(i, j), m),
    ensures
        cong(sum2(f, n1, n2), sum2(g, n1, n2), m),
{
    let rf = |i: int| sum(|j: int| f(i, j), 0, n2);
    let rg = |i: int| sum(|j: int| g(i, j), 0, n2);
    assert forall|i: int| 0 <= i < n1 implies cong(#[trigger] rf(i), rg(i), m) by {
        let fi = |j: int| f(i, j);
        let gi = |j: int| g(i, j);
        assert forall|j: int| 0 <= j < n2 implies cong(#[trigger] fi(j), gi(j), m) by {
            assert(cong(f(i, j), g(i, j), m));
        }
        lemma_sum_cong(fi, gi, 0, n2, m);
    }
    lemma_sum_cong(rf, rg, 0, n1, m);
}

pub proof fn lemma_sum2_add(f: spec_fn(int, int) -> int, g: spec_fn(int, int) -> int, n1: int, n2: int)
    ensures
        sum2(|i: int, j: int| f(i, j) + g(i, j), n1, n2) == sum2(f, n1, n2) + sum2(g, n1, n2),
{
    let h = |i: int, j: int| f(i, j) + g(i, j);
    let rf = |i: int| sum(|j: int| f(i, j), 0, n2);
    let rg = |i: int| sum(|j: int| g(i, j), 0, n2);
    let rh = |i: int| sum(|j: int| h(i, j), 0, n2);
    assert forall|i: int| 0 <= i < n1 implies #[trigger] rh(i) == rf(i) + rg(i) by {
        let fi = |j: int| f(i, j);
        let gi = |j: int| g(i, j);
        lemma_sum_add(fi, gi, 0, n2);
        lemma_sum_ext(|j: int| h(i, j), |j: int| fi(j) + gi(j), 0, n2);
    }
    lemma_sum_add(rf, rg, 0, n1);
    lemma_sum_ext(rh, |i: int| rf(i) + rg(i), 0, n1);
}

// ---------------------------------------------------------------------
// The ring product's laws on its left factor
// ---------------------------------------------------------------------
/// The product is linear in its left factor, modulo `m`: a left factor
/// congruent to `c1 * x1 + c2 * x2` on `[0, n)` gives a product congruent
/// to `c1 * (x1 * y) + c2 * (x2 * y)`.
pub proof fn lemma_rp_lin(
    x: spec_fn(int) -> int,
    x1: spec_fn(int) -> int,
    x2: spec_fn(int) -> int,
    y: spec_fn(int) -> int,
    n: int,
    k: int,
    m: int,
    c1: int,
    c2: int,
)
    requires
        m > 0,
        forall|i: int| 0 <= i < n ==> cong(#[trigger] x(i), c1 * x1(i) + c2 * x2(i), m),
    ensures
        cong(rp(x, y, n, k), c1 * rp(x1, y, n, k) + c2 * rp(x2, y, n, k), m),
{
    let fx = |i: int, j: int| x(i) * y(j) * chi(i + j, k, n);
    let f1 = |i: int, j: int| x1(i) * y(j) * chi(i + j, k, n);
    let f2 = |i: int, j: int| x2(i) * y(j) * chi(i + j, k, n);
    let g1 = |i: int, j: int| c1 * f1(i, j);
    let g2 = |i: int, j: int| c2 * f2(i, j);
    let g = |i: int, j: int| g1(i, j) + g2(i, j);
    assert forall|i: int, j: int| 0 <= i < n && 0 <= j < n implies cong(#[trigger] fx(i, j), g(i, j), m) by {
        let xi = x(i);
        let ai = x1(i);
        let bi = x2(i);
        let yj = y(j);
        let ch = chi(i + j, k, n);
        let w = yj * ch;
        assert(cong(xi, c1 * ai + c2 * bi, m));
        lemma_cong_mul(xi, c1 * ai + c2 * bi, w, m);
        assert(xi * w == xi * yj * ch) by (nonlinear_arith)
            requires
                w == yj * ch,
        ;
        assert((c1 * ai + c2 * bi) * w == c1 * (ai * w) + c2 * (bi * w)) by (nonlinear_arith);
        assert(ai * w == ai * yj * ch) by (nonlinear_arith)
            requires
                w == yj * ch,
        ;
        assert(bi * w == bi * yj * ch) by (nonlinear_arith)
            requires
                w == yj * ch,
        ;
    }
    lemma_sum2_cong(fx, g, n, n, m);
    lemma_sum2_add(g1, g2, n, n);
    lemma_sum2_ext(g, |i: int, j: int| g1(i, j) + g2(i, j), n, n);
    lemma_sum2_scale(f1, c1, n, n);
    lemma_sum2_scale(f2, c2, n, n);
}

/// Multiplying polynomials with coefficients -1, 0 or 1 gives coefficients
/// of magnitude at most `n`.
pub proof fn lemma_rp_small(x: spec_fn(int) -> int, y: spec_fn(int) -> int, n: int, k: int)
    requires
        0 <= k < n,
        forall|i: int| 0 <= i < n ==> -1 <= #[trigger] x(i) <= 1,
        forall|i: int| 0 <= i < n ==> -1 <= #[trigger] y(i) <= 1,
    ensures
        -n <= rp(x, y, n, k) <= n,
{
    lemma_rp_twisted(x, y, n, k);
    let t = |i: int| x(i) * tw(y, k - i, n);
    assert forall|i: int| 0 <= i < n implies -1 <= #[trigger] t(i) <= 1 by {
        let w = tw(y, k - i, n);
        if k - i >= 0 {
            assert(-1 <= y(k - i) <= 1);
        } else {
            assert(-1 <= y(k - i + n) <= 1);
        }
        assert(-1 <= x(i) * w <= 1) by (nonlinear_arith)
            requires
                -1 <= x(i) <= 1,
                -1 <= w <= 1,
        ;
    }
    lemma_sum_bound(t, 0, n, 1);
}

// ---------------------------------------------------------------------
// The polynomial operations in these terms
// ---------------------------------------------------------------------
/// A polynomial's coefficients as a function.
pub open spec fn cf(x: Seq<int>) -> spec_fn(int) -> int {
    |i: int| coeff(x, i)
}

/// The centred representatives modulo `m`: `(m/2 - m, m/2]`.
pub open spec fn in_window(v: int, m: int) -> bool {
    trunc_div(m, 2) - m < v && v <= trunc_div(m, 2)
}

pub proof fn lemma_trim_coeff(x: Seq<int>)
    ensures
        trim_zeros(x).len() <= x.len(),
        forall|i: int| #[trigger] coeff(trim_zeros(x), i) == coeff(x, i),
{
    lemma_trim_prefix(x);
    let t = trim_zeros(x);
    assert forall|i: int| #[trigger] coeff(t, i) == coeff(x, i) by {
        if 0 <= i < t.len() {
            assert(t[i] == x[i]);
        } else if t.len() <= i < x.len() {
            assert(x[i] == 0);
        }
    }
}

proof fn lemma_centered_cong(c: int, m: int)
    requires
        m > 0,
    ensures
        cong(centered(c, m), c, m),
        in_window(centered(c, m), m),
{
    vstd::arithmetic::div_mod::lemma_fundamental_div_mod(c, m);
    assert(0 <= c % m < m) by (nonlinear_arith)
        requires
            m > 0,
    ;
    assert(trunc_div(m, 2) == m / 2);
    let r = c % m;
    if r > trunc_div(m, 2) {
        assert((r - m) - c == (-(c / m) - 1) * m) by (nonlinear_arith)
            requires
                c == m * (c / m) + r,
        ;
        lemma_cong_intro(r - m, c, m, -(c / m) - 1);
    } else {
        assert(r - c == (-(c / m)) * m) by (nonlinear_arith)
            requires
                c == m * (c / m) + r,
        ;
        lemma_cong_intro(r, c, m, -(c / m));
    }
}

/// `mod_coeffs` keeps each coefficient's residue and puts it in the window.
pub proof fn lemma_mod_coeffs_cong(x: Seq<int>, m: int)
    requires
        m > 0,
    ensures
        mod_coeffs_spec(x, m).len() <= x.len(),
        forall|i: int| cong(#[trigger] coeff(mod_coeffs_spec(x, m), i), coeff(x, i), m),
        forall|i: int| in_window(#[trigger] coeff(mod_coeffs_spec(x, m), i), m),
{
    let r = mod_coeffs_spec(x, m);
    assert(trunc_div(m, 2) == m / 2);
    if x.len() == 0 {
        assert forall|i: int| cong(#[trigger] coeff(r, i), coeff(x, i), m) by {
            lemma_cong_refl(0, m);
        }
    } else {
        let c = x.map_values(|v: int| centered(v, m));
        lemma_trim_coeff(c);
        assert forall|i: int| cong(#[trigger] coeff(r, i), coeff(x, i), m) && in_window(coeff(r, i), m) by {
            if 0 <= i < x.len() {
                lemma_centered_cong(x[i], m);
            } else {
                lemma_cong_refl(0, m);
            }
        }
    }
}

/// The remainder modulo `x^n + 1` folds each coefficient onto its place.
proof fn lemma_reduce_coeff(x: Seq<int>, n: nat, k: int)
    requires
        n >= 1,
        0 <= k < n,
    ensures
        reduce_raw(x, n).len() <= n,
        coeff(reduce_raw(x, n), k) == fold_at(x, n, k),
{
    if x.len() <= n {
        if k < x.len() {
            assert(fold_at(x, n, k + n) == 0);
        }
    } else {
        let s = Seq::new(n, |j: int| fold_at(x, n, j));
        lemma_trim_coeff(s);
    }
}

/// Folding a polynomial of degree below `2n` takes two coefficients.
proof fn lemma_fold_two(x: Seq<int>, n: nat, k: int)
    requires
        n >= 1,
        0 <= k < n,
        x.len() <= 2 * n,
    ensures
        fold_at(x, n, k) == coeff(x, k) - coeff(x, k + n),
{
    if k < x.len() {
        assert(fold_at(x, n, k) == x[k] - fold_at(x, n, k + n));
        if k + n < x.len() {
            assert(fold_at(x, n, k + n) == x[k + n] - fold_at(x, n, k + n + n));
            assert(fold_at(x, n, k + n + n) == 0);
        } else {
            assert(fold_at(x, n, k + n) == 0);
        }
    }
}

proof fn lemma_conv_sum(x: Seq<int>, y: Seq<int>, j: int, l: int)
    requires
        l >= 0,
    ensures
        conv(x, y, j, l) == sum(|i: int| coeff(x, i) * coeff(y, j - i), 0, l),
    decreases l,
{
    if l > 0 {
        lemma_conv_sum(x, y, j, l - 1);
    }
}

/// A coefficient of a product: `sum_{i < n} x(i) * y(j - i)`.
proof fn lemma_mul_coeff(x: Seq<int>, y: Seq<int>, n: int, j: int)
    requires
        x.len() <= n,
        0 <= j,
    ensures
        coeff(mul_raw(x, y), j) == sum(|i: int| coeff(x, i) * coeff(y, j - i), 0, n),
{
    let f = |i: int| coeff(x, i) * coeff(y, j - i);
    lemma_conv_sum(x, y, j, x.len() as int);
    lemma_sum_extend(f, x.len() as int, n);
    let p = mul_raw(x, y);
    if !(x.len() > 0 && y.len() > 0 && j < p.len()) {
        assert forall|i: int| 0 <= i < x.len() implies #[trigger] f(i) == 0 by {
            if y.len() > 0 && x.len() > 0 {
                assert(j - i >= y.len());
            }
        }
        lemma_sum_ext(f, |i: int| 0int, 0, x.len() as int);
        lemma_sum_zero(0, x.len() as int);
    }
}

/// A product's coefficients, modulo `x^n + 1` and modulo `m`, are those of
/// the ring product.
pub proof fn lemma_polymul_coeffs(x: Seq<int>, y: Seq<int>, m: int, f: Seq<i64>)
    requires
        degree_of(f) >= 1,
        x.len() <= degree_of(f),
        y.len() <= degree_of(f),
        m > 0,
    ensures
        polymul_spec(x, y, m, f).len() <= degree_of(f),
        forall|k: int| 0 <= k < degree_of(f) ==> cong(#[trigger] coeff(polymul_spec(x, y, m, f), k), rp(cf(x), cf(y), degree_of(f) as int, k), m),
        forall|k: int| in_window(#[trigger] coeff(polymul_spec(x, y, m, f), k), m),
{
    let n = degree_of(f);
    let tx = trim_zeros(x);
    let ty = trim_zeros(y);
    lemma_trim_coeff(x);
    lemma_trim_coeff(y);
    let p = mul_raw(tx, ty);
    let tp = trim_zeros(p);
    lemma_trim_coeff(p);
    let r = reduce_raw(tp, n);
    lemma_mod_coeffs_cong(r, m);
    assert(r.len() <= n) by {
        lemma_reduce_coeff(tp, n, 0);
    }
    assert forall|k: int| 0 <= k < n implies cong(#[trigger] coeff(polymul_spec(x, y, m, f), k), rp(cf(x), cf(y), n as int, k), m) by {
        lemma_reduce_coeff(tp, n, k);
        lemma_fold_two(tp, n, k);
        lemma_mul_coeff(tx, ty, n as int, k);
        lemma_mul_coeff(tx, ty, n as int, k + n);
        let f1 = |i: int| coeff(tx, i) * coeff(ty, k - i);
        let f2 = |i: int| coeff(tx, i) * coeff(ty, k + n - i);
        lemma_sum_sub(f1, f2, 0, n as int);
        lemma_rp_twisted(cf(x), cf(y), n as int, k);
        let tw_terms = |i: int| cf(x)(i) * tw(cf(y), k - i, n as int);
        assert forall|i: int| 0 <= i < n implies #[trigger] tw_terms(i) == f1(i) - f2(i) by {
            if k - i >= 0 {
                assert(coeff(ty, k + n - i) == 0);
            } else {
                assert(coeff(ty, k - i) == 0);
            }
            assert(coeff(x, i) * (coeff(y, k - i) - coeff(y, k - i + n)) == coeff(x, i) * coeff(y, k - i) - coeff(x, i) * coeff(y, k - i + n)) by (nonlinear_arith);
        }
        lemma_sum_ext(tw_terms, |i: int| f1(i) - f2(i), 0, n as int);
        assert(coeff(r, k) == rp(cf(x), cf(y), n as int, k));
    }
}

/// A sum's coefficients, modulo `m`, are the sums of coefficients.
pub proof fn lemma_polyadd_coeffs(x: Seq<int>, y: Seq<int>, m: int, f: Seq<i64>)
    requires
        degree_of(f) >= 1,
        x.len() <= degree_of(f),
        y.len() <= degree_of(f),
        m > 0,
    ensures
        polyadd_spec(x, y, m, f).len() <= degree_of(f),
        forall|k: int| cong(#[trigger] coeff(polyadd_spec(x, y, m, f), k), coeff(x, k) + coeff(y, k), m),
        forall|k: int| in_window(#[trigger] coeff(polyadd_spec(x, y, m, f), k), m),
{
    let n = degree_of(f);
    let tx = trim_zeros(x);
    let ty = trim_zeros(y);
    lemma_trim_coeff(x);
    lemma_trim_coeff(y);
    let a = add_raw(tx, ty);
    let ta = trim_zeros(a);
    lemma_trim_coeff(a);
    assert(reduce_raw(ta, n) == ta);
    lemma_mod_coeffs_cong(ta, m);
    assert forall|k: int| #[trigger] coeff(a, k) == coeff(x, k) + coeff(y, k) by {
        assert(coeff(tx, k) == coeff(x, k));
        assert(coeff(ty, k) == coeff(y, k));
        if 0 <= k < a.len() {
            assert(a[k] == coeff(tx, k) + coeff(ty, k));
        } else if k >= 0 {
            assert(k >= tx.len() && k >= ty.len());
        }
    }
}

/// A negation's coefficients, modulo `m`, are the negated coefficients.
pub proof fn lemma_polyinv_coeffs(x: Seq<int>, m: int)
    requires
        m > 0,
    ensures
        polyinv_spec(x, m).len() <= x.len(),
        forall|k: int| cong(#[trigger] coeff(polyinv_spec(x, m), k), -coeff(x, k), m),
{
    let tx = trim_zeros(x);
    lemma_trim_coeff(x);
    let g = tx.map_values(|c: int| -c);
    lemma_mod_coeffs_cong(g, m);
    assert forall|k: int| #[trigger] coeff(g, k) == -coeff(x, k) by {
        assert(coeff(tx, k) == coeff(x, k));
        if 0 <= k < g.len() {
            assert(g[k] == -tx[k]);
        }
    }
}

/// The scaled message's coefficients, modulo `q`, are `m(k) * q / t`.
pub proof fn lemma_scale_coeffs(mm: Seq<int>, q: int, t: int)
    requires
        q > 0,
        t > 0,
    ensures
        scale_message_spec(mm, q, t).len() <= mm.len(),
        forall|k: int| cong(#[trigger] coeff(scale_message_spec(mm, q, t), k), trunc_div(coeff(mm, k) * q, t), q),
{
    let a = trim_zeros(mm).map_values(|c: int| c * q);
    lemma_trim_coeff(mm);
    lemma_trim_coeff(a);
    lemma_trim_coeff(trim_zeros(a));
    let b = trim_zeros(trim_zeros(a)).map_values(|c: int| trunc_div(c, t));
    lemma_mod_coeffs_cong(b, q);
    assert forall|k: int| #[trigger] coeff(b, k) == trunc_div(coeff(mm, k) * q, t) by {
        let tm = trim_zeros(mm);
        assert(coeff(tm, k) == coeff(mm, k));
        if 0 <= k < a.len() {
            assert(a[k] == tm[k] * q);
            assert(coeff(a, k) == coeff(mm, k) * q);
        } else {
            assert(coeff(tm, k) == 0);
            assert(coeff(mm, k) * q == 0);
            assert(coeff(a, k) == coeff(mm, k) * q);
        }
        let ta = trim_zeros(trim_zeros(a));
        assert(coeff(ta, k) == coeff(a, k));
        if 0 <= k < b.len() {
            assert(b[k] == trunc_div(ta[k], t));
        } else {
            assert(coeff(ta, k) == 0);
            assert(trunc_div(0, t) == 0);
        }
    }
}

// ---------------------------------------------------------------------
// Laws of the ring operations
// ---------------------------------------------------------------------
/// Two congruent centred representatives are equal.
pub proof fn lemma_window_unique(a: int, b: int, m: int)
    requires
        m > 0,
        cong(a, b, m),
        in_window(a, m),
        in_window(b, m),
    ensures
        a == b,
{
    lemma_cong_elim(a, b, m);
    let k = (a - b) / m;
    assert(k == 0) by (nonlinear_arith)
        requires
            a - b == k * m,
            -m < a - b < m,
            m > 0,
    ;
}

/// Reducing the coefficients leaves no trailing zeros.
pub proof fn lemma_reduce_mod_trimmed(r: Seq<int>, m: int)
    requires
        m != 0,
    ensures
        trim_zeros(reduce_mod(r, m)) == reduce_mod(r, m),
{
    if r.len() > 0 {
        lemma_trim_idem(r.map_values(|c: int| centered(c, m)));
    }
}

/// A polynomial with every coefficient zero and no trailing zeros is empty.
proof fn lemma_zero_trimmed(r: Seq<int>)
    requires
        trim_zeros(r) == r,
        forall|k: int| #[trigger] coeff(r, k) == 0,
    ensures
        r == Seq::<int>::empty(),
{
    lemma_trim_prefix(r);
    if r.len() > 0 {
        assert(coeff(r, r.len() - 1) == 0);
    }
}

/// `x` plus its additive inverse is zero, modulo `m` and `f = x^n + 1`, for
/// `x` of degree below `n`.
pub proof fn lemma_add_inverse(x: Seq<int>, m: int, f: Seq<i64>)
    requires
        degree_of(f) >= 1,
        x.len() <= degree_of(f),
        m > 0,
    ensures
        polyadd_spec(x, polyinv_spec(x, m), m, f) == Seq::<int>::empty(),
{
    let inv = polyinv_spec(x, m);
    lemma_polyinv_coeffs(x, m);
    lemma_polyadd_coeffs(x, inv, m, f);
    let r = polyadd_spec(x, inv, m, f);
    assert(trunc_div(m, 2) >= 0);
    assert(in_window(0, m));
    assert forall|k: int| #[trigger] coeff(r, k) == 0 by {
        lemma_cong_refl(coeff(x, k), m);
        assert(cong(coeff(inv, k), -coeff(x, k), m));
        lemma_cong_add(coeff(x, k), coeff(x, k), coeff(inv, k), -coeff(x, k), m);
        assert(cong(coeff(r, k), coeff(x, k) + coeff(inv, k), m));
        lemma_cong_trans(coeff(r, k), coeff(x, k) + coeff(inv, k), 0, m);
        assert(in_window(coeff(r, k), m));
        lemma_window_unique(coeff(r, k), 0, m);
    }
    lemma_reduce_mod_trimmed(
        reduce_raw(trim_zeros(add_raw(trim_zeros(x), trim_zeros(inv))), degree_of(f)),
        m,
    );
    lemma_zero_trimmed(r);
}

/// `1` where `s == k`, `0` elsewhere.
pub open spec fn hit(s: int, k: int) -> int {
    if s == k {
        1
    } else {
        0
    }
}

/// Coefficient `k` of a product as a double sum over pairs of exponents
/// that add up to `k`.
proof fn lemma_mul_double(x: Seq<int>, y: Seq<int>, k: int, n: int)
    requires
        x.len() <= n,
        y.len() <= n,
        0 <= k,
    ensures
        coeff(mul_raw(x, y), k) == sum2(|i: int, j: int| coeff(x, i) * coeff(y, j) * hit(i + j, k), n, n),
{
    let f = |i: int| coeff(x, i) * coeff(y, k - i);
    lemma_mul_coeff(x, y, n, k);
    let g = |i: int, j: int| coeff(x, i) * coeff(y, j) * hit(i + j, k);
    let row = |i: int| sum(|j: int| g(i, j), 0, n);
    assert forall|i: int| 0 <= i < n implies #[trigger] row(i) == f(i) by {
        let gi = |j: int| g(i, j);
        assert forall|j: int| 0 <= j < n && j != k - i implies #[trigger] gi(j) == 0 by {
            assert(hit(i + j, k) == 0);
            assert(coeff(x, i) * coeff(y, j) * 0 == 0) by (nonlinear_arith);
        }
        lemma_sum_single(gi, 0, n, k - i);
        lemma_sum_ext(|j: int| g(i, j), gi, 0, n);
        if 0 <= k - i < n {
            assert(hit(i + (k - i), k) == 1);
            assert(coeff(x, i) * coeff(y, k - i) * 1 == coeff(x, i) * coeff(y, k - i)) by (nonlinear_arith);
        } else {
            assert(coeff(y, k - i) == 0);
            assert(coeff(x, i) * 0 == 0) by (nonlinear_arith);
        }
    }
    lemma_sum_ext(row, f, 0, n);
}

/// The product of coefficient lists does not depend on the order of the
/// factors.
pub proof fn lemma_mul_raw_commutes(x: Seq<int>, y: Seq<int>)
    ensures
        mul_raw(x, y) == mul_raw(y, x),
{
    let n = x.len() + y.len();
    let a = mul_raw(x, y);
    let b = mul_raw(y, x);
    assert forall|k: int| #[trigger] coeff(a, k) == coeff(b, k) by {
        if k >= 0 {
            lemma_mul_double(x, y, k, n as int);
            lemma_mul_double(y, x, k, n as int);
            let gxy = |i: int, j: int| coeff(x, i) * coeff(y, j) * hit(i + j, k);
            let gyx = |i: int, j: int| coeff(y, i) * coeff(x, j) * hit(i + j, k);
            lemma_sum2_swap(gxy, n as int, n as int);
            assert forall|i: int, j: int| 0 <= i < n && 0 <= j < n implies #[trigger] gyx(i, j) == gxy(j, i) by {
                assert(coeff(y, i) * coeff(x, j) * hit(i + j, k) == coeff(x, j) * coeff(y, i) * hit(j + i, k))
                    by (nonlinear_arith);
            }
            lemma_sum2_ext(gyx, |j: int, i: int| gxy(i, j), n as int, n as int);
        }
    }
    assert(a.len() == b.len());
    assert forall|k: int| 0 <= k < a.len() implies a[k] == b[k] by {
        assert(coeff(a, k) == coeff(b, k));
    }
    assert(a =~= b);
}

/// Multiplication modulo `m` and `f` is commutative, for factors of any
/// degree.
pub proof fn lemma_polymul_commutes(x: Seq<int>, y: Seq<int>, m: int, f: Seq<i64>)
    ensures
        polymul_spec(x, y, m, f) == polymul_spec(y, x, m, f),
{
    lemma_mul_raw_commutes(trim_zeros(x), trim_zeros(y));
}

} // verus!
