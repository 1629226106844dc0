//! Polynomials with 64-bit integer coefficients, modulo `x^d + 1` and with
//! centred coefficient reduction: the arithmetic of the ring-LWE scheme.
//! The polynomial arithmetic itself is `polynomial_ring`'s.
use vstd::prelude::*;
use polynomial_ring::Polynomial;
use rand::rngs::StdRng;

verus! {

// ---------------------------------------------------------------------
// Specifications
// ---------------------------------------------------------------------
pub open spec fn ints(s: Seq<i64>) -> Seq<int> {
    s.map_values(|v: i64| v as int)
}

/// Coefficient `i`, zero beyond the end.
pub open spec fn coeff(s: Seq<int>, i: int) -> int {
    if 0 <= i < s.len() {
        s[i]
    } else {
        0
    }
}

/// The coefficients without trailing zeros.
pub open spec fn trim_zeros(s: Seq<int>) -> Seq<int>
    decreases s.len(),
{
    if s.len() > 0 && s.last() == 0 {
        trim_zeros(s.drop_last())
    } else {
        s
    }
}

pub open spec fn max_len(a: Seq<int>, b: Seq<int>) -> nat {
    if a.len() >= b.len() {
        a.len()
    } else {
        b.len()
    }
}

/// Coefficient-wise sum.
pub open spec fn add_raw(x: Seq<int>, y: Seq<int>) -> Seq<int> {
    Seq::new(max_len(x, y), |i: int| coeff(x, i) + coeff(y, i))
}

/// `sum_{j < i} x[j] * y[k - j]`.
pub open spec fn conv(x: Seq<int>, y: Seq<int>, k: int, i: int) -> int
    decreases i,
{
    if i <= 0 {
        0
    } else {
        conv(x, y, k, i - 1) + coeff(x, i - 1) * coeff(y, k - (i - 1))
    }
}

/// The coefficients of the product.
pub open spec fn mul_raw(x: Seq<int>, y: Seq<int>) -> Seq<int> {
    if x.len() == 0 || y.len() == 0 {
        Seq::empty()
    } else {
        Seq::new((x.len() + y.len() - 1) as nat, |k: int| conv(x, y, k, x.len() as int))
    }
}

/// The coefficients of `x^d + 1`.
pub open spec fn ring_modulus(d: nat) -> Seq<int> {
    Seq::new(d + 1, |i: int| if i == 0 || i == d { 1int } else { 0int })
}

/// `x[k] - x[k + d] + x[k + 2d] - ...`
pub open spec fn fold_at(x: Seq<int>, d: nat, k: int) -> int
    decreases (if k < x.len() { x.len() - k } else { 0 }),
{
    if d == 0 || k < 0 || k >= x.len() {
        0
    } else {
        x[k] - fold_at(x, d, k + d)
    }
}

/// The remainder of `x` divided by `x^d + 1`.
pub open spec fn reduce_raw(x: Seq<int>, d: nat) -> Seq<int> {
    if x.len() <= d {
        x
    } else {
        trim_zeros(Seq::new(d, |k: int| fold_at(x, d, k)))
    }
}

/// Rust's truncating integer division.
pub open spec fn trunc_div(a: int, b: int) -> int {
    if a >= 0 {
        if b > 0 {
            a / b
        } else {
            -(a / (-b))
        }
    } else {
        if b > 0 {
            -((-a) / b)
        } else {
            (-a) / (-b)
        }
    }
}

/// The representative of `c` modulo `m` that `mod_coeffs` keeps: the
/// Euclidean remainder, moved below zero when above half of `m`.
pub open spec fn centered(c: int, m: int) -> int {
    let r = c % m;
    if r > trunc_div(m, 2) {
        r - m
    } else {
        r
    }
}

/// What `mod_coeffs` gives.
pub open spec fn mod_coeffs_spec(x: Seq<int>, m: int) -> Seq<int> {
    if x.len() == 0 {
        x
    } else {
        trim_zeros(x.map_values(|c: int| centered(c, m)))
    }
}

/// The magnitude of each coefficient is at most `b`.
pub open spec fn bounded(s: Seq<int>, b: int) -> bool {
    forall|i: int| 0 <= i < s.len() ==> -b <= #[trigger] s[i] <= b
}

/// Each coefficient lies in `[lo, hi)`.
pub open spec fn in_range(s: Seq<int>, lo: int, hi: int) -> bool {
    forall|i: int| 0 <= i < s.len() ==> lo <= #[trigger] s[i] < hi
}

pub open spec fn abs(v: int) -> int {
    if v < 0 {
        -v
    } else {
        v
    }
}

pub open spec fn min_nat(a: nat, b: nat) -> nat {
    if a <= b {
        a
    } else {
        b
    }
}

// ---------------------------------------------------------------------
// The polynomial type
// ---------------------------------------------------------------------
/// A polynomial with 64-bit integer coefficients, lowest degree first.
#[derive(Debug)]
pub struct Poly {
    coeff: Vec<i64>,
}

impl Poly {
    /// The coefficients.
    pub closed spec fn view(&self) -> Seq<i64> {
        self.coeff@
    }

    fn from_vec(coeff: Vec<i64>) -> (r: Poly)
        ensures
            r@ == coeff@,
    {
        Poly { coeff }
    }

    /// The polynomial with these coefficients; trailing zeros are dropped.
    pub fn new(coeff: Vec<i64>) -> (r: Poly)
        ensures
            ints(r@) == trim_zeros(ints(coeff@)),
    {
        Poly { coeff: trimmed(coeff) }
    }

    /// The coefficients, lowest degree first.
    pub fn coeffs(&self) -> (r: &Vec<i64>)
        ensures
            r@ == self@,
    {
        &self.coeff
    }

    /// A copy.
    pub fn copy(&self) -> (r: Poly)
        ensures
            r@ == self@,
    {
        Poly { coeff: self.coeff.clone() }
    }
}


// ---------------------------------------------------------------------
// Bounds
// ---------------------------------------------------------------------
/// The largest magnitude of a coefficient (0 for none).
pub open spec fn max_abs(s: Seq<int>) -> int
    decreases s.len(),
{
    if s.len() == 0 {
        0
    } else {
        let m = max_abs(s.drop_last());
        if abs(s.last()) > m {
            abs(s.last())
        } else {
            m
        }
    }
}

pub proof fn lemma_max_abs(s: Seq<int>)
    ensures
        max_abs(s) >= 0,
        bounded(s, max_abs(s)),
    decreases s.len(),
{
    if s.len() > 0 {
        lemma_max_abs(s.drop_last());
        assert forall|i: int| 0 <= i < s.len() implies -max_abs(s) <= #[trigger] s[i] <= max_abs(s) by {
            if i < s.len() - 1 {
                assert(s.drop_last()[i] == s[i]);
            }
        }
    }
}

pub proof fn lemma_max_abs_le(s: Seq<int>, b: int)
    requires
        bounded(s, b),
        b >= 0,
    ensures
        max_abs(s) <= b,
    decreases s.len(),
{
    if s.len() > 0 {
        assert(bounded(s.drop_last(), b)) by {
            assert forall|i: int| 0 <= i < s.drop_last().len() implies -b <= #[trigger] s.drop_last()[i] <= b by {
                assert(s.drop_last()[i] == s[i]);
            }
        }
        lemma_max_abs_le(s.drop_last(), b);
        assert(-b <= s[s.len() - 1] <= b);
    }
}

pub proof fn lemma_trim_prefix(s: Seq<int>)
    ensures
        trim_zeros(s).len() <= s.len(),
        forall|i: int| 0 <= i < trim_zeros(s).len() ==> #[trigger] trim_zeros(s)[i] == s[i],
        trim_zeros(s).len() > 0 ==> trim_zeros(s).last() != 0,
        forall|i: int| trim_zeros(s).len() <= i < s.len() ==> #[trigger] s[i] == 0,
    decreases s.len(),
{
    if s.len() > 0 && s.last() == 0 {
        lemma_trim_prefix(s.drop_last());
        assert forall|i: int| 0 <= i < trim_zeros(s).len() implies #[trigger] trim_zeros(s)[i] == s[i] by {
            assert(s.drop_last()[i] == s[i]);
        }
        assert forall|i: int| trim_zeros(s).len() <= i < s.len() implies #[trigger] s[i] == 0 by {
            if i < s.len() - 1 {
                assert(s.drop_last()[i] == s[i]);
            }
        }
    }
}

pub proof fn lemma_trim_bounded(s: Seq<int>, b: int)
    requires
        bounded(s, b),
    ensures
        bounded(trim_zeros(s), b),
        max_abs(trim_zeros(s)) <= max_abs(s),
{
    lemma_trim_prefix(s);
    let t = trim_zeros(s);
    assert forall|i: int| 0 <= i < t.len() implies -b <= #[trigger] t[i] <= b by {
        assert(t[i] == s[i]);
    }
    lemma_max_abs(s);
    lemma_max_abs(t);
    assert forall|i: int| 0 <= i < t.len() implies -max_abs(s) <= #[trigger] t[i] <= max_abs(s) by {
        assert(t[i] == s[i]);
    }
    lemma_max_abs_le(t, max_abs(s));
}

pub proof fn lemma_trim_trimmed(s: Seq<int>)
    requires
        s.len() == 0 || s.last() != 0,
    ensures
        trim_zeros(s) == s,
{
}

/// Coefficients that agree as integers agree.
pub proof fn lemma_ints_injective(x: Seq<i64>, y: Seq<i64>)
    requires
        ints(x) == ints(y),
    ensures
        x == y,
{
    assert(x.len() == ints(x).len());
    assert forall|i: int| 0 <= i < x.len() implies x[i] == y[i] by {
        assert(ints(x)[i] == x[i] as int);
        assert(ints(y)[i] == y[i] as int);
    }
    assert(x =~= y);
}

/// Trimming twice is trimming once.
pub proof fn lemma_trim_idem(s: Seq<int>)
    ensures
        trim_zeros(trim_zeros(s)) == trim_zeros(s),
{
    lemma_trim_prefix(s);
    lemma_trim_trimmed(trim_zeros(s));
}

proof fn lemma_product_bound(a: int, b: int, ba: int, bb: int)
    requires
        -ba <= a <= ba,
        -bb <= b <= bb,
    ensures
        -(ba * bb) <= a * b <= ba * bb,
{
    assert(-(ba * bb) <= a * b <= ba * bb) by (nonlinear_arith)
        requires
            -ba <= a <= ba,
            -bb <= b <= bb,
    ;
}

proof fn lemma_conv_bound(x: Seq<int>, y: Seq<int>, k: int, i: int, bx: int, by: int)
    requires
        bounded(x, bx),
        bounded(y, by),
        bx >= 0,
        by >= 0,
        0 <= i,
    ensures
        -(i * (bx * by)) <= conv(x, y, k, i) <= i * (bx * by),
    decreases i,
{
    if i > 0 {
        lemma_conv_bound(x, y, k, i - 1, bx, by);
        let a = coeff(x, i - 1);
        let b = coeff(y, k - (i - 1));
        assert(-bx <= a <= bx);
        assert(-by <= b <= by);
        lemma_product_bound(a, b, bx, by);
        assert(i * (bx * by) == (i - 1) * (bx * by) + bx * by) by (nonlinear_arith);
    }
}

pub proof fn lemma_mul_bound(x: Seq<int>, y: Seq<int>, bx: int, by: int)
    requires
        bounded(x, bx),
        bounded(y, by),
        bx >= 0,
        by >= 0,
    ensures
        bounded(mul_raw(x, y), x.len() * (bx * by)),
        mul_raw(x, y).len() <= x.len() + y.len(),
{
    let m = mul_raw(x, y);
    assert forall|k: int| 0 <= k < m.len() implies -(x.len() * (bx * by)) <= #[trigger] m[k] <= x.len() * (bx * by) by {
        lemma_conv_bound(x, y, k, x.len() as int, bx, by);
    }
}

pub proof fn lemma_add_bound(x: Seq<int>, y: Seq<int>, bx: int, by: int)
    requires
        bounded(x, bx),
        bounded(y, by),
        bx >= 0,
        by >= 0,
    ensures
        bounded(add_raw(x, y), bx + by),
        add_raw(x, y).len() == max_len(x, y),
{
    let a = add_raw(x, y);
    assert forall|k: int| 0 <= k < a.len() implies -(bx + by) <= #[trigger] a[k] <= bx + by by {
        assert(-bx <= coeff(x, k) <= bx);
        assert(-by <= coeff(y, k) <= by);
    }
}

pub proof fn lemma_centered_bound(c: int, m: int)
    requires
        m > 0,
    ensures
        -(m / 2) <= centered(c, m) <= m / 2,
{
    assert(0 <= c % m < m) by (nonlinear_arith)
        requires
            m > 0,
    ;
    assert(trunc_div(m, 2) == m / 2);
}

pub proof fn lemma_mod_coeffs_bound(x: Seq<int>, m: int)
    requires
        m > 0,
    ensures
        bounded(mod_coeffs_spec(x, m), m / 2),
        mod_coeffs_spec(x, m).len() <= x.len(),
{
    if x.len() > 0 {
        let c = x.map_values(|c: int| centered(c, m));
        assert forall|i: int| 0 <= i < c.len() implies -(m / 2) <= #[trigger] c[i] <= m / 2 by {
            lemma_centered_bound(x[i], m);
        }
        lemma_trim_bounded(c, m / 2);
        lemma_trim_prefix(c);
    }
}

// ---------------------------------------------------------------------
// Ring operations
// ---------------------------------------------------------------------
/// `f` is `x^d + 1` for some `d >= 1`.
pub open spec fn is_ring_modulus(f: Seq<i64>) -> bool {
    f.len() >= 2 && ints(f) == ring_modulus((f.len() - 1) as nat)
}

pub open spec fn degree_of(f: Seq<i64>) -> nat {
    (f.len() - 1) as nat
}

/// A modulus `mod_coeffs` accepts for these coefficients.
pub open spec fn modulus_ok(m: int, x: Seq<int>) -> bool {
    &&& m != 0
    &&& m >= -0x4000_0000_0000_0000
    &&& (m == -1 ==> forall|i: int| 0 <= i < x.len() ==> #[trigger] x[i] != i64::MIN)
}

pub open spec fn reduce_mod(r: Seq<int>, m: int) -> Seq<int> {
    if m != 0 {
        mod_coeffs_spec(r, m)
    } else {
        r
    }
}

/// What `polymul` gives.
pub open spec fn polymul_spec(x: Seq<int>, y: Seq<int>, m: int, f: Seq<i64>) -> Seq<int> {
    reduce_mod(reduce_raw(trim_zeros(mul_raw(trim_zeros(x), trim_zeros(y))), degree_of(f)), m)
}

/// What `polyadd` gives.
pub open spec fn polyadd_spec(x: Seq<int>, y: Seq<int>, m: int, f: Seq<i64>) -> Seq<int> {
    reduce_mod(reduce_raw(trim_zeros(add_raw(trim_zeros(x), trim_zeros(y))), degree_of(f)), m)
}

/// What `polyinv` gives.
pub open spec fn polyinv_spec(x: Seq<int>, m: int) -> Seq<int> {
    reduce_mod(trim_zeros(x).map_values(|c: int| -c), m)
}

/// `polymul`'s arithmetic stays within 64 bits.
pub open spec fn mul_fits(x: Seq<int>, y: Seq<int>) -> bool {
    (x.len() + y.len()) * (x.len() * (max_abs(x) * max_abs(y))) <= i64::MAX
}

/// `polyadd`'s arithmetic stays within 64 bits.
pub open spec fn add_fits(x: Seq<int>, y: Seq<int>) -> bool {
    max_len(x, y) * (max_abs(x) + max_abs(y)) <= i64::MAX
}

/// Reduces every coefficient to its centred representative modulo
/// `modulus`, and drops trailing zeros; the zero polynomial is kept as it is.
pub fn mod_coeffs(x: Poly, modulus: i64) -> (r: Poly)
    requires
        modulus_ok(modulus as int, ints(x@)),
    ensures
        ints(r@) == mod_coeffs_spec(ints(x@), modulus as int),
{
    let n = x.coeffs().len();
    if n == 0 {
        return x;
    }
    let half: i64 = if modulus > 0 {
        ((modulus as u64) / 2) as i64
    } else {
        -((((-modulus) as u64) / 2) as i64)
    };
    assert(half == trunc_div(modulus as int, 2));
    let mut out: Vec<i64> = Vec::new();
    let mut i: usize = 0;
    while i < n
        invariant
            n == x@.len(),
            i <= n,
            modulus_ok(modulus as int, ints(x@)),
            half == trunc_div(modulus as int, 2),
            ints(out@) == ints(x@).take(i as int).map_values(|c: int| centered(c, modulus as int)),
        decreases n - i,
    {
        let c = x.coeffs()[i];
        assert(ints(x@)[i as int] == c as int);
        let r0 = c.checked_rem_euclid(modulus);
        let r: i64 = match r0 {
            Some(v) => v,
            None => 0,
        };
        assert(r == (c as int) % (modulus as int));
        assert(0 <= (c as int) % (modulus as int) < abs(modulus as int)) by (nonlinear_arith)
            requires
                modulus != 0,
        ;
        let v: i64 = if r > half {
            r - modulus
        } else {
            r
        };
        out.push(v);
        proof {
            let t = ints(x@).take(i + 1);
            assert(t == ints(x@).take(i as int).push(c as int));
            assert(ints(out@) == ints(x@).take(i as int).map_values(|c: int| centered(c, modulus as int)).push(
                centered(c as int, modulus as int),
            ));
        }
        i = i + 1;
    }
    assert(ints(x@).take(n as int) == ints(x@));
    Poly::new(out)
}

fn reduce_by_modulus(r: Poly, modulus: i64) -> (out: Poly)
    requires
        modulus != 0 ==> modulus_ok(modulus as int, ints(r@)),
    ensures
        ints(out@) == reduce_mod(ints(r@), modulus as int),
{
    if modulus != 0 {
        mod_coeffs(r, modulus)
    } else {
        r
    }
}

proof fn lemma_ints_len(s: Seq<i64>)
    ensures
        ints(s).len() == s.len(),
        forall|i: int| 0 <= i < s.len() ==> #[trigger] ints(s)[i] == s[i] as int,
{
}

/// The product modulo `f = x^d + 1`, with coefficients reduced modulo
/// `modulus` (unless it is 0).
pub fn polymul(x: &Poly, y: &Poly, modulus: i64, f: &Poly) -> (r: Poly)
    requires
        is_ring_modulus(f@),
        mul_fits(ints(x@), ints(y@)),
        modulus != 0 ==> modulus_ok(modulus as int, polymul_spec(ints(x@), ints(y@), 0, f@)),
    ensures
        ints(r@) == polymul_spec(ints(x@), ints(y@), modulus as int, f@),
{
    let ghost xi = ints(x@);
    let ghost yi = ints(y@);
    proof {
        lemma_max_abs(xi);
        lemma_max_abs(yi);
        lemma_ints_len(x@);
        lemma_ints_len(y@);
        assert forall|i: int, j: int| 0 <= i < x@.len() && 0 <= j < y@.len() implies min_nat(x@.len(), y@.len())
            * abs(#[trigger] x@[i] as int) * abs(#[trigger] y@[j] as int) <= i64::MAX by {
            assert(abs(xi[i]) <= max_abs(xi));
            assert(abs(yi[j]) <= max_abs(yi));
            assert(min_nat(x@.len(), y@.len()) * abs(x@[i] as int) * abs(y@[j] as int) <= (xi.len() + yi.len()) * (
            xi.len() * (max_abs(xi) * max_abs(yi)))) by (nonlinear_arith)
                requires
                    abs(x@[i] as int) <= max_abs(xi),
                    abs(y@[j] as int) <= max_abs(yi),
                    0 <= abs(x@[i] as int),
                    0 <= abs(y@[j] as int),
                    min_nat(x@.len(), y@.len()) <= xi.len(),
                    xi.len() <= xi.len() + yi.len(),
            ;
        }
    }
    let prod = outside_mul(x.coeffs(), y.coeffs());
    proof {
        let tx = trim_zeros(xi);
        let ty = trim_zeros(yi);
        lemma_trim_bounded(xi, max_abs(xi));
        lemma_trim_bounded(yi, max_abs(yi));
        lemma_trim_prefix(xi);
        lemma_trim_prefix(yi);
        lemma_max_abs(tx);
        lemma_max_abs(ty);
        let b = tx.len() * (max_abs(tx) * max_abs(ty));
        lemma_mul_bound(tx, ty, max_abs(tx), max_abs(ty));
        let m = mul_raw(tx, ty);
        lemma_trim_bounded(m, b);
        lemma_trim_prefix(m);
        let p = ints(prod@);
        assert(p == trim_zeros(m));
        lemma_ints_len(prod@);
        assert(b <= xi.len() * (max_abs(xi) * max_abs(yi))) by (nonlinear_arith)
            requires
                b == tx.len() * (max_abs(tx) * max_abs(ty)),
                tx.len() <= xi.len(),
                0 <= max_abs(tx) <= max_abs(xi),
                0 <= max_abs(ty) <= max_abs(yi),
        ;
        assert forall|i: int| 0 <= i < prod@.len() implies prod@.len() * abs(#[trigger] prod@[i] as int) <= i64::MAX by {
            assert(-b <= p[i] <= b);
            assert(prod@.len() * abs(prod@[i] as int) <= (xi.len() + yi.len()) * (xi.len() * (max_abs(xi) * max_abs(yi))))
                by (nonlinear_arith)
                requires
                    prod@.len() <= xi.len() + yi.len(),
                    0 <= abs(prod@[i] as int) <= b,
                    b <= xi.len() * (max_abs(xi) * max_abs(yi)),
            ;
        }
    }
    let rem = outside_rem(&prod, f.coeffs(), f.coeffs().len() - 1);
    proof {
        lemma_trim_prefix(ints(prod@));
        lemma_trim_trimmed(ints(prod@));
    }
    reduce_by_modulus(Poly::from_vec(rem), modulus)
}

/// The sum modulo `f = x^d + 1`, with coefficients reduced modulo
/// `modulus` (unless it is 0).
pub fn polyadd(x: &Poly, y: &Poly, modulus: i64, f: &Poly) -> (r: Poly)
    requires
        is_ring_modulus(f@),
        add_fits(ints(x@), ints(y@)),
        modulus != 0 ==> modulus_ok(modulus as int, polyadd_spec(ints(x@), ints(y@), 0, f@)),
    ensures
        ints(r@) == polyadd_spec(ints(x@), ints(y@), modulus as int, f@),
{
    let ghost xi = ints(x@);
    let ghost yi = ints(y@);
    proof {
        lemma_max_abs(xi);
        lemma_max_abs(yi);
        lemma_ints_len(x@);
        lemma_ints_len(y@);
        assert forall|i: int| i64::MIN <= #[trigger] coeff(xi, i) + coeff(yi, i) <= i64::MAX by {
            assert(-max_abs(xi) <= coeff(xi, i) <= max_abs(xi));
            assert(-max_abs(yi) <= coeff(yi, i) <= max_abs(yi));
            if x@.len() > 0 || y@.len() > 0 {
                assert(max_abs(xi) + max_abs(yi) <= max_len(xi, yi) * (max_abs(xi) + max_abs(yi))) by (nonlinear_arith)
                    requires
                        max_len(xi, yi) >= 1,
                        max_abs(xi) + max_abs(yi) >= 0,
                ;
            }
        }
    }
    let sum = outside_add(x.coeffs(), y.coeffs());
    proof {
        let tx = trim_zeros(xi);
        let ty = trim_zeros(yi);
        lemma_trim_bounded(xi, max_abs(xi));
        lemma_trim_bounded(yi, max_abs(yi));
        lemma_trim_prefix(xi);
        lemma_trim_prefix(yi);
        lemma_max_abs(tx);
        lemma_max_abs(ty);
        lemma_add_bound(tx, ty, max_abs(tx), max_abs(ty));
        let a = add_raw(tx, ty);
        let b = max_abs(tx) + max_abs(ty);
        lemma_trim_bounded(a, b);
        lemma_trim_prefix(a);
        let p = ints(sum@);
        lemma_ints_len(sum@);
        assert forall|i: int| 0 <= i < sum@.len() implies sum@.len() * abs(#[trigger] sum@[i] as int) <= i64::MAX by {
            assert(-b <= p[i] <= b);
            assert(sum@.len() * abs(sum@[i] as int) <= max_len(xi, yi) * (max_abs(xi) + max_abs(yi))) by (nonlinear_arith)
                requires
                    sum@.len() <= max_len(xi, yi),
                    0 <= abs(sum@[i] as int) <= b,
                    b <= max_abs(xi) + max_abs(yi),
            ;
        }
    }
    let rem = outside_rem(&sum, f.coeffs(), f.coeffs().len() - 1);
    proof {
        lemma_trim_prefix(ints(sum@));
        lemma_trim_trimmed(ints(sum@));
    }
    reduce_by_modulus(Poly::from_vec(rem), modulus)
}

/// The additive inverse, with coefficients reduced modulo `modulus`
/// (unless it is 0).
pub fn polyinv(x: &Poly, modulus: i64) -> (r: Poly)
    requires
        forall|i: int| 0 <= i < x@.len() ==> #[trigger] x@[i] != i64::MIN,
        modulus != 0 ==> modulus_ok(modulus as int, polyinv_spec(ints(x@), 0)),
    ensures
        ints(r@) == polyinv_spec(ints(x@), modulus as int),
{
    let neg = outside_neg(x.coeffs());
    reduce_by_modulus(Poly::from_vec(neg), modulus)
}

/// The difference modulo `f = x^d + 1`, with coefficients reduced modulo
/// `modulus` (unless it is 0).
pub fn polysub(x: &Poly, y: &Poly, modulus: i64, f: Poly) -> (r: Poly)
    requires
        is_ring_modulus(f@),
        forall|i: int| 0 <= i < y@.len() ==> #[trigger] y@[i] != i64::MIN,
        modulus != 0 ==> modulus_ok(modulus as int, polyinv_spec(ints(y@), 0)),
        add_fits(ints(x@), polyinv_spec(ints(y@), modulus as int)),
        modulus != 0 ==> modulus_ok(
            modulus as int,
            polyadd_spec(ints(x@), polyinv_spec(ints(y@), modulus as int), 0, f@),
        ),
    ensures
        ints(r@) == polyadd_spec(ints(x@), polyinv_spec(ints(y@), modulus as int), modulus as int, f@),
{
    let inv = polyinv(y, modulus);
    polyadd(x, &inv, modulus, &f)
}


/// What `m * q / t` reduced modulo `q` gives: the message lifted to the
/// ciphertext modulus.
pub open spec fn scale_message_spec(m: Seq<int>, q: int, t: int) -> Seq<int> {
    mod_coeffs_spec(trim_zeros(trim_zeros(trim_zeros(m).map_values(|c: int| c * q))).map_values(|c: int| trunc_div(c, t)), q)
}

/// `m * q / t`, coefficients reduced modulo `q`.
pub fn scale_message(m: &Poly, q: i64, t: i64) -> (r: Poly)
    requires
        q > 0,
        t > 0,
        forall|i: int| 0 <= i < m@.len() ==> i64::MIN <= #[trigger] m@[i] * q <= i64::MAX,
    ensures
        ints(r@) == scale_message_spec(ints(m@), q as int, t as int),
{
    let scaled = outside_scale(m.coeffs(), q);
    let divided = outside_divide(&scaled, t);
    mod_coeffs(Poly::from_vec(divided), q)
}

pub proof fn lemma_scale_message_bound(m: Seq<int>, q: int, t: int)
    requires
        q > 0,
    ensures
        bounded(scale_message_spec(m, q, t), q / 2),
        scale_message_spec(m, q, t).len() <= m.len(),
{
    let a = trim_zeros(m).map_values(|c: int| c * q);
    let b = trim_zeros(trim_zeros(a)).map_values(|c: int| trunc_div(c, t));
    lemma_mod_coeffs_bound(b, q);
    lemma_trim_prefix(m);
    lemma_trim_prefix(a);
    lemma_trim_prefix(trim_zeros(a));
}

// ---------------------------------------------------------------------
// Random polynomials
// ---------------------------------------------------------------------
/// The draws a seeded generator makes: `count` samples of the uniform
/// distribution on `[low, high)` from `StdRng::seed_from_u64(seed)`.
pub uninterp spec fn seeded_draws(seed: u64, count: nat, low: int, high: int) -> Seq<int>;

fn random_poly(size: usize, low: i64, high: i64, seed: Option<u64>) -> (r: Poly)
    requires
        low < high,
    ensures
        in_range(ints(r@), low as int, high as int),
        r@.len() <= size,
        seed matches Some(s) ==> ints(r@) == trim_zeros(seeded_draws(s, size as nat, low as int, high as int)),
{
    let coeffs: Vec<i64> = match seed {
        Some(s) => seeded_samples(s, size, low, high),
        None => {
            let mut rng = fresh_rng();
            let mut coeffs: Vec<i64> = Vec::new();
            let mut i: usize = 0;
            while i < size
                invariant
                    low < high,
                    i <= size,
                    coeffs@.len() == i,
                    forall|j: int| 0 <= j < i ==> low <= #[trigger] coeffs@[j] < high,
                decreases size - i,
            {
                let v = sample_uniform(&mut rng, low, high);
                coeffs.push(v);
                i = i + 1;
            }
            coeffs
        },
    };
    let ghost c = ints(coeffs@);
    let r = Poly::new(coeffs);
    proof {
        lemma_trim_prefix(c);
        assert forall|j: int| 0 <= j < ints(r@).len() implies low <= #[trigger] ints(r@)[j] < high by {
            assert(ints(r@)[j] == c[j]);
            assert(c[j] == coeffs@[j] as int);
        }
    }
    r
}

/// A random polynomial of `size` coefficients, each 0 or 1 (trailing zeros
/// dropped); `seed` makes it repeatable.
pub fn gen_binary_poly(size: usize, seed: Option<u64>) -> (r: Poly)
    ensures
        in_range(ints(r@), 0, 2),
        r@.len() <= size,
        seed matches Some(s) ==> ints(r@) == trim_zeros(seeded_draws(s, size as nat, 0, 2)),
{
    random_poly(size, 0, 2, seed)
}

/// A random polynomial of `size` coefficients, each -1, 0 or 1 (trailing
/// zeros dropped); `seed` makes it repeatable.
pub fn gen_ternary_poly(size: usize, seed: Option<u64>) -> (r: Poly)
    ensures
        in_range(ints(r@), -1, 2),
        r@.len() <= size,
        seed matches Some(s) ==> ints(r@) == trim_zeros(seeded_draws(s, size as nat, -1, 2)),
{
    random_poly(size, -1, 2, seed)
}

/// A random polynomial of `size` coefficients, each in `[0, q)` (trailing
/// zeros dropped); `seed` makes it repeatable.
pub fn gen_uniform_poly(size: usize, q: i64, seed: Option<u64>) -> (r: Poly)
    requires
        q > 0,
    ensures
        in_range(ints(r@), 0, q as int),
        r@.len() <= size,
        seed matches Some(s) ==> ints(r@) == trim_zeros(seeded_draws(s, size as nat, 0, q as int)),
{
    random_poly(size, 0, q, seed)
}

/// The nearest integer to `a / b`, halves rounded up, for `b > 0`:
/// `(a + b / 2) / b` with the quotient rounded down.
fn nearest_pos(a: i64, b: i64) -> (r: i64)
    requires
        b > 0,
        a + b / 2 <= i64::MAX,
    ensures
        r as int == (a + b / 2) / (b as int),
{
    let half: i64 = b / 2;
    let num: i64 = a + half;
    if num >= 0 {
        num / b
    } else {
        let m: u64 = if num == i64::MIN { 0x8000_0000_0000_0000u64 } else { (-num) as u64 };
        let bu: u64 = b as u64;
        let q: u64 = (m + (bu - 1)) / bu;
        proof {
            let mi = m as int;
            let bi = b as int;
            let qi = q as int;
            assert(mi == -(num as int));
            vstd::arithmetic::div_mod::lemma_fundamental_div_mod(mi + bi - 1, bi);
            let rr = (mi + bi - 1) % bi;
            assert(mi + bi - 1 == bi * qi + rr);
            assert(0 <= rr < bi);
            // -m = b * (-q) + (b - 1 - rr), with 0 <= b - 1 - rr < b
            assert(-mi == bi * (-qi) + (bi - 1 - rr)) by (nonlinear_arith)
                requires
                    mi + bi - 1 == bi * qi + rr,
            ;
            vstd::arithmetic::div_mod::lemma_fundamental_div_mod_converse(-mi, bi, -qi, bi - 1 - rr);
            assert(qi <= 0x8000_0000_0000_0000) by (nonlinear_arith)
                requires
                    bi * qi <= mi + bi - 1,
                    mi <= 0x8000_0000_0000_0000,
                    bi >= 1,
                    qi >= 0,
            ;
        }
        if q == 0x8000_0000_0000_0000u64 {
            i64::MIN
        } else {
            -(q as i64)
        }
    }
}

/// The nearest integer to `a / b`, halves rounded up: for `b > 0`,
/// `(a + b / 2) / b` with the quotient rounded down; for `b < 0` the same of
/// `-a / -b`.
pub open spec fn nearest_spec(a: int, b: int) -> int {
    if b > 0 {
        (a + b / 2) / b
    } else {
        (-a + (-b) / 2) / (-b)
    }
}

/// The nearest integer to `a / b`.
pub fn nearest_int(a: i64, b: i64) -> (r: i64)
    requires
        b != 0,
        b > 0 ==> a + b / 2 <= i64::MAX,
        b < 0 ==> b != i64::MIN && a != i64::MIN && -a + (-b) / 2 <= i64::MAX,
    ensures
        r as int == nearest_spec(a as int, b as int),
{
    if b > 0 {
        nearest_pos(a, b)
    } else {
        nearest_pos(-a, -b)
    }
}

// ---------------------------------------------------------------------
// polynomial_ring
// ---------------------------------------------------------------------
/// `Polynomial::new(v).coeffs()`: the coefficients without trailing zeros.
#[verifier::external_body]
fn trimmed(v: Vec<i64>) -> (r: Vec<i64>)
    ensures
        ints(r@) == trim_zeros(ints(v@)),
{
    Polynomial::new(v).coeffs().to_vec()
}

/// `Polynomial + Polynomial`: the coefficient-wise sum without trailing zeros.
#[verifier::external_body]
fn outside_add(x: &Vec<i64>, y: &Vec<i64>) -> (r: Vec<i64>)
    requires
        forall|i: int| i64::MIN <= #[trigger] coeff(ints(x@), i) + coeff(ints(y@), i) <= i64::MAX,
    ensures
        ints(r@) == trim_zeros(add_raw(trim_zeros(ints(x@)), trim_zeros(ints(y@)))),
{
    (&Polynomial::new(x.clone()) + &Polynomial::new(y.clone())).coeffs().to_vec()
}

/// `Polynomial * Polynomial`: the product's coefficients without trailing zeros.
#[verifier::external_body]
fn outside_mul(x: &Vec<i64>, y: &Vec<i64>) -> (r: Vec<i64>)
    requires
        forall|i: int, j: int|
            0 <= i < x@.len() && 0 <= j < y@.len() ==> min_nat(x@.len(), y@.len()) * abs(#[trigger] x@[i] as int)
                * abs(#[trigger] y@[j] as int) <= i64::MAX,
    ensures
        ints(r@) == trim_zeros(mul_raw(trim_zeros(ints(x@)), trim_zeros(ints(y@)))),
{
    (&Polynomial::new(x.clone()) * &Polynomial::new(y.clone())).coeffs().to_vec()
}

/// `Polynomial::division` by `x^d + 1`: what remains of the dividend, that is
/// the coefficients `x[k] - x[k + d] + x[k + 2d] - ...` for `k < d`, without
/// trailing zeros; a dividend of degree below `d` is left as it is.
#[verifier::external_body]
fn outside_rem(x: &Vec<i64>, f: &Vec<i64>, d: usize) -> (r: Vec<i64>)
    requires
        d >= 1,
        ints(f@) == ring_modulus(d as nat),
        forall|i: int| 0 <= i < x@.len() ==> x@.len() * abs(#[trigger] x@[i] as int) <= i64::MAX,
    ensures
        ints(r@) == reduce_raw(trim_zeros(ints(x@)), d as nat),
{
    let mut p = Polynomial::new(x.clone());
    p.division(&Polynomial::new(f.clone()));
    p.coeffs().to_vec()
}

/// `-&Polynomial`: each coefficient negated.
#[verifier::external_body]
fn outside_neg(x: &Vec<i64>) -> (r: Vec<i64>)
    requires
        forall|i: int| 0 <= i < x@.len() ==> #[trigger] x@[i] != i64::MIN,
    ensures
        ints(r@) == trim_zeros(ints(x@)).map_values(|c: int| -c),
{
    (-&Polynomial::new(x.clone())).coeffs().to_vec()
}

/// `&Polynomial * scalar`: each coefficient multiplied, trailing zeros dropped.
#[verifier::external_body]
fn outside_scale(x: &Vec<i64>, s: i64) -> (r: Vec<i64>)
    requires
        forall|i: int| 0 <= i < x@.len() ==> i64::MIN <= #[trigger] x@[i] * s <= i64::MAX,
    ensures
        ints(r@) == trim_zeros(trim_zeros(ints(x@)).map_values(|c: int| c * s)),
{
    (&Polynomial::new(x.clone()) * s).coeffs().to_vec()
}

/// `Polynomial / scalar`: each coefficient divided with truncation; trailing
/// zeros are kept.
#[verifier::external_body]
fn outside_divide(x: &Vec<i64>, s: i64) -> (r: Vec<i64>)
    requires
        s > 0,
    ensures
        ints(r@) == trim_zeros(ints(x@)).map_values(|c: int| trunc_div(c, s as int)),
{
    (Polynomial::new(x.clone()) / s).coeffs().to_vec()
}

// ---------------------------------------------------------------------
// Randomness (rand)
// ---------------------------------------------------------------------
#[verifier::external_type_specification]
#[verifier::external_body]
pub struct ExStdRng(StdRng);

/// `Distribution::sample_iter` of `Uniform::new(low, high)` over
/// `StdRng::seed_from_u64(seed)`, its first `count` samples: what the name
/// `seeded_draws` stands for, each in `[low, high)`. In this version of rand
/// `StdRng` is ChaCha12, which rand_chacha documents as deterministic and
/// portable, so the seed and the arguments fix the draws.
#[verifier::external_body]
fn seeded_samples(seed: u64, count: usize, low: i64, high: i64) -> (r: Vec<i64>)
    requires
        low < high,
    ensures
        ints(r@) == seeded_draws(seed, count as nat, low as int, high as int),
        r@.len() == count,
        forall|j: int| 0 <= j < count ==> low <= #[trigger] r@[j] < high,
{
    let between = rand_distr::Uniform::new(low, high).expect("Failed to create uniform distribution");
    let rng = <StdRng as rand::SeedableRng>::seed_from_u64(seed);
    rand_distr::Distribution::sample_iter(between, rng).take(count).collect()
}

/// `StdRng::from_seed`, seeded from the thread's generator.
#[verifier::external_body]
fn fresh_rng() -> StdRng {
    <StdRng as rand::SeedableRng>::from_seed(rand::Rng::random::<[u8; 32]>(&mut rand::rng()))
}

/// `Uniform::new(low, high)` sampled once: a number in `[low, high)`.
#[verifier::external_body]
fn sample_uniform(rng: &mut StdRng, low: i64, high: i64) -> (r: i64)
    requires
        low < high,
    ensures
        low <= r < high,
{
    rand_distr::Distribution::sample(&rand_distr::Uniform::new(low, high).expect("Failed to create uniform distribution"), rng)
}

/// `rand::rng().random::<[u8; 16]>()`: sixteen random bytes.
#[verifier::external_body]
pub fn generate_iv() -> [u8; 16] {
    rand::Rng::random::<[u8; 16]>(&mut rand::rng())
}

/// `rand::rng().random::<[u8; 32]>()`: thirty-two random bytes.
#[verifier::external_body]
pub fn generate_key() -> [u8; 32] {
    rand::Rng::random::<[u8; 32]>(&mut rand::rng())
}

} // verus!
