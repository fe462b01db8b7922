//! Gaussian integers modulo a number, as far as the primality of the field prime needs them.
use vstd::arithmetic::div_mod::{lemma_fundamental_div_mod, lemma_mod_multiples_basic};
use vstd::prelude::*;

verus! {

/// The number `re + im * i`.
pub struct Gauss {
    pub re: int,
    pub im: int,
}

/// Zero.
pub open spec fn g_zero() -> Gauss {
    Gauss { re: 0, im: 0 }
}

/// One.
pub open spec fn g_one() -> Gauss {
    Gauss { re: 1, im: 0 }
}

/// The sum.
pub open spec fn g_add(a: Gauss, b: Gauss) -> Gauss {
    Gauss { re: a.re + b.re, im: a.im + b.im }
}

/// The product.
pub open spec fn g_mul(a: Gauss, b: Gauss) -> Gauss {
    Gauss { re: a.re * b.re - a.im * b.im, im: a.re * b.im + a.im * b.re }
}

/// The product with an integer.
pub open spec fn g_scale(c: int, a: Gauss) -> Gauss {
    Gauss { re: c * a.re, im: c * a.im }
}

/// The conjugate.
pub open spec fn g_conj(a: Gauss) -> Gauss {
    Gauss { re: a.re, im: -a.im }
}

/// The power.
pub open spec fn g_pow(a: Gauss, n: nat) -> Gauss
    decreases n,
{
    if n == 0 {
        g_one()
    } else {
        g_mul(a, g_pow(a, (n - 1) as nat))
    }
}

/// Congruence modulo `m`, part by part.
pub open spec fn congruent(a: Gauss, b: Gauss, m: int) -> bool {
    &&& (a.re - b.re) % m == 0
    &&& (a.im - b.im) % m == 0
}

/// A combination of two multiples is a multiple.
pub proof fn lemma_combine(m: int, a: int, x: int, b: int, y: int)
    requires
        m > 0,
        a % m == 0,
        b % m == 0,
    ensures
        (a * x + b * y) % m == 0,
{
    lemma_fundamental_div_mod(a, m);
    lemma_fundamental_div_mod(b, m);
    let k = (a / m) * x + (b / m) * y;
    assert(a * x + b * y == k * m) by (nonlinear_arith)
        requires
            a == m * (a / m),
            b == m * (b / m),
            k == (a / m) * x + (b / m) * y,
    ;
    lemma_mod_multiples_basic(k, m);
}

/// A multiple of a multiple is a multiple.
pub proof fn lemma_coarser(a: int, m: int, r: int)
    requires
        m > 0,
        r > 0,
        a % m == 0,
        m % r == 0,
    ensures
        a % r == 0,
{
    lemma_fundamental_div_mod(a, m);
    lemma_combine(r, m, a / m, 0, 0);
    assert(a == m * (a / m) + 0 * 0);
}

pub proof fn lemma_mul_commutes(a: Gauss, b: Gauss)
    ensures
        g_mul(a, b) == g_mul(b, a),
{
    assert(a.re * b.re == b.re * a.re) by (nonlinear_arith);
    assert(a.im * b.im == b.im * a.im) by (nonlinear_arith);
    assert(a.re * b.im == b.im * a.re) by (nonlinear_arith);
    assert(a.im * b.re == b.re * a.im) by (nonlinear_arith);
}

pub proof fn lemma_mul_associates(a: Gauss, b: Gauss, c: Gauss)
    ensures
        g_mul(g_mul(a, b), c) == g_mul(a, g_mul(b, c)),
{
    let (x, y, z, w, u, v) = (a.re, a.im, b.re, b.im, c.re, c.im);
    assert((x * z - y * w) * u == x * (z * u) - y * (w * u)) by (nonlinear_arith);
    assert((x * w + y * z) * v == x * (w * v) + y * (z * v)) by (nonlinear_arith);
    assert((x * z - y * w) * v == x * (z * v) - y * (w * v)) by (nonlinear_arith);
    assert((x * w + y * z) * u == x * (w * u) + y * (z * u)) by (nonlinear_arith);
    assert(x * (z * u - w * v) == x * (z * u) - x * (w * v)) by (nonlinear_arith);
    assert(y * (z * v + w * u) == y * (z * v) + y * (w * u)) by (nonlinear_arith);
    assert(x * (z * v + w * u) == x * (z * v) + x * (w * u)) by (nonlinear_arith);
    assert(y * (z * u - w * v) == y * (z * u) - y * (w * v)) by (nonlinear_arith);
}

pub proof fn lemma_mul_distributes(a: Gauss, b: Gauss, c: Gauss)
    ensures
        g_mul(a, g_add(b, c)) == g_add(g_mul(a, b), g_mul(a, c)),
        g_mul(g_add(b, c), a) == g_add(g_mul(b, a), g_mul(c, a)),
{
    let (x, y, z, w, u, v) = (a.re, a.im, b.re, b.im, c.re, c.im);
    assert(x * (z + u) - y * (w + v) == (x * z - y * w) + (x * u - y * v)) by (nonlinear_arith);
    assert(x * (w + v) + y * (z + u) == (x * w + y * z) + (x * v + y * u)) by (nonlinear_arith);
    lemma_mul_commutes(a, b);
    lemma_mul_commutes(a, c);
    lemma_mul_commutes(a, g_add(b, c));
}

pub proof fn lemma_mul_scale(c: int, a: Gauss, b: Gauss)
    ensures
        g_mul(a, g_scale(c, b)) == g_scale(c, g_mul(a, b)),
{
    let (x, y, z, w) = (a.re, a.im, b.re, b.im);
    assert(x * (c * z) - y * (c * w) == c * (x * z - y * w)) by (nonlinear_arith);
    assert(x * (c * w) + y * (c * z) == c * (x * w + y * z)) by (nonlinear_arith);
}

/// Exponents add up.
pub proof fn lemma_pow_adds(a: Gauss, m: nat, n: nat)
    ensures
        g_pow(a, m + n) == g_mul(g_pow(a, m), g_pow(a, n)),
    decreases m,
{
    if m == 0 {
        assert(g_mul(g_one(), g_pow(a, n)) == g_pow(a, n));
    } else {
        lemma_pow_adds(a, (m - 1) as nat, n);
        lemma_mul_associates(a, g_pow(a, (m - 1) as nat), g_pow(a, n));
        assert((m + n - 1) as nat == (m - 1) as nat + n);
    }
}

/// The power of a square is the square of the power.
pub proof fn lemma_pow_square(a: Gauss, n: nat)
    ensures
        g_pow(g_mul(a, a), n) == g_pow(a, 2 * n),
        g_pow(g_mul(a, a), n) == g_mul(g_pow(a, n), g_pow(a, n)),
    decreases n,
{
    if n > 0 {
        let k = (n - 1) as nat;
        lemma_pow_square(a, k);
        lemma_pow_adds(a, 1, 1);
        lemma_pow_one(a);
        lemma_pow_adds(a, 2, 2 * k);
        assert(2 * n == 2 + 2 * k);
    }
    assert(2 * n == n + n);
    lemma_pow_adds(a, n, n);
}

pub proof fn lemma_pow_one(a: Gauss)
    ensures
        g_pow(a, 1) == a,
{
    reveal_with_fuel(g_pow, 2);
    assert(g_mul(a, g_one()) == a) by {
        assert(a.re * 1 - a.im * 0 == a.re);
        assert(a.re * 0 + a.im * 1 == a.im);
    }
}

/// Exponents multiply.
pub proof fn lemma_pow_multiplies(a: Gauss, m: nat, n: nat)
    ensures
        g_pow(a, m * n) == g_pow(g_pow(a, m), n),
    decreases n,
{
    if n == 0 {
        assert(m * n == 0);
    } else {
        let k = (n - 1) as nat;
        lemma_pow_multiplies(a, m, k);
        lemma_pow_adds(a, m, m * k);
        assert(m * n == m + m * k) by (nonlinear_arith)
            requires
                n == k + 1,
        ;
    }
}

pub proof fn lemma_congruent_mul(a: Gauss, b: Gauss, c: Gauss, d: Gauss, m: int)
    requires
        m > 0,
        congruent(a, b, m),
        congruent(c, d, m),
    ensures
        congruent(g_mul(a, c), g_mul(b, d), m),
{
    lemma_combine(m, a.re - b.re, c.re, c.re - d.re, b.re);
    lemma_combine(m, a.im - b.im, c.im, c.im - d.im, b.im);
    lemma_combine(m, a.re - b.re, c.im, c.im - d.im, b.re);
    lemma_combine(m, a.im - b.im, c.re, c.re - d.re, b.im);
    let rr = (a.re - b.re) * c.re + (c.re - d.re) * b.re;
    let ii = (a.im - b.im) * c.im + (c.im - d.im) * b.im;
    let ri = (a.re - b.re) * c.im + (c.im - d.im) * b.re;
    let ir = (a.im - b.im) * c.re + (c.re - d.re) * b.im;
    lemma_combine(m, rr, 1, ii, -1);
    lemma_combine(m, ri, 1, ir, 1);
    assert(g_mul(a, c).re - g_mul(b, d).re == rr * 1 + ii * (-1)) by (nonlinear_arith)
        requires
            rr == (a.re - b.re) * c.re + (c.re - d.re) * b.re,
            ii == (a.im - b.im) * c.im + (c.im - d.im) * b.im,
            g_mul(a, c).re == a.re * c.re - a.im * c.im,
            g_mul(b, d).re == b.re * d.re - b.im * d.im,
    ;
    assert(g_mul(a, c).im - g_mul(b, d).im == ri * 1 + ir * 1) by (nonlinear_arith)
        requires
            ri == (a.re - b.re) * c.im + (c.im - d.im) * b.re,
            ir == (a.im - b.im) * c.re + (c.re - d.re) * b.im,
            g_mul(a, c).im == a.re * c.im + a.im * c.re,
            g_mul(b, d).im == b.re * d.im + b.im * d.re,
    ;
}

pub proof fn lemma_congruent_add(a: Gauss, b: Gauss, c: Gauss, d: Gauss, m: int)
    requires
        m > 0,
        congruent(a, b, m),
        congruent(c, d, m),
    ensures
        congruent(g_add(a, c), g_add(b, d), m),
{
    lemma_combine(m, a.re - b.re, 1, c.re - d.re, 1);
    lemma_combine(m, a.im - b.im, 1, c.im - d.im, 1);
    assert(g_add(a, c).re - g_add(b, d).re == (a.re - b.re) * 1 + (c.re - d.re) * 1);
    assert(g_add(a, c).im - g_add(b, d).im == (a.im - b.im) * 1 + (c.im - d.im) * 1);
}

pub proof fn lemma_congruent_same(a: Gauss, m: int)
    requires
        m > 0,
    ensures
        congruent(a, a, m),
{
    lemma_mod_multiples_basic(0, m);
}

pub proof fn lemma_congruent_swap(a: Gauss, b: Gauss, m: int)
    requires
        m > 0,
        congruent(a, b, m),
    ensures
        congruent(b, a, m),
{
    lemma_combine(m, a.re - b.re, -1, 0, 0);
    lemma_combine(m, a.im - b.im, -1, 0, 0);
    assert(b.re - a.re == (a.re - b.re) * (-1) + 0 * 0);
    assert(b.im - a.im == (a.im - b.im) * (-1) + 0 * 0);
}

pub proof fn lemma_congruent_chain(a: Gauss, b: Gauss, c: Gauss, m: int)
    requires
        m > 0,
        congruent(a, b, m),
        congruent(b, c, m),
    ensures
        congruent(a, c, m),
{
    lemma_combine(m, a.re - b.re, 1, b.re - c.re, 1);
    lemma_combine(m, a.im - b.im, 1, b.im - c.im, 1);
    assert(a.re - c.re == (a.re - b.re) * 1 + (b.re - c.re) * 1);
    assert(a.im - c.im == (a.im - b.im) * 1 + (b.im - c.im) * 1);
}

pub proof fn lemma_congruent_pow(a: Gauss, b: Gauss, n: nat, m: int)
    requires
        m > 0,
        congruent(a, b, m),
    ensures
        congruent(g_pow(a, n), g_pow(b, n), m),
    decreases n,
{
    if n == 0 {
        lemma_congruent_same(g_one(), m);
    } else {
        lemma_congruent_pow(a, b, (n - 1) as nat, m);
        lemma_congruent_mul(a, b, g_pow(a, (n - 1) as nat), g_pow(b, (n - 1) as nat), m);
    }
}

/// A congruence holds modulo every divisor too.
pub proof fn lemma_congruent_coarser(a: Gauss, b: Gauss, m: int, r: int)
    requires
        m > 0,
        r > 0,
        m % r == 0,
        congruent(a, b, m),
    ensures
        congruent(a, b, r),
{
    lemma_coarser(a.re - b.re, m, r);
    lemma_coarser(a.im - b.im, m, r);
}

} // verus!
