//! What raising to a prime power does modulo that prime.
use crate::pke::gaussian::{
    congruent, g_add, g_mul, g_one, g_pow, g_scale, g_zero, lemma_coarser, lemma_combine,
    lemma_congruent_add, lemma_congruent_chain, lemma_congruent_same, lemma_mul_associates,
    lemma_mul_commutes, lemma_mul_distributes, lemma_mul_scale, Gauss,
};
use vstd::arithmetic::div_mod::{
    lemma_fundamental_div_mod, lemma_mod_bound, lemma_mod_multiples_basic, lemma_small_mod,
};
use vstd::arithmetic::power::{lemma1_pow, lemma_pow1, pow};
use vstd::prelude::*;

verus! {

/// A number above one that nothing between one and itself divides.
pub open spec fn is_prime(n: int) -> bool {
    &&& n > 1
    &&& forall|d: int| 1 < d < n ==> #[trigger] (n % d) != 0
}

/// Every number above one has a prime divisor.
pub proof fn lemma_prime_divisor(n: int) -> (r: int)
    requires
        n > 1,
    ensures
        is_prime(r),
        r <= n,
        n % r == 0,
    decreases n,
{
    if is_prime(n) {
        lemma_mod_multiples_basic(1, n);
        n
    } else {
        let d = choose|d: int| 1 < d < n && #[trigger] (n % d) == 0;
        let r = lemma_prime_divisor(d);
        lemma_coarser(n, d, r);
        r
    }
}

/// A prime that divides a product divides a factor; here the first factor is small.
proof fn lemma_euclid_small(r: int, a: int, b: int)
    requires
        is_prime(r),
        0 < a < r,
        (a * b) % r == 0,
    ensures
        b % r == 0,
    decreases a,
{
    if a > 1 {
        assert(r % a != 0);
        let q = r / a;
        let s = r % a;
        lemma_fundamental_div_mod(r, a);
        lemma_mod_bound(r, a);
        lemma_mod_multiples_basic(1, r);
        lemma_combine(r, r, b, a * b, -q);
        assert(r * b + (a * b) * (-q) == s * b) by (nonlinear_arith)
            requires
                r == a * q + s,
        ;
        lemma_euclid_small(r, s, b);
    } else {
        assert(a * b == b) by (nonlinear_arith)
            requires
                a == 1,
        ;
    }
}

/// A prime that divides a product divides a factor.
pub proof fn lemma_euclid(r: int, a: int, b: int)
    requires
        is_prime(r),
        (a * b) % r == 0,
    ensures
        a % r == 0 || b % r == 0,
{
    if a % r != 0 {
        let q = a / r;
        let s = a % r;
        lemma_fundamental_div_mod(a, r);
        lemma_mod_bound(a, r);
        lemma_mod_multiples_basic(1, r);
        lemma_combine(r, a * b, 1, r, -(q * b));
        assert((a * b) * 1 + r * (-(q * b)) == s * b) by (nonlinear_arith)
            requires
                a == r * q + s,
        ;
        lemma_euclid_small(r, s, b);
    }
}

/// How many ways there are to choose `k` of `n` things.
pub open spec fn binomial(n: nat, k: nat) -> nat
    decreases n,
{
    if k == 0 {
        1
    } else if n == 0 {
        0
    } else {
        binomial((n - 1) as nat, (k - 1) as nat) + binomial((n - 1) as nat, k)
    }
}

proof fn lemma_binomial_edges(n: nat, k: nat)
    ensures
        binomial(n, n) == 1,
        k > n ==> binomial(n, k) == 0,
    decreases n,
{
    if n > 0 {
        lemma_binomial_edges((n - 1) as nat, n);
        if k > n {
            lemma_binomial_edges((n - 1) as nat, (k - 1) as nat);
            lemma_binomial_edges((n - 1) as nat, k);
        }
    }
}

/// Absorption: `k` times a coefficient is `n` times the one before in both places.
proof fn lemma_absorb(n: nat, k: nat)
    requires
        n > 0,
        k > 0,
    ensures
        k * binomial(n, k) == n * binomial((n - 1) as nat, (k - 1) as nat),
    decreases n,
{
    let m = (n - 1) as nat;
    let j = (k - 1) as nat;
    if m == 0 {
        let below = binomial(0, j) + binomial(0, k);
        assert(binomial(n, k) == below);
        assert(k * below == binomial(0, j)) by (nonlinear_arith)
            requires
                k == 1 && below == 1 && binomial(0, j) == 1 || below == 0 && binomial(0, j) == 0,
        ;
    } else {
        lemma_absorb(m, k);
        let l = (m - 1) as nat;
        let a = binomial(m, j) as int;
        let b = binomial(m, k) as int;
        let c = binomial(l, j) as int;
        assert(k * b == m * c);
        if j > 0 {
            lemma_absorb(m, j);
            let d = binomial(l, (j - 1) as nat) as int;
            assert(j * a == m * d);
            assert(a == d + c);
            assert(k * (a + b) == n * a) by (nonlinear_arith)
                requires
                    k == j + 1,
                    n == m + 1,
                    k * b == m * c,
                    j * a == m * d,
                    a == d + c,
            ;
        } else {
            assert(a == 1 && c == 1);
            assert(k * (a + b) == n * a) by (nonlinear_arith)
                requires
                    k == 1,
                    n == m + 1,
                    k * b == m * c,
                    a == 1,
                    c == 1,
            ;
        }
    }
}

/// A prime divides its inner binomial coefficients.
proof fn lemma_binomial_prime(r: int, k: nat)
    requires
        is_prime(r),
        0 < k < r,
    ensures
        binomial(r as nat, k) as int % r == 0,
{
    lemma_absorb(r as nat, k);
    let c = binomial((r - 1) as nat, (k - 1) as nat) as int;
    lemma_mod_multiples_basic(c, r);
    assert(r * c == c * r) by (nonlinear_arith);
    lemma_euclid(r, k as int, binomial(r as nat, k) as int);
    lemma_small_mod(k, r as nat);
}

/// One term of the binomial expansion.
spec fn term(a: Gauss, b: Gauss, n: nat, k: nat) -> Gauss {
    if k > n {
        g_zero()
    } else {
        g_scale(binomial(n, k) as int, g_mul(g_pow(a, k), g_pow(b, (n - k) as nat)))
    }
}

/// The first `m` terms of the binomial expansion.
spec fn terms(a: Gauss, b: Gauss, n: nat, m: nat) -> Gauss
    decreases m,
{
    if m == 0 {
        g_zero()
    } else {
        g_add(terms(a, b, n, (m - 1) as nat), term(a, b, n, (m - 1) as nat))
    }
}

proof fn lemma_zero(a: Gauss)
    ensures
        g_mul(a, g_zero()) == g_zero(),
        g_add(a, g_zero()) == a,
        g_add(g_zero(), a) == a,
        g_scale(1, a) == a,
        g_scale(0, a) == g_zero(),
        g_mul(a, g_one()) == a,
        g_mul(g_one(), a) == a,
{
    assert(a.re * 0 == 0 && a.im * 0 == 0);
    assert(a.re * 1 == a.re && a.im * 1 == a.im);
}

proof fn lemma_term(a: Gauss, b: Gauss, n: nat, k: nat)
    ensures
        term(a, b, n + 1, k) == g_add(
            if k == 0 {
                g_zero()
            } else {
                g_mul(a, term(a, b, n, (k - 1) as nat))
            },
            g_mul(b, term(a, b, n, k)),
        ),
{
    let c = binomial(n, k) as int;
    let lower = if k > n {
        g_zero()
    } else {
        g_mul(g_pow(a, k), g_pow(b, (n - k) as nat))
    };
    if k <= n {
        // One more factor of `b`.
        let p = g_pow(a, k);
        let q = g_pow(b, (n - k) as nat);
        assert((n + 1 - k) as nat == (n - k) as nat + 1);
        assert(g_pow(b, (n + 1 - k) as nat) == g_mul(b, q));
        lemma_mul_associates(p, b, q);
        lemma_mul_commutes(p, b);
        lemma_mul_associates(b, p, q);
        assert(g_mul(p, g_mul(b, q)) == g_mul(b, g_mul(p, q)));
        lemma_mul_scale(c, b, lower);
    } else {
        lemma_zero(b);
        lemma_binomial_edges(n, k);
    }
    if k == 0 {
        lemma_zero(g_mul(b, term(a, b, n, k)));
        lemma_zero(g_mul(b, lower));
    } else {
        let j = (k - 1) as nat;
        let d = binomial(n, j) as int;
        if j <= n {
            // One more factor of `a`.
            let p = g_pow(a, j);
            let q = g_pow(b, (n - j) as nat);
            lemma_mul_associates(a, p, q);
            assert((n + 1 - k) as nat == (n - j) as nat);
            let whole = g_mul(g_pow(a, k), g_pow(b, (n + 1 - k) as nat));
            assert(g_mul(a, g_mul(p, q)) == whole);
            lemma_mul_scale(d, a, g_mul(p, q));
            assert(binomial(n + 1, k) as int == d + c);
            assert((d + c) * whole.re == d * whole.re + c * whole.re) by (nonlinear_arith);
            assert((d + c) * whole.im == d * whole.im + c * whole.im) by (nonlinear_arith);
            if k > n {
                lemma_zero(g_scale(d, whole));
                assert(0 * whole.re == 0 && 0 * whole.im == 0);
            }
        } else {
            lemma_zero(a);
            lemma_zero(g_zero());
        }
    }
}

proof fn lemma_terms(a: Gauss, b: Gauss, n: nat, m: nat)
    ensures
        terms(a, b, n + 1, m + 1) == g_add(
            g_mul(a, terms(a, b, n, m)),
            g_mul(b, terms(a, b, n, m + 1)),
        ),
    decreases m,
{
    lemma_term(a, b, n, m);
    if m == 0 {
        reveal_with_fuel(terms, 2);
        lemma_zero(a);
        lemma_zero(term(a, b, n + 1, 0));
        lemma_zero(term(a, b, n, 0));
        lemma_zero(g_mul(b, term(a, b, n, 0)));
    } else {
        let l = (m - 1) as nat;
        lemma_terms(a, b, n, l);
        lemma_mul_distributes(a, terms(a, b, n, l), term(a, b, n, l));
        lemma_mul_distributes(b, terms(a, b, n, m), term(a, b, n, m));
    }
}

/// The binomial theorem.
proof fn lemma_expansion(a: Gauss, b: Gauss, n: nat)
    ensures
        g_pow(g_add(a, b), n) == terms(a, b, n, n + 1),
    decreases n,
{
    if n == 0 {
        reveal_with_fuel(terms, 2);
        lemma_zero(g_one());
        assert(term(a, b, 0, 0) == g_one());
    } else {
        let m = (n - 1) as nat;
        lemma_expansion(a, b, m);
        lemma_terms(a, b, m, n);
        lemma_zero(terms(a, b, m, n));
        assert(terms(a, b, m, n + 1) == g_add(terms(a, b, m, n), term(a, b, m, n)));
        lemma_mul_distributes(terms(a, b, m, n), a, b);
    }
}

proof fn lemma_inner_terms(a: Gauss, b: Gauss, r: int, m: nat)
    requires
        is_prime(r),
        1 <= m <= r,
    ensures
        congruent(terms(a, b, r as nat, m), g_pow(b, r as nat), r),
    decreases m,
{
    let n = r as nat;
    if m == 1 {
        reveal_with_fuel(terms, 2);
        lemma_zero(g_pow(b, n));
        assert(terms(a, b, n, 1) == g_pow(b, n));
        lemma_congruent_same(g_pow(b, n), r);
    } else {
        let k = (m - 1) as nat;
        lemma_inner_terms(a, b, r, k);
        lemma_binomial_prime(r, k);
        let product = g_mul(g_pow(a, k), g_pow(b, (n - k) as nat));
        let c = binomial(n, k) as int;
        lemma_combine(r, c, product.re, 0, 0);
        lemma_combine(r, c, product.im, 0, 0);
        assert(congruent(term(a, b, n, k), g_zero(), r)) by {
            assert(c * product.re + 0 * 0 == c * product.re);
            assert(c * product.im + 0 * 0 == c * product.im);
        }
        lemma_congruent_add(
            terms(a, b, n, k),
            g_pow(b, n),
            term(a, b, n, k),
            g_zero(),
            r,
        );
        lemma_zero(g_pow(b, n));
    }
}

/// Raising to a prime power is additive modulo the prime.
pub proof fn lemma_additive(a: Gauss, b: Gauss, r: int)
    requires
        is_prime(r),
    ensures
        congruent(
            g_pow(g_add(a, b), r as nat),
            g_add(g_pow(a, r as nat), g_pow(b, r as nat)),
            r,
        ),
{
    let n = r as nat;
    lemma_expansion(a, b, n);
    lemma_inner_terms(a, b, r, n);
    lemma_binomial_edges(n, n);
    lemma_zero(g_pow(a, n));
    assert(term(a, b, n, n) == g_pow(a, n));
    lemma_congruent_same(g_pow(a, n), r);
    lemma_congruent_add(terms(a, b, n, n), g_pow(b, n), term(a, b, n, n), g_pow(a, n), r);
}

/// Powers of an integer, seen as a Gaussian integer.
proof fn lemma_real_pow(x: int, n: nat)
    ensures
        g_pow(Gauss { re: x, im: 0 }, n) == (Gauss { re: pow(x, n), im: 0 }),
    decreases n,
{
    reveal(pow);
    if n > 0 {
        lemma_real_pow(x, (n - 1) as nat);
        assert(x * 0 == 0);
    }
}

/// Fermat: a number raised to a prime power is the number itself, modulo the prime.
pub proof fn lemma_fermat(x: int, r: int)
    requires
        is_prime(r),
        x >= 0,
    ensures
        (pow(x, r as nat) - x) % r == 0,
    decreases x,
{
    let n = r as nat;
    if x == 0 {
        reveal(pow);
        assert(pow(0, n) == 0) by {
            assert(pow(0, n) == 0 * pow(0, (n - 1) as nat));
        }
        lemma_mod_multiples_basic(0, r);
    } else {
        let y = x - 1;
        lemma_fermat(y, r);
        let a = Gauss { re: y, im: 0 };
        let b = g_one();
        lemma_additive(a, b, r);
        lemma_real_pow(x, n);
        lemma_real_pow(y, n);
        lemma_real_pow(1, n);
        lemma1_pow(n);
        assert(g_add(a, b) == (Gauss { re: x, im: 0 }));
        let first = pow(x, n) - (pow(y, n) + 1);
        lemma_combine(r, first, 1, pow(y, n) - y, 1);
        assert(pow(x, n) - x == first * 1 + (pow(y, n) - y) * 1);
    }
}

/// Powers of `i * y` by an odd exponent.
proof fn lemma_imaginary_pow(y: int, n: nat)
    requires
        n % 2 == 1,
    ensures
        g_pow(Gauss { re: 0, im: y }, n) == (Gauss {
            re: 0,
            im: if n % 4 == 1 {
                pow(y, n)
            } else {
                -pow(y, n)
            },
        }),
    decreases n,
{
    reveal(pow);
    let g = Gauss { re: 0, im: y };
    if n == 1 {
        reveal_with_fuel(g_pow, 2);
        lemma_pow1(y);
        lemma_zero(g);
    } else {
        let l = (n - 1) as nat;
        let m = (n - 2) as nat;
        lemma_imaginary_pow(y, m);
        let h = g_pow(g, m);
        assert(g_pow(g, l) == g_mul(g, h));
        assert(g_pow(g, n) == g_mul(g, g_mul(g, h)));
        assert(pow(y, l) == y * pow(y, m));
        assert(pow(y, n) == y * pow(y, l));
        let e = pow(y, m);
        assert(y * (-(y * h.im)) == -(y * (y * h.im))) by (nonlinear_arith);
        assert(y * -e == -(y * e)) by (nonlinear_arith);
        assert(y * -(y * e) == -(y * (y * e))) by (nonlinear_arith);
        assert(0 * h.im == 0 && y * 0 == 0 && 0 * 0 == 0);
    }
}

/// Raising to an odd prime power conjugates modulo the prime, or changes nothing.
pub proof fn lemma_frobenius(x: int, y: int, r: int)
    requires
        is_prime(r),
        r % 2 == 1,
        x >= 0,
        y >= 0,
    ensures
        congruent(
            g_pow(Gauss { re: x, im: y }, r as nat),
            Gauss {
                re: x,
                im: if r % 4 == 1 {
                    y
                } else {
                    -y
                },
            },
            r,
        ),
{
    let n = r as nat;
    let a = Gauss { re: x, im: 0 };
    let b = Gauss { re: 0, im: y };
    assert(g_add(a, b) == (Gauss { re: x, im: y }));
    lemma_additive(a, b, r);
    lemma_real_pow(x, n);
    lemma_imaginary_pow(y, n);
    lemma_fermat(x, r);
    lemma_fermat(y, r);
    let sum = g_add(g_pow(a, n), g_pow(b, n));
    let goal = Gauss {
        re: x,
        im: if r % 4 == 1 {
            y
        } else {
            -y
        },
    };
    lemma_combine(r, pow(y, n) - y, -1, 0, 0);
    assert(-pow(y, n) - (-y) == (pow(y, n) - y) * (-1) + 0 * 0);
    assert(congruent(sum, goal, r));
    lemma_congruent_chain(g_pow(Gauss { re: x, im: y }, n), sum, goal, r);
}

} // verus!
