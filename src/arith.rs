//! Facts of modular arithmetic and of binary expansions used by the proofs.

use vstd::arithmetic::div_mod::{
    lemma_add_mod_noop, lemma_basic_div, lemma_div_denominator, lemma_div_multiples_vanish_fancy,
    lemma_fundamental_div_mod, lemma_mod_bound, lemma_mod_breakdown, lemma_mod_mod,
    lemma_mod_multiples_vanish, lemma_mod_pos_bound, lemma_mul_mod_noop, lemma_mul_mod_noop_left,
    lemma_mul_mod_noop_right, lemma_small_mod, lemma_mod_twice,
};
use vstd::arithmetic::power::{lemma_pow_adds, lemma_pow_mod_noop, lemma_pow_multiplies, pow};
use vstd::arithmetic::power2::{lemma_pow2, lemma_pow2_adds, lemma_pow2_pos, pow2};
use vstd::prelude::*;

use crate::bignat::bit_of;

verus! {

/// `g^a mod m` times `g^b mod m`, reduced, is `g^(a + b) mod m`.
pub proof fn lemma_pow_mod_product(g: int, a: nat, b: nat, m: int)
    requires
        m > 0,
    ensures
        ((pow(g, a) % m) * (pow(g, b) % m)) % m == pow(g, a + b) % m,
{
    lemma_mul_mod_noop(pow(g, a), pow(g, b), m);
    lemma_pow_adds(g, a, b);
}

/// `(g^a mod m)^b mod m` is `g^(a * b) mod m`.
pub proof fn lemma_pow_of_reduced_pow(g: int, a: nat, b: nat, m: int)
    requires
        m > 0,
    ensures
        pow(pow(g, a) % m, b) % m == pow(g, a * b) % m,
{
    lemma_pow_mod_noop(pow(g, a), b, m);
    lemma_pow_multiplies(g, a, b);
}

/// Taking the low `a + b` bits and then dropping the low `a` leaves bits `a .. a + b`.
pub proof fn lemma_mod_then_div_pow2(x: nat, a: nat, b: nat)
    ensures
        (x % pow2(a + b)) / pow2(a) == (x / pow2(a)) % pow2(b),
{
    lemma_pow2_pos(a);
    lemma_pow2_pos(b);
    lemma_pow2_adds(a, b);
    lemma_mod_breakdown(x as int, pow2(a) as int, pow2(b) as int);
    lemma_mod_pos_bound(x as int, pow2(a) as int);
    lemma_mod_pos_bound(x as int / pow2(a) as int, pow2(b) as int);
    lemma_div_multiples_vanish_fancy(
        (x as int / pow2(a) as int) % pow2(b) as int,
        x as int % pow2(a) as int,
        pow2(a) as int,
    );
}

/// Bit `t` of `x / 2^a` is bit `a + t` of `x`.
pub proof fn lemma_bit_of_shifted(x: nat, a: nat, t: nat)
    ensures
        bit_of(x / pow2(a), t) == bit_of(x, a + t),
{
    lemma_pow2_pos(a);
    lemma_pow2_pos(t);
    lemma_pow2_adds(a, t);
    lemma_div_denominator(x as int, pow2(a) as int, pow2(t) as int);
}

/// A bit of the low `ps` bits of `x` is a bit of `x` below `ps`.
pub proof fn lemma_bit_of_low_bits(x: nat, ps: nat, s: nat)
    ensures
        bit_of(x % pow2(ps), s) == (s < ps && bit_of(x, s)),
{
    lemma_pow2_pos(ps);
    lemma_pow2_pos(s);
    lemma_mod_pos_bound(x as int, pow2(ps) as int);
    if s < ps {
        let d = (ps - s - 1) as nat;
        lemma_mod_then_div_pow2(x, s, (ps - s) as nat);
        assert(s + (ps - s) as nat == ps);
        lemma_pow2_adds(1, d);
        assert(1 + d == (ps - s) as nat);
        lemma_pow2(1);
        assert(pow2(1) == 2) by {
            vstd::arithmetic::power::lemma_pow1(2);
        }
        lemma_pow2_pos(d);
        lemma_mod_mod(x as int / pow2(s) as int, 2, pow2(d) as int);
        assert(pow2((ps - s) as nat) == 2 * pow2(d));
    } else {
        vstd::arithmetic::power::lemma_pow_increases(2, ps, s);
        lemma_pow2(ps);
        lemma_pow2(s);
        lemma_basic_div(x as int % pow2(ps) as int, pow2(s) as int);
    }
}

/// The low `t + 1` bits of `y` are its low `t` bits plus bit `t` in place.
pub proof fn lemma_low_bits_step(y: nat, t: nat)
    ensures
        y % pow2(t + 1) == y % pow2(t) + if bit_of(y, t) { pow2(t) } else { 0 },
{
    lemma_pow2_pos(t);
    lemma_pow2_adds(t, 1);
    lemma_pow2(1);
    assert(pow2(1) == 2) by {
        vstd::arithmetic::power::lemma_pow1(2);
    }
    lemma_mod_breakdown(y as int, pow2(t) as int, 2);
    lemma_mod_pos_bound(y as int / pow2(t) as int, 2);
    let q = (y as int / pow2(t) as int) % 2;
    assert(pow2(t + 1) == pow2(t) * 2);
    assert(y % pow2(t + 1) == pow2(t) * q + y % pow2(t));
    if q == 0 {
        assert(pow2(t) * q == 0);
    } else {
        assert(pow2(t) * q == pow2(t));
    }
}

/// Multiplying by an inverse of `a` and then by `a` gives back the residue.
pub proof fn lemma_cancel_inverse(l: int, inv: int, a: int, n: int)
    requires
        n > 1,
        (inv * a) % n == 1,
    ensures
        (((l * inv) % n) * a) % n == l % n,
{
    lemma_mul_mod_noop_left(l * inv, a, n);
    assert(l * inv * a == l * (inv * a)) by (nonlinear_arith);
    lemma_mul_mod_noop_right(l, inv * a, n);
    assert(l * 1 == l);
}

/// Two numbers below `m1 * m2` that agree modulo `m1` and modulo `m2` are equal,
/// when `m1` is invertible modulo `m2`.
pub proof fn lemma_crt_unique(a: int, b: int, m1: int, m2: int, w: int)
    requires
        m1 > 0,
        m2 > 1,
        0 <= a < m1 * m2,
        0 <= b < m1 * m2,
        a % m1 == b % m1,
        a % m2 == b % m2,
        (w * m1) % m2 == 1,
    ensures
        a == b,
{
    let d = a - b;
    lemma_fundamental_div_mod(a, m1);
    lemma_fundamental_div_mod(b, m1);
    let k = a / m1 - b / m1;
    assert(d == m1 * k) by (nonlinear_arith)
        requires
            a == m1 * (a / m1) + a % m1,
            b == m1 * (b / m1) + b % m1,
            a % m1 == b % m1,
            d == a - b,
            k == a / m1 - b / m1,
    ;
    // m2 divides m1 * k
    lemma_fundamental_div_mod(a, m2);
    lemma_fundamental_div_mod(b, m2);
    let j0 = a / m2 - b / m2;
    assert(d == m2 * j0) by (nonlinear_arith)
        requires
            a == m2 * (a / m2) + a % m2,
            b == m2 * (b / m2) + b % m2,
            a % m2 == b % m2,
            d == a - b,
            j0 == a / m2 - b / m2,
    ;
    // k = w * m1 * k - (w * m1 - 1) * k, and both terms are multiples of m2
    lemma_fundamental_div_mod(w * m1, m2);
    let t = (w * m1) / m2;
    assert(w * m1 == m2 * t + 1);
    assert(k == w * d - m2 * t * k) by (nonlinear_arith)
        requires
            w * m1 == m2 * t + 1,
            d == m1 * k,
    ;
    assert(k == m2 * (w * j0 - t * k)) by (nonlinear_arith)
        requires
            k == w * d - m2 * t * k,
            d == m2 * j0,
    ;
    let j = w * j0 - t * k;
    assert(d == m1 * m2 * j) by (nonlinear_arith)
        requires
            d == m1 * k,
            k == m2 * j,
    ;
    assert(j == 0) by (nonlinear_arith)
        requires
            d == m1 * m2 * j,
            m1 * m2 > 0,
            -(m1 * m2) < d < m1 * m2,
    ;
}

/// Garner's recombination of residues `x1 mod m1` and `x2 mod m2`.
pub proof fn lemma_crt_recombine(x1: int, x2: int, m1: int, m2: int, w: int)
    requires
        m1 > 0,
        m2 > 1,
        0 <= x1 < m1,
        0 <= x2 < m2,
        (w * m1) % m2 == 1,
    ensures
        ({
            let u = (((x2 - x1) % m2) * w) % m2;
            let r = x1 + u * m1;
            &&& 0 <= r < m1 * m2
            &&& r % m1 == x1
            &&& r % m2 == x2
        }),
{
    let d = (x2 - x1) % m2;
    let u = (d * w) % m2;
    let r = x1 + u * m1;
    lemma_mod_bound(x2 - x1, m2);
    lemma_mod_bound(d * w, m2);
    assert(0 <= u * m1 <= (m2 - 1) * m1) by (nonlinear_arith)
        requires
            0 <= u < m2,
            m1 > 0,
    ;
    assert((m2 - 1) * m1 + m1 == m1 * m2) by (nonlinear_arith);
    lemma_mod_multiples_vanish(u, x1, m1);
    assert(m1 * u == u * m1) by (nonlinear_arith);
    lemma_small_mod(x1 as nat, m1 as nat);
    // modulo m2: u * m1 is congruent to d
    lemma_mul_mod_noop_left(d * w, m1, m2);
    assert(d * w * m1 == d * (w * m1)) by (nonlinear_arith);
    lemma_mul_mod_noop_right(d, w * m1, m2);
    assert(d * 1 == d);
    lemma_mod_mod(x2 - x1, m2, 1);
    assert((u * m1) % m2 == d % m2);
    lemma_add_mod_noop(x1, u * m1, m2);
    lemma_add_mod_noop(x1, d, m2);
    lemma_add_mod_noop(x1, x2 - x1, m2);
    lemma_mod_twice(x2 - x1, m2);
    lemma_small_mod(x2 as nat, m2 as nat);
}

} // verus!
