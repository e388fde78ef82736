//! Laws of the cryptosystem: decryption inverts encryption, the CRT path agrees
//! with the generic one, and the homomorphic operations act on plaintexts as
//! addition and multiplication modulo `n`.

use vstd::arithmetic::div_mod::{
    lemma_div_multiples_vanish, lemma_mod_bound, lemma_mod_multiples_vanish, lemma_mod_pos_bound,
    lemma_mul_mod_noop, lemma_mul_mod_noop_left, lemma_mul_mod_noop_right, lemma_small_mod,
};
use vstd::arithmetic::power::{
    lemma1_pow, lemma_pow0, lemma_pow_distributes, lemma_pow_mod_noop, lemma_pow_multiplies, pow,
};
use vstd::prelude::*;

use crate::bignat::{big_eq, big_mod_inv, big_mod_pow, big_mul, invertible, pow_mod, BigNat};
use crate::cipher::{
    crt_invertible, decrypt_crt_outcome, decrypt_outcome, encode_plain, enc_value, ell, is_crt_part,
    is_decryption,
};
use crate::keygen::{beta_exact, beta_of, keys_from};
use crate::keys::{DecryptionKey, EncryptionKey, PaillierError};

verus! {

/// A matching key pair that decrypts: both keys well formed over the same modulus,
/// `2·alpha` invertible modulo `n`, and `hn^(2·alpha) ≡ 1 (mod n^2)`, so that the
/// random factor of a ciphertext vanishes under the decryption exponent. Keys that
/// `NGen::keys` derives from structured primes have these properties.
pub open spec fn keys_valid(ek: EncryptionKey, dk: DecryptionKey) -> bool {
    &&& ek.wf()
    &&& dk.wf()
    &&& ek.n@ == dk.n@
    &&& ek.nn@ == dk.nn@
    &&& invertible(2 * dk.alpha@, dk.n@)
    &&& pow_mod(ek.hn@, 2 * dk.alpha@, ek.nn@) == 1
}

/// `(1 + m·n)^k ≡ 1 + k·m·n (mod n^2)`.
proof fn lemma_binomial(m: int, n: int, k: nat)
    requires
        n > 0,
    ensures
        pow(1 + m * n, k) % (n * n) == (1 + k * m * n) % (n * n),
    decreases k,
{
    let nn = n * n;
    assert(nn > 0) by (nonlinear_arith)
        requires
            n > 0,
            nn == n * n,
    ;
    if k == 0 {
        lemma_pow0(1 + m * n);
        assert(0 * m * n == 0);
    } else {
        let k1 = (k - 1) as nat;
        lemma_binomial(m, n, k1);
        let a = 1 + m * n;
        let b = 1 + (k1 as int) * m * n;
        assert(pow(a, k) == a * pow(a, k1)) by {
            reveal(pow);
        }
        lemma_mul_mod_noop_right(a, pow(a, k1), nn);
        lemma_mul_mod_noop_right(a, b, nn);
        assert(a * b == nn * (k1 * m * m) + (1 + k * m * n)) by (nonlinear_arith)
            requires
                a == 1 + m * n,
                b == 1 + (k1 as int) * m * n,
                nn == n * n,
                k == k1 + 1,
        ;
        lemma_mod_multiples_vanish(k1 * m * m, 1 + k * m * n, nn);
    }
}

/// Cancelling an invertible factor: residues below `n` that agree after
/// multiplication by `a` are equal.
proof fn lemma_cancel(m1: nat, m2: nat, a: nat, n: nat)
    requires
        n > 1,
        m1 < n,
        m2 < n,
        (m1 * a) % n == (m2 * a) % n,
        invertible(a, n),
    ensures
        m1 == m2,
{
    let x = choose|x: nat| x < n && #[trigger] ((x * a) % n) == 1;
    let ni = n as int;
    let xi = x as int;
    let ai = a as int;
    let p1 = m1 as int;
    let p2 = m2 as int;
    assert((xi * ai) % ni == 1);
    assert((p1 * ai) % ni == (p2 * ai) % ni);
    lemma_mul_mod_noop_left(p1 * ai, xi, ni);
    lemma_mul_mod_noop_left(p2 * ai, xi, ni);
    assert((p1 * ai * xi) % ni == (p2 * ai * xi) % ni);
    assert(p1 * ai * xi == p1 * (xi * ai)) by (nonlinear_arith);
    assert(p2 * ai * xi == p2 * (xi * ai)) by (nonlinear_arith);
    lemma_mul_mod_noop_right(p1, xi * ai, ni);
    lemma_mul_mod_noop_right(p2, xi * ai, ni);
    assert((p1 * (xi * ai)) % ni == (p1 * 1) % ni);
    assert((p2 * (xi * ai)) % ni == (p2 * 1) % ni);
    lemma_small_mod(m1, n);
    lemma_small_mod(m2, n);
    assert(p1 % ni == p2 % ni);
}

#[verifier::spinoff_prover]
/// Under a valid key pair, the decryption exponent takes an encoding of `m` with any
/// random factor to `1 + (2·alpha·m mod n)·n`.
proof fn lemma_decryption_power(ek: EncryptionKey, dk: DecryptionKey, m: nat, r: nat)
    requires
        keys_valid(ek, dk),
    ensures
        ({
            let n = ek.n@;
            let c = (encode_plain(m, n, ek.nn@) * pow_mod(ek.hn@, r, ek.nn@)) % ek.nn@;
            let t = (2 * dk.alpha@ * m) % n;
            &&& pow_mod(c, 2 * dk.alpha@, ek.nn@) == 1 + t * n
            &&& t < n
        }),
{
    let n = ek.n@ as int;
    let nn = ek.nn@ as int;
    let k = 2 * dk.alpha@;
    let ki = k as int;
    let mi = m as int;
    let hn = ek.hn@ as int;
    assert(nn > 1) by (nonlinear_arith)
        requires
            nn == n * n,
            n > 1,
    ;
    let e = encode_plain(m, ek.n@, ek.nn@) as int;
    let h = pow_mod(ek.hn@, r, ek.nn@) as int;
    lemma_mod_bound(pow(hn, r), nn);
    lemma_mod_pos_bound(1 + mi * n, nn);
    lemma_mod_pos_bound(e * h, nn);
    let c = (e * h) % nn;
    // c^k ≡ e^k · h^k
    lemma_pow_mod_noop(e * h, k, nn);
    lemma_pow_distributes(e, h, k);
    lemma_mul_mod_noop(pow(e, k), pow(h, k), nn);
    // e^k ≡ (1 + m·n)^k ≡ 1 + k·m·n
    lemma_pow_mod_noop(1 + mi * n, k, nn);
    lemma_binomial(mi, n, k);
    // h^k ≡ (hn^k)^r ≡ 1
    lemma_pow_mod_noop(pow(hn, r), k, nn);
    lemma_pow_multiplies(hn, r, k);
    lemma_pow_multiplies(hn, k, r);
    assert(r * k == k * r) by (nonlinear_arith);
    lemma_pow_mod_noop(pow(hn, k), r, nn);
    lemma_mod_bound(pow(hn, k), nn);
    assert(pow(hn, k) % nn == 1);
    lemma1_pow(r);
    lemma_small_mod(1, nn as nat);
    assert(h == pow(hn, r) % nn);
    assert(pow(h, k) % nn == pow(pow(hn, r), k) % nn);
    assert(pow(pow(hn, r), k) == pow(hn, k * r));
    assert(pow(hn, k * r) == pow(pow(hn, k), r));
    assert(pow(pow(hn, k), r) % nn == pow(1, r) % nn);
    assert(pow(h, k) % nn == 1);
    lemma_mod_pos_bound(1 + k * m * n, nn);
    assert(pow(c, k) % nn == pow(e * h, k) % nn);
    assert(pow(e * h, k) == pow(e, k) * pow(h, k));
    assert(pow(e * h, k) % nn == ((pow(e, k) % nn) * (pow(h, k) % nn)) % nn);
    assert(pow(e, k) % nn == (1 + ki * mi * n) % nn);
    assert(((1 + ki * mi * n) % nn) * 1 == (1 + ki * mi * n) % nn);
    assert(pow(c, k) % nn == ((1 + ki * mi * n) % nn) % nn);
    vstd::arithmetic::div_mod::lemma_mod_twice(1 + k * m * n, nn);
    // 1 + k·m·n ≡ 1 + t·n with t = k·m mod n
    let t = (ki * mi) % n;
    let j = (ki * mi) / n;
    vstd::arithmetic::div_mod::lemma_fundamental_div_mod(ki * mi, n);
    lemma_mod_pos_bound(ki * mi, n);
    assert(1 + ki * mi * n == nn * j + (1 + t * n)) by (nonlinear_arith)
        requires
            ki * mi == n * j + t,
            nn == n * n,
    ;
    lemma_mod_multiples_vanish(j, 1 + t * n, nn);
    assert(1 + t * n < nn) by (nonlinear_arith)
        requires
            t < n,
            nn == n * n,
            n > 1,
    ;
    lemma_small_mod((1 + t * n) as nat, nn as nat);
    assert(pow_mod(c as nat, k, nn as nat) == 1 + t * n);
}

/// Decryption of an encoding of any `m` with any random factor gives `m mod n`.
pub proof fn lemma_decrypts_encoding(
    ek: EncryptionKey,
    dk: DecryptionKey,
    m: nat,
    r: nat,
    res: Result<BigNat, PaillierError>,
)
    requires
        keys_valid(ek, dk),
        decrypt_outcome(dk, (encode_plain(m, ek.n@, ek.nn@) * pow_mod(ek.hn@, r, ek.nn@)) % ek.nn@, res),
    ensures
        res is Ok && res.unwrap()@ == m % ek.n@,
{
    let n = ek.n@;
    let nn = ek.nn@;
    let k = 2 * dk.alpha@;
    let c = (encode_plain(m, n, nn) * pow_mod(ek.hn@, r, nn)) % nn;
    assert(nn > 1) by (nonlinear_arith)
        requires
            nn == n * n,
            n > 1,
    ;
    lemma_mod_pos_bound((encode_plain(m, n, nn) * pow_mod(ek.hn@, r, nn)) as int, nn as int);
    lemma_decryption_power(ek, dk, m, r);
    let t = (k * m) % n;
    let v = res.unwrap()@;
    assert(is_decryption(n, nn, dk.alpha@, c, v));
    assert(ell(1 + t * n, n) == t) by {
        lemma_div_multiples_vanish(t as int, n as int);
        assert(n * t == t * n) by (nonlinear_arith);
    }
    lemma_small_mod(t, n);
    // (v·k) mod n == (k·m) mod n == ((m mod n)·k) mod n
    lemma_mul_mod_noop_left(m as int, k as int, n as int);
    assert(k * m == m * k) by (nonlinear_arith);
    lemma_mod_pos_bound(m as int, n as int);
    lemma_cancel(v, m % n, k, n);
}

/// Decryption inverts encryption: for every plaintext `m < n` and every random
/// exponent `r`, the ciphertext `enc(m, r)` decrypts to `m`.
pub proof fn lemma_round_trip(
    ek: EncryptionKey,
    dk: DecryptionKey,
    m: nat,
    r: nat,
    res: Result<BigNat, PaillierError>,
)
    requires
        keys_valid(ek, dk),
        m < ek.n@,
        decrypt_outcome(dk, enc_value(ek.n@, ek.nn@, ek.hn@, m, r), res),
    ensures
        res is Ok && res.unwrap()@ == m,
{
    lemma_decrypts_encoding(ek, dk, m, r, res);
    lemma_small_mod(m, ek.n@);
}


/// The product of the encodings of `a` and `b` is the encoding of `a + b`.
proof fn lemma_encodings_multiply(a: nat, b: nat, n: nat, nn: nat)
    requires
        n > 1,
        nn == n * n,
    ensures
        (encode_plain(a, n, nn) * encode_plain(b, n, nn)) % nn == encode_plain(a + b, n, nn),
{
    let ni = n as int;
    let nni = nn as int;
    let ai = a as int;
    let bi = b as int;
    assert(nni > 1) by (nonlinear_arith)
        requires
            nni == ni * ni,
            ni > 1,
    ;
    lemma_mul_mod_noop(1 + ai * ni, 1 + bi * ni, nni);
    assert((1 + ai * ni) * (1 + bi * ni) == nni * (ai * bi) + (1 + (ai + bi) * ni)) by (nonlinear_arith)
        requires
            nni == ni * ni,
    ;
    lemma_mod_multiples_vanish(ai * bi, 1 + (ai + bi) * ni, nni);
}

/// The product of two ciphertexts is an encoding of the sum of their plaintexts with
/// the sum of their random exponents.
proof fn lemma_ciphertexts_multiply(n: nat, nn: nat, hn: nat, a: nat, r1: nat, b: nat, r2: nat)
    requires
        n > 1,
        nn == n * n,
    ensures
        (enc_value(n, nn, hn, a, r1) * enc_value(n, nn, hn, b, r2)) % nn == (encode_plain(a + b, n, nn)
            * pow_mod(hn, r1 + r2, nn)) % nn,
{
    let nni = nn as int;
    assert(nni > 1) by (nonlinear_arith)
        requires
            nni == nn,
            nn == n * n,
            n > 1,
    ;
    let x = encode_plain(a, n, nn) as int;
    let z = encode_plain(b, n, nn) as int;
    lemma_mod_bound(pow(hn as int, r1), nni);
    lemma_mod_bound(pow(hn as int, r2), nni);
    let y = pow(hn as int, r1) % nni;
    let w = pow(hn as int, r2) % nni;
    lemma_mul_mod_noop(x * y, z * w, nni);
    assert(x * y * (z * w) == (x * z) * (y * w)) by (nonlinear_arith);
    lemma_mul_mod_noop(x * z, y * w, nni);
    lemma_encodings_multiply(a, b, n, nn);
    crate::arith::lemma_pow_mod_product(hn as int, r1, r2, nni);
    lemma_mod_bound((x * z), nni);
}

/// Homomorphic addition: the product of encryptions of `a` and `b` decrypts to
/// `(a + b) mod n`.
pub proof fn lemma_homomorphic_add(
    ek: EncryptionKey,
    dk: DecryptionKey,
    a: nat,
    r1: nat,
    b: nat,
    r2: nat,
    sum: nat,
    res: Result<BigNat, PaillierError>,
)
    requires
        keys_valid(ek, dk),
        a < ek.n@,
        b < ek.n@,
        sum == (enc_value(ek.n@, ek.nn@, ek.hn@, a, r1) * enc_value(ek.n@, ek.nn@, ek.hn@, b, r2)) % ek.nn@,
        decrypt_outcome(dk, sum, res),
    ensures
        res is Ok && res.unwrap()@ == (a + b) % ek.n@,
{
    lemma_ciphertexts_multiply(ek.n@, ek.nn@, ek.hn@, a, r1, b, r2);
    lemma_decrypts_encoding(ek, dk, a + b, r1 + r2, res);
}

/// Homomorphic multiplication: an encryption of `a` raised to `b` decrypts to
/// `(a · b) mod n`.
pub proof fn lemma_homomorphic_mul(
    ek: EncryptionKey,
    dk: DecryptionKey,
    a: nat,
    r: nat,
    b: nat,
    prod: nat,
    res: Result<BigNat, PaillierError>,
)
    requires
        keys_valid(ek, dk),
        a < ek.n@,
        b < ek.n@,
        prod == pow_mod(enc_value(ek.n@, ek.nn@, ek.hn@, a, r), b, ek.nn@),
        decrypt_outcome(dk, prod, res),
    ensures
        res is Ok && res.unwrap()@ == (a * b) % ek.n@,
{
    let n = ek.n@;
    let nn = ek.nn@;
    let nni = nn as int;
    let hn = ek.hn@ as int;
    assert(nni > 1) by (nonlinear_arith)
        requires
            nni == nn,
            nn == n * n,
            n > 1,
    ;
    let x = encode_plain(a, n, nn) as int;
    lemma_mod_bound(pow(hn, r), nni);
    let y = pow(hn, r) % nni;
    lemma_mod_bound(x * y, nni);
    // (x·y mod nn)^b ≡ x^b · y^b
    lemma_pow_mod_noop(x * y, b, nni);
    lemma_pow_distributes(x, y, b);
    lemma_mul_mod_noop(pow(x, b), pow(y, b), nni);
    // x^b ≡ (1 + a·n)^b ≡ 1 + b·a·n
    lemma_pow_mod_noop(1 + (a as int) * (n as int), b, nni);
    lemma_binomial(a as int, n as int, b);
    assert((b as int) * (a as int) * (n as int) == ((a * b) as int) * (n as int)) by (nonlinear_arith);
    // y^b ≡ hn^(r·b)
    lemma_pow_mod_noop(pow(hn, r), b, nni);
    lemma_pow_multiplies(hn, r, b);
    lemma_mod_bound(pow(hn, r * b), nni);
    lemma_mod_bound(1 + ((a * b) as int) * (n as int), nni);
    assert(prod == (encode_plain(a * b, n, nn) * pow_mod(ek.hn@, r * b, nn)) % nn);
    lemma_decrypts_encoding(ek, dk, a * b, r * b, res);
}


/// A ciphertext that the trapdoor exponent takes to `1 (mod n)`, as every
/// encryption under a valid key pair is.
pub open spec fn valid_ciphertext(dk: DecryptionKey, c: nat) -> bool {
    c < dk.nn@ && pow_mod(c, 2 * dk.alpha@, dk.nn@) % dk.n@ == 1
}

/// Every encryption under a valid key pair is a valid ciphertext.
pub proof fn lemma_encryptions_are_valid(ek: EncryptionKey, dk: DecryptionKey, m: nat, r: nat)
    requires
        keys_valid(ek, dk),
    ensures
        valid_ciphertext(dk, enc_value(ek.n@, ek.nn@, ek.hn@, m, r)),
{
    let n = ek.n@ as int;
    let nn = ek.nn@ as int;
    assert(nn > 1) by (nonlinear_arith)
        requires
            nn == n * n,
            n > 1,
    ;
    lemma_decryption_power(ek, dk, m, r);
    let t = ((2 * dk.alpha@ * m) % ek.n@) as int;
    lemma_mod_multiples_vanish(t, 1, n);
    assert(n * t == t * n) by (nonlinear_arith);
    lemma_small_mod(1, n as nat);
    lemma_mod_bound((encode_plain(m, ek.n@, ek.nn@) * pow_mod(ek.hn@, r, ek.nn@)) as int, nn);
}

/// The share of prime `x` in the CRT decryption of a valid ciphertext is the
/// generic decryption taken modulo `x`.
proof fn lemma_crt_share(c: nat, alpha: nat, x: nat, y: nat, m: nat, v: nat)
    requires
        x > 1,
        y > 1,
        c < (x * y) * (x * y),
        pow_mod(c, 2 * alpha, (x * y) * (x * y)) % (x * y) == 1,
        m < x * y,
        (m * (2 * alpha)) % (x * y) == ell(pow_mod(c, 2 * alpha, (x * y) * (x * y)), x * y) % (x * y),
        is_crt_part(c, alpha, x, y, v),
        invertible(2 * alpha * y, x),
    ensures
        v == m % x,
{
    let xi = x as int;
    let yi = y as int;
    let n = xi * yi;
    let nn = n * n;
    let k2 = (2 * alpha) as int;
    assert(n > 1 && nn > 1 && xi * xi > 1) by (nonlinear_arith)
        requires
            xi > 1,
            yi > 1,
            n == xi * yi,
            nn == n * n,
    ;
    let u = pow_mod(c, 2 * alpha, (x * y) * (x * y)) as int;
    lemma_mod_bound(pow(c as int, 2 * alpha), nn);
    // u = 1 + k·n with k < n
    let k = u / n;
    vstd::arithmetic::div_mod::lemma_fundamental_div_mod(u, n);
    assert(u == n * k + 1);
    assert(0 <= k < n) by (nonlinear_arith)
        requires
            u == n * k + 1,
            0 <= u < nn,
            nn == n * n,
            n > 1,
    ;
    assert(ell(u as nat, n as nat) == k) by {
        lemma_div_multiples_vanish(k, n);
    }
    lemma_small_mod(k as nat, n as nat);
    // the share's power is u mod x^2
    let xx = xi * xi;
    let yy = yi * yi;
    assert(nn == xx * yy) by (nonlinear_arith)
        requires
            nn == n * n,
            n == xi * yi,
            xx == xi * xi,
            yy == yi * yi,
    ;
    assert(yy > 0) by (nonlinear_arith)
        requires
            yy == yi * yi,
            yi > 1,
    ;
    vstd::arithmetic::div_mod::lemma_mod_mod(pow(c as int, 2 * alpha), xx, yy);
    let ux = u % xx;
    assert(pow_mod(c, 2 * alpha, x * x) == ux);
    // u = 1 + s·x + x^2·j with s = k·y mod x
    let s = (k * yi) % xi;
    let j = (k * yi) / xi;
    vstd::arithmetic::div_mod::lemma_fundamental_div_mod(k * yi, xi);
    lemma_mod_pos_bound(k * yi, xi);
    assert(u == xx * j + (1 + s * xi)) by (nonlinear_arith)
        requires
            u == n * k + 1,
            n == xi * yi,
            k * yi == xi * j + s,
            xx == xi * xi,
    ;
    lemma_mod_multiples_vanish(j, 1 + s * xi, xx);
    assert(1 + s * xi < xx) by (nonlinear_arith)
        requires
            0 <= s < xi,
            xx == xi * xi,
            xi > 1,
    ;
    lemma_small_mod((1 + s * xi) as nat, xx as nat);
    assert(ell(ux as nat, x) == s) by {
        lemma_div_multiples_vanish(s, xi);
        assert(xi * s == s * xi) by (nonlinear_arith);
    }
    lemma_small_mod(s as nat, x);
    // generic: m·2α ≡ k (mod n), so m·2α·y ≡ k·y ≡ s (mod x)
    let mi = m as int;
    assert((mi * k2) % n == k);
    vstd::arithmetic::div_mod::lemma_mod_mod(mi * k2, xi, yi);
    vstd::arithmetic::div_mod::lemma_mod_mod(k, xi, yi);
    assert((mi * k2) % xi == k % xi);
    lemma_mul_mod_noop_left(mi * k2, yi, xi);
    lemma_mul_mod_noop_left(k, yi, xi);
    assert((mi * k2 * yi) % xi == s);
    lemma_mul_mod_noop_left(mi, k2 * yi, xi);
    assert(mi * k2 * yi == mi * (k2 * yi)) by (nonlinear_arith);
    lemma_mod_pos_bound(mi, xi);
    assert(((m % x) * (2 * alpha * y)) % x == s);
    assert((v * (2 * alpha * y)) % x == s);
    lemma_cancel(v, m % x, 2 * alpha * y, x);
}

/// CRT decryption agrees with generic decryption on every valid ciphertext.
pub proof fn lemma_crt_agrees(
    dk: DecryptionKey,
    c: nat,
    generic: Result<BigNat, PaillierError>,
    crt: Result<BigNat, PaillierError>,
)
    requires
        dk.wf(),
        invertible(2 * dk.alpha@, dk.n@),
        crt_invertible(dk),
        valid_ciphertext(dk, c),
        decrypt_outcome(dk, c, generic),
        decrypt_crt_outcome(dk, c, crt),
    ensures
        generic is Ok && crt is Ok && generic.unwrap()@ == crt.unwrap()@,
{
    let p = dk.p@;
    let q = dk.q@;
    let m = generic.unwrap()@;
    let v = crt.unwrap()@;
    assert(q * p == p * q) by (nonlinear_arith);
    lemma_crt_share(c, dk.alpha@, p, q, m, v % p);
    lemma_crt_share(c, dk.alpha@, q, p, m, v % q);
    let w = choose|w: nat| w < q && #[trigger] ((w * p) % q) == 1;
    crate::arith::lemma_crt_unique(m as int, v as int, p as int, q as int, w as int);
}


/// Both decryption paths invert encryption: for every plaintext `m < n` and random
/// exponent `r`, generic and CRT decryption of `enc(m, r)` give `m`.
pub proof fn lemma_round_trip_both_paths(
    ek: EncryptionKey,
    dk: DecryptionKey,
    m: nat,
    r: nat,
    generic: Result<BigNat, PaillierError>,
    crt: Result<BigNat, PaillierError>,
)
    requires
        keys_valid(ek, dk),
        crt_invertible(dk),
        m < ek.n@,
        decrypt_outcome(dk, enc_value(ek.n@, ek.nn@, ek.hn@, m, r), generic),
        decrypt_crt_outcome(dk, enc_value(ek.n@, ek.nn@, ek.hn@, m, r), crt),
    ensures
        generic is Ok && generic.unwrap()@ == m,
        crt is Ok && crt.unwrap()@ == m,
{
    lemma_round_trip(ek, dk, m, r, generic);
    lemma_encryptions_are_valid(ek, dk, m, r);
    lemma_crt_agrees(dk, enc_value(ek.n@, ek.nn@, ek.hn@, m, r), generic, crt);
}

/// Whether the key pair is valid in the sense of `keys_valid`, so that the laws above
/// apply to it.
pub fn check_key_pair(ek: &EncryptionKey, dk: &DecryptionKey) -> (r: bool)
    ensures
        r == keys_valid(*ek, *dk),
{
    if !ek.check() || !dk.check() || !big_eq(&ek.n, &dk.n) || !big_eq(&ek.nn, &dk.nn) {
        return false;
    }
    proof {
        assert(ek.nn@ > 1) by (nonlinear_arith)
            requires
                ek.nn@ == ek.n@ * ek.n@,
                ek.n@ > 1,
        ;
    }
    let da = big_mul(&BigNat::from_u64(2), &dk.alpha);
    big_mod_inv(&da, &dk.n).is_some() && big_eq(&big_mod_pow(&ek.hn, &da, &ek.nn), &BigNat::from_u64(1))
}


/// `(b + k·n)^m ≡ b^m + m·k·n·b^(m-1) (mod n^2)`.
proof fn lemma_lift_expansion(b: int, k: int, n: int, m: nat)
    requires
        m >= 1,
        n > 0,
    ensures
        (pow(b + k * n, m) - pow(b, m) - m * k * n * pow(b, (m - 1) as nat)) % (n * n) == 0,
    decreases m,
{
    let nn = n * n;
    assert(nn > 0) by (nonlinear_arith)
        requires
            n > 0,
            nn == n * n,
    ;
    if m == 1 {
        vstd::arithmetic::power::lemma_pow1(b + k * n);
        vstd::arithmetic::power::lemma_pow1(b);
        lemma_pow0(b);
        assert(pow(b + k * n, m) - pow(b, m) - m * k * n * pow(b, (m - 1) as nat) == 0);
    } else {
        let m1 = (m - 1) as nat;
        lemma_lift_expansion(b, k, n, m1);
        let a = pow(b + k * n, m1);
        let bb = pow(b, m1);
        let c = pow(b, (m1 - 1) as nat);
        let x = a - bb - m1 * k * n * c;
        vstd::arithmetic::div_mod::lemma_fundamental_div_mod(x, nn);
        let t = x / nn;
        assert(x == nn * t);
        assert(pow(b + k * n, m) == (b + k * n) * a) by {
            reveal(pow);
        }
        assert(pow(b, m) == b * bb) by {
            reveal(pow);
        }
        assert(bb == b * c) by {
            reveal(pow);
        }
        assert((m - 1) as nat == m1);
        let t2 = b * t + m1 * k * k * c + k * n * t;
        assert(a == b * c + m1 * k * n * c + nn * t);
        assert((b + k * n) * a == b * (b * c) + b * (m1 * k * n * c) + b * (nn * t) + (k * n) * (b * c) + (k * n) * (
        m1 * k * n * c) + (k * n) * (nn * t)) by (nonlinear_arith)
            requires
                a == b * c + m1 * k * n * c + nn * t,
        ;
        assert(m * k * n * bb == (m1 * k * n) * (b * c) + (k * n) * (b * c)) by (nonlinear_arith)
            requires
                bb == b * c,
                m == m1 + 1,
        ;
        assert(b * (m1 * k * n * c) == (m1 * k * n) * (b * c)) by (nonlinear_arith);
        assert(b * (nn * t) == nn * (b * t)) by (nonlinear_arith);
        assert((k * n) * (m1 * k * n * c) == nn * (m1 * k * k * c)) by (nonlinear_arith)
            requires
                nn == n * n,
        ;
        assert((k * n) * (nn * t) == nn * (k * n * t)) by (nonlinear_arith);
        assert(nn * (b * t) + nn * (m1 * k * k * c) + nn * (k * n * t) == nn * t2) by (nonlinear_arith)
            requires
                t2 == b * t + m1 * k * k * c + k * n * t,
        ;
        assert(b * bb == b * (b * c));
        assert((b + k * n) * a - b * bb - m * k * n * bb == nn * t2);
        vstd::arithmetic::div_mod::lemma_mod_multiples_basic(t2, nn);
        assert(t2 * nn == nn * t2) by (nonlinear_arith);
    }
}

/// Values congruent modulo `n` have `n`-th powers congruent modulo `n^2`.
proof fn lemma_lift_power(b: int, k: int, n: int)
    requires
        n > 0,
    ensures
        pow(b + k * n, n as nat) % (n * n) == pow(b, n as nat) % (n * n),
{
    let nn = n * n;
    assert(nn > 0) by (nonlinear_arith)
        requires
            n > 0,
            nn == n * n,
    ;
    lemma_lift_expansion(b, k, n, n as nat);
    let x = pow(b + k * n, n as nat) - pow(b, n as nat) - n * k * n * pow(b, (n - 1) as nat);
    vstd::arithmetic::div_mod::lemma_fundamental_div_mod(x, nn);
    let t = x / nn;
    let u = t + k * pow(b, (n - 1) as nat);
    assert(pow(b + k * n, n as nat) == nn * u + pow(b, n as nat)) by (nonlinear_arith)
        requires
            x == pow(b + k * n, n as nat) - pow(b, n as nat) - n * k * n * pow(b, (n - 1) as nat),
            x == nn * t,
            nn == n * n,
            u == t + k * pow(b, (n - 1) as nat),
    ;
    lemma_mod_multiples_vanish(u, pow(b, n as nat), nn);
}

/// For a key pair derived from `y`, the condition `hn^(2·alpha) ≡ 1 (mod n^2)` of
/// `keys_valid` is Euler's `y^((p-1)(q-1)·n) ≡ 1 (mod n^2)`: the two powers agree.
pub proof fn lemma_derived_trapdoor_power(
    ek: EncryptionKey,
    dk: DecryptionKey,
    alpha_size: usize,
    p: nat,
    q: nat,
    div_p: nat,
    div_q: nat,
    y: nat,
)
    requires
        p > 1,
        q > 1,
        div_p > 0,
        div_q > 0,
        beta_exact(p, q, div_p, div_q),
        keys_from(ek, dk, alpha_size, p * q, p, q, div_p, div_q, y),
    ensures
        pow_mod(ek.hn@, 2 * dk.alpha@, ek.nn@) == pow_mod(y, ((p - 1) * (q - 1) * (p * q)) as nat, ek.nn@),
{
    let n = (p * q) as int;
    let nn = n * n;
    assert(n > 1 && nn > 0) by (nonlinear_arith)
        requires
            n == p * q,
            p > 1,
            q > 1,
            nn == n * n,
    ;
    let beta = beta_of(p, q, div_p, div_q);
    let e1 = 2 * beta;
    let yy = pow(y as int, e1);
    let h = ek.h@ as int;
    let k2 = 2 * dk.alpha@;
    // h = y^(2β) mod n, so y^(2β) = h + j·n
    vstd::arithmetic::power::lemma_pow_positive(y as int + 1, 0);
    lemma_mod_bound(yy, n);
    vstd::arithmetic::div_mod::lemma_fundamental_div_mod(yy, n);
    let j = yy / n;
    assert(yy == h + j * n) by (nonlinear_arith)
        requires
            yy == n * j + yy % n,
            h == yy % n,
    ;
    lemma_lift_power(h, j, n);
    // hn^(2α) ≡ (h^n)^(2α) ≡ (yy^n)^(2α) = y^(2β·n·2α)
    lemma_mod_bound(pow(h, n as nat), nn);
    lemma_pow_mod_noop(pow(h, n as nat), k2, nn);
    lemma_pow_mod_noop(pow(yy, n as nat), k2, nn);
    assert(pow(ek.hn@ as int, k2) % nn == pow(pow(yy, n as nat), k2) % nn);
    lemma_pow_multiplies(y as int, e1, n as nat);
    lemma_pow_multiplies(y as int, e1 * (n as nat), k2);
    // 2β·n·2α = (p-1)(q-1)·n
    let phi = ((p - 1) * (q - 1)) as nat;
    assert(4 * div_p * div_q > 0) by (nonlinear_arith)
        requires
            div_p > 0,
            div_q > 0,
    ;
    vstd::arithmetic::div_mod::lemma_fundamental_div_mod(phi as int, (4 * div_p * div_q) as int);
    assert(phi == (4 * div_p * div_q) * beta);
    assert(e1 * (n as nat) * k2 == phi * (n as nat)) by (nonlinear_arith)
        requires
            phi == (4 * div_p * div_q) * beta,
            e1 == 2 * beta,
            k2 == 2 * (div_p * div_q),
    ;
}


/// A key pair derived from `(p, q, div_p, div_q)` and `y` is valid exactly when
/// `2·alpha` is invertible modulo `n` and `y^((p-1)(q-1)·n) ≡ 1 (mod n^2)`, which
/// Euler's theorem gives for distinct primes `p`, `q` and `y` coprime to `n`.
pub proof fn lemma_derived_keys_valid(
    ek: EncryptionKey,
    dk: DecryptionKey,
    alpha_size: usize,
    p: nat,
    q: nat,
    div_p: nat,
    div_q: nat,
    y: nat,
)
    requires
        p > 1,
        q > 1,
        div_p > 0,
        div_q > 0,
        beta_exact(p, q, div_p, div_q),
        keys_from(ek, dk, alpha_size, p * q, p, q, div_p, div_q, y),
    ensures
        keys_valid(ek, dk) == (invertible(2 * dk.alpha@, p * q) && pow_mod(
            y,
            ((p - 1) * (q - 1) * (p * q)) as nat,
            (p * q) * (p * q),
        ) == 1),
{
    lemma_derived_trapdoor_power(ek, dk, alpha_size, p, q, div_p, div_q, y);
    assert(p * q > 1) by (nonlinear_arith)
        requires
            p > 1,
            q > 1,
    ;
}

} // verus!
