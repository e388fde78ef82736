//! Encryption, generic and CRT decryption, and the homomorphic operations, on
//! raw big-integer plaintexts and ciphertexts.

use vstd::arithmetic::div_mod::{lemma_mod_bound, lemma_mod_pos_bound};
use vstd::arithmetic::power::lemma_pow_mod_noop;
use vstd::arithmetic::power2::pow2;
use vstd::prelude::*;

use crate::arith::{lemma_cancel_inverse, lemma_crt_recombine};
use crate::bignat::{
    big_add, big_div, big_eq, big_lt, big_mod_inv, big_mod_mul, big_mod_pow, big_mod_sub, big_mul,
    big_rem, big_sample, big_sub, invertible, pow_mod, BigNat,
};
use crate::keys::{DecryptionKey, EncryptionKey, PaillierError, Randomness};
use crate::table::{PrecomputeTable, TableModel};

verus! {

/// `(1 + m·n) mod nn`: a plaintext encoded without randomness.
pub open spec fn encode_plain(m: nat, n: nat, nn: nat) -> nat {
    (1 + m * n) % nn
}

/// The ciphertext of `m` under `(n, nn, hn)` with random exponent `r`.
pub open spec fn enc_value(n: nat, nn: nat, hn: nat, m: nat, r: nat) -> nat {
    (encode_plain(m, n, nn) * pow_mod(hn, r, nn)) % nn
}

/// The L-function `(u - 1) / n`, taken as 0 at `u = 0`.
pub open spec fn ell(u: nat, n: nat) -> nat {
    if u == 0 {
        0
    } else {
        ((u - 1) as nat) / n
    }
}

/// `m` is the decryption of `c` under modulus `n` and trapdoor `alpha`: the residue
/// below `n` with `m · 2·alpha ≡ L(c^(2·alpha) mod nn) (mod n)`.
pub open spec fn is_decryption(n: nat, nn: nat, alpha: nat, c: nat, m: nat) -> bool {
    m < n && (m * (2 * alpha)) % n == ell(pow_mod(c, 2 * alpha, nn), n) % n
}

/// `v` is the share of prime `x` (the other prime being `y`) in the CRT decryption of
/// `c`: `v · 2·alpha·y ≡ L_x(c^(2·alpha) mod x^2) (mod x)`.
pub open spec fn is_crt_part(c: nat, alpha: nat, x: nat, y: nat, v: nat) -> bool {
    v < x && (v * (2 * alpha * y)) % x == ell(pow_mod(c, 2 * alpha, x * x), x) % x
}

/// The CRT decryption conditions on the primes: `p` invertible modulo `q`, and the
/// per-prime factors `2·alpha·q` modulo `p` and `2·alpha·p` modulo `q`.
pub open spec fn crt_invertible(dk: DecryptionKey) -> bool {
    &&& invertible(dk.p@, dk.q@)
    &&& invertible(2 * dk.alpha@ * dk.q@, dk.p@)
    &&& invertible(2 * dk.alpha@ * dk.p@, dk.q@)
}

/// What encryption of `m` under `ek` returns, for some random exponent below
/// `2^alpha_size`.
pub open spec fn encrypt_outcome(ek: EncryptionKey, m: nat, c: Result<BigNat, PaillierError>) -> bool {
    &&& !ek.wf() ==> c == Err::<BigNat, PaillierError>(PaillierError::InvalidKey)
    &&& ek.wf() && m >= ek.n@ ==> c == Err::<BigNat, PaillierError>(PaillierError::OutOfDomain)
    &&& ek.wf() && m < ek.n@ ==> c is Ok && exists|r: nat|
        r < pow2(ek.alpha_size as nat) && c.unwrap()@ == enc_value(ek.n@, ek.nn@, ek.hn@, m, r)
}

/// What encryption of `m` with a table returns, for some random exponent below
/// `2^alpha_size`.
pub open spec fn table_encrypt_outcome(
    t: TableModel,
    ek: EncryptionKey,
    m: nat,
    c: Result<BigNat, PaillierError>,
) -> bool {
    &&& !ek.wf() ==> c == Err::<BigNat, PaillierError>(PaillierError::InvalidKey)
    &&& ek.wf() && m >= ek.n@ ==> c == Err::<BigNat, PaillierError>(PaillierError::OutOfDomain)
    &&& ek.wf() && m < ek.n@ ==> c is Ok && exists|r: nat|
        r < pow2(ek.alpha_size as nat) && c.unwrap()@ == (encode_plain(m, ek.n@, ek.nn@) * t.product(r))
            % ek.nn@
}

/// What generic decryption of `c` under `dk` returns.
pub open spec fn decrypt_outcome(dk: DecryptionKey, c: nat, m: Result<BigNat, PaillierError>) -> bool {
    &&& !dk.wf() ==> m == Err::<BigNat, PaillierError>(PaillierError::InvalidKey)
    &&& dk.wf() && c >= dk.nn@ ==> m == Err::<BigNat, PaillierError>(PaillierError::OutOfDomain)
    &&& dk.wf() && c < dk.nn@ && !invertible(2 * dk.alpha@, dk.n@) ==> m == Err::<BigNat, PaillierError>(
        PaillierError::NotInvertible,
    )
    &&& dk.wf() && c < dk.nn@ && invertible(2 * dk.alpha@, dk.n@) ==> m is Ok && is_decryption(
        dk.n@,
        dk.nn@,
        dk.alpha@,
        c,
        m.unwrap()@,
    )
}

/// What CRT decryption of `c` under `dk` returns.
pub open spec fn decrypt_crt_outcome(dk: DecryptionKey, c: nat, m: Result<BigNat, PaillierError>) -> bool {
    &&& !dk.wf() ==> m == Err::<BigNat, PaillierError>(PaillierError::InvalidKey)
    &&& dk.wf() && c >= dk.nn@ ==> m == Err::<BigNat, PaillierError>(PaillierError::OutOfDomain)
    &&& dk.wf() && c < dk.nn@ && !crt_invertible(dk) ==> m == Err::<BigNat, PaillierError>(
        PaillierError::NotInvertible,
    )
    &&& dk.wf() && c < dk.nn@ && crt_invertible(dk) ==> m is Ok && ({
        let v = m.unwrap()@;
        &&& v < dk.n@
        &&& is_crt_part(c, dk.alpha@, dk.p@, dk.q@, v % dk.p@)
        &&& is_crt_part(c, dk.alpha@, dk.q@, dk.p@, v % dk.q@)
    })
}

/// What homomorphic addition of two ciphertexts returns.
pub open spec fn add_outcome(ek: EncryptionKey, c1: nat, c2: nat, d: Result<BigNat, PaillierError>) -> bool {
    &&& !ek.wf() ==> d == Err::<BigNat, PaillierError>(PaillierError::InvalidKey)
    &&& ek.wf() && (c1 >= ek.nn@ || c2 >= ek.nn@) ==> d == Err::<BigNat, PaillierError>(
        PaillierError::OutOfDomain,
    )
    &&& ek.wf() && c1 < ek.nn@ && c2 < ek.nn@ ==> d is Ok && d.unwrap()@ == (c1 * c2) % ek.nn@
}

/// What homomorphic addition of plaintext `m` to ciphertext `c` returns.
pub open spec fn add_plain_outcome(ek: EncryptionKey, c: nat, m: nat, d: Result<BigNat, PaillierError>) -> bool {
    &&& !ek.wf() ==> d == Err::<BigNat, PaillierError>(PaillierError::InvalidKey)
    &&& ek.wf() && (c >= ek.nn@ || m >= ek.n@) ==> d == Err::<BigNat, PaillierError>(
        PaillierError::OutOfDomain,
    )
    &&& ek.wf() && c < ek.nn@ && m < ek.n@ ==> d is Ok && d.unwrap()@ == (c * encode_plain(m, ek.n@, ek.nn@))
        % ek.nn@
}

/// What homomorphic multiplication of ciphertext `c` by plaintext `m` returns.
pub open spec fn mul_outcome(ek: EncryptionKey, c: nat, m: nat, d: Result<BigNat, PaillierError>) -> bool {
    &&& !ek.wf() ==> d == Err::<BigNat, PaillierError>(PaillierError::InvalidKey)
    &&& ek.wf() && (c >= ek.nn@ || m >= ek.n@) ==> d == Err::<BigNat, PaillierError>(
        PaillierError::OutOfDomain,
    )
    &&& ek.wf() && c < ek.nn@ && m < ek.n@ ==> d is Ok && d.unwrap()@ == pow_mod(c, m, ek.nn@)
}

proof fn lemma_nn_positive(ek: &EncryptionKey)
    requires
        ek.wf(),
    ensures
        ek.nn@ > 1,
{
    assert(ek.nn@ > 1) by (nonlinear_arith)
        requires
            ek.nn@ == ek.n@ * ek.n@,
            ek.n@ > 1,
    ;
}

impl Randomness {
    /// A random exponent below `2^alpha_size`.
    pub fn sample(ek: &EncryptionKey) -> (r: Randomness)
        ensures
            r.0@ < pow2(ek.alpha_size as nat),
    {
        Randomness(big_sample(ek.alpha_size))
    }
}

/// `(1 + m·n) mod nn`.
fn encode(m: &BigNat, n: &BigNat, nn: &BigNat) -> (r: BigNat)
    requires
        nn@ > 0,
    ensures
        r@ == encode_plain(m@, n@, nn@),
{
    let one = BigNat::from_u64(1);
    let mn = big_mul(m, n);
    big_rem(&big_add(&mn, &one), nn)
}

/// The L-function on `u`.
fn ell_exec(u: &BigNat, n: &BigNat) -> (r: BigNat)
    requires
        n@ > 0,
    ensures
        r@ == ell(u@, n@),
{
    let zero = BigNat::from_u64(0);
    if big_eq(u, &zero) {
        zero
    } else {
        let one = BigNat::from_u64(1);
        big_div(&big_sub(u, &one), n)
    }
}

/// Encryption of `m` with the given random exponent.
pub fn encrypt_with_randomness(ek: &EncryptionKey, m: &BigNat, r: &BigNat) -> (c: Result<BigNat, PaillierError>)
    ensures
        !ek.wf() ==> c == Err::<BigNat, PaillierError>(PaillierError::InvalidKey),
        ek.wf() && m@ >= ek.n@ ==> c == Err::<BigNat, PaillierError>(PaillierError::OutOfDomain),
        ek.wf() && m@ < ek.n@ ==> c is Ok && c.unwrap()@ == enc_value(ek.n@, ek.nn@, ek.hn@, m@, r@),
{
    if !ek.check() {
        return Err(PaillierError::InvalidKey);
    }
    if !big_lt(m, &ek.n) {
        return Err(PaillierError::OutOfDomain);
    }
    proof {
        lemma_nn_positive(ek);
    }
    let rn = big_mod_pow(&ek.hn, r, &ek.nn);
    let gm = encode(m, &ek.n, &ek.nn);
    Ok(big_rem(&big_mul(&gm, &rn), &ek.nn))
}

/// Encryption of `m` with a fresh random exponent below `2^alpha_size`.
pub fn encrypt_raw(ek: &EncryptionKey, m: &BigNat) -> (c: Result<BigNat, PaillierError>)
    ensures
        encrypt_outcome(*ek, m@, c),
{
    let r = Randomness::sample(ek);
    encrypt_with_randomness(ek, m, &r.0)
}

/// Encryption of `m` with the random factor `hn^r mod nn` read from a table over `hn`.
pub fn encrypt_with_table_and_randomness(
    table: &PrecomputeTable,
    ek: &EncryptionKey,
    m: &BigNat,
    r: &BigNat,
) -> (c: Result<BigNat, PaillierError>)
    ensures
        !ek.wf() ==> c == Err::<BigNat, PaillierError>(PaillierError::InvalidKey),
        ek.wf() && m@ >= ek.n@ ==> c == Err::<BigNat, PaillierError>(PaillierError::OutOfDomain),
        ek.wf() && m@ < ek.n@ ==> c is Ok && c.unwrap()@ == (encode_plain(m@, ek.n@, ek.nn@) * table@.product(r@))
            % ek.nn@,
{
    if !ek.check() {
        return Err(PaillierError::InvalidKey);
    }
    if !big_lt(m, &ek.n) {
        return Err(PaillierError::OutOfDomain);
    }
    proof {
        lemma_nn_positive(ek);
    }
    let rn = table.compute(r);
    let gm = encode(m, &ek.n, &ek.nn);
    Ok(big_rem(&big_mul(&gm, &rn), &ek.nn))
}

/// Encryption of `m` with a fresh random exponent, its random factor read from the table.
pub fn encrypt_with_table(table: &PrecomputeTable, ek: &EncryptionKey, m: &BigNat) -> (c: Result<BigNat, PaillierError>)
    ensures
        table_encrypt_outcome(table@, *ek, m@, c),
{
    let r = Randomness::sample(ek);
    encrypt_with_table_and_randomness(table, ek, m, &r.0)
}

/// Generic decryption: `L(c^(2·alpha) mod nn) · (2·alpha)^-1 mod n`.
pub fn decrypt_raw(dk: &DecryptionKey, c: &BigNat) -> (m: Result<BigNat, PaillierError>)
    ensures
        decrypt_outcome(*dk, c@, m),
{
    if !dk.check() {
        return Err(PaillierError::InvalidKey);
    }
    if !big_lt(c, &dk.nn) {
        return Err(PaillierError::OutOfDomain);
    }
    proof {
        assert(dk.nn@ > 0) by (nonlinear_arith)
            requires
                dk.nn@ == dk.n@ * dk.n@,
                dk.n@ == dk.p@ * dk.q@,
                dk.p@ > 1,
                dk.q@ > 1,
        ;
        assert(dk.n@ > 1) by (nonlinear_arith)
            requires
                dk.n@ == dk.p@ * dk.q@,
                dk.p@ > 1,
                dk.q@ > 1,
        ;
    }
    let two = BigNat::from_u64(2);
    let da = big_mul(&two, &dk.alpha);
    let u = big_mod_pow(c, &da, &dk.nn);
    let lc = ell_exec(&u, &dk.n);
    match big_mod_inv(&da, &dk.n) {
        None => Err(PaillierError::NotInvertible),
        Some(inv) => {
            let m = big_mod_mul(&lc, &inv, &dk.n);
            proof {
                lemma_cancel_inverse(lc@ as int, inv@ as int, da@ as int, dk.n@ as int);
            }
            Ok(m)
        },
    }
}

/// One prime's share of the CRT decryption: `L_x(cx^(2·alpha) mod x^2) · hx mod x`.
fn crt_half(cx: &BigNat, da: &BigNat, x: &BigNat, xx: &BigNat, hx: &BigNat) -> (r: BigNat)
    requires
        x@ > 1,
        xx@ == x@ * x@,
    ensures
        r@ == (ell(pow_mod(cx@, da@, xx@), x@) * hx@) % x@,
{
    assert(xx@ > 0) by (nonlinear_arith)
        requires
            xx@ == x@ * x@,
            x@ > 1,
    ;
    let dx = big_mod_pow(cx, da, xx);
    let lx = ell_exec(&dx, x);
    big_mod_mul(&lx, hx, x)
}

/// Relies on `rayon::join`, which runs both closures (possibly in parallel) and
/// returns their two results in order.
#[verifier::external_body]
fn join_halves(
    cp: &BigNat,
    cq: &BigNat,
    da: &BigNat,
    p: &BigNat,
    pp: &BigNat,
    hp: &BigNat,
    q: &BigNat,
    qq: &BigNat,
    hq: &BigNat,
) -> (r: (BigNat, BigNat))
    requires
        p@ > 1,
        pp@ == p@ * p@,
        q@ > 1,
        qq@ == q@ * q@,
    ensures
        r.0@ == (ell(pow_mod(cp@, da@, pp@), p@) * hp@) % p@,
        r.1@ == (ell(pow_mod(cq@, da@, qq@), q@) * hq@) % q@,
{
    rayon::join(|| crt_half(cp, da, p, pp, hp), || crt_half(cq, da, q, qq, hq))
}

/// The number below `m1·m2` that is `x1` modulo `m1` and `x2` modulo `m2`.
fn crt_recombine(x1: &BigNat, x2: &BigNat, m1: &BigNat, m2: &BigNat, m1inv: &BigNat) -> (r: BigNat)
    requires
        m1@ > 0,
        m2@ > 1,
        x1@ < m1@,
        x2@ < m2@,
        (m1inv@ * m1@) % m2@ == 1,
    ensures
        r@ < m1@ * m2@,
        r@ % m1@ == x1@,
        r@ % m2@ == x2@,
{
    let diff = big_mod_sub(x2, x1, m2);
    let u = big_mod_mul(&diff, m1inv, m2);
    proof {
        lemma_crt_recombine(x1@ as int, x2@ as int, m1@ as int, m2@ as int, m1inv@ as int);
        lemma_mod_bound(x2@ - x1@, m2@ as int);
        vstd::arithmetic::div_mod::lemma_mul_mod_noop_left(diff@ as int, m1inv@ as int, m2@ as int);
    }
    big_add(x1, &big_mul(&u, m1))
}

/// CRT decryption: the shares modulo `p` and `q` are computed independently and
/// recombined.
pub fn decrypt_crt_raw(dk: &DecryptionKey, c: &BigNat) -> (m: Result<BigNat, PaillierError>)
    ensures
        decrypt_crt_outcome(*dk, c@, m),
{
    if !dk.check() {
        return Err(PaillierError::InvalidKey);
    }
    if !big_lt(c, &dk.nn) {
        return Err(PaillierError::OutOfDomain);
    }
    let qq = big_mul(&dk.q, &dk.q);
    let pp = big_mul(&dk.p, &dk.p);
    let two = BigNat::from_u64(2);
    let da = big_mul(&two, &dk.alpha);
    let daq = big_mul(&da, &dk.q);
    let dap = big_mul(&da, &dk.p);
    let pinv = big_mod_inv(&dk.p, &dk.q);
    let hp = big_mod_inv(&daq, &dk.p);
    let hq = big_mod_inv(&dap, &dk.q);
    match (pinv, hp, hq) {
        (Some(pinv), Some(hp), Some(hq)) => {
            proof {
                assert(pp@ > 0 && qq@ > 0) by (nonlinear_arith)
                    requires
                        pp@ == dk.p@ * dk.p@,
                        qq@ == dk.q@ * dk.q@,
                        dk.p@ > 1,
                        dk.q@ > 1,
                ;
            }
            let cp = big_rem(c, &pp);
            let cq = big_rem(c, &qq);
            let (mp, mq) = join_halves(&cp, &cq, &da, &dk.p, &pp, &hp, &dk.q, &qq, &hq);
            proof {
                lemma_pow_mod_noop(c@ as int, da@, pp@ as int);
                lemma_pow_mod_noop(c@ as int, da@, qq@ as int);
                lemma_cancel_inverse(
                    ell(pow_mod(c@, da@, pp@), dk.p@) as int,
                    hp@ as int,
                    daq@ as int,
                    dk.p@ as int,
                );
                lemma_cancel_inverse(
                    ell(pow_mod(c@, da@, qq@), dk.q@) as int,
                    hq@ as int,
                    dap@ as int,
                    dk.q@ as int,
                );
                lemma_mod_pos_bound(
                    ell(pow_mod(c@, da@, pp@), dk.p@) as int * hp@ as int,
                    dk.p@ as int,
                );
                assert(2 * dk.alpha@ * dk.q@ == daq@);
                assert(2 * dk.alpha@ * dk.p@ == dap@);
            }
            let m = crt_recombine(&mp, &mq, &dk.p, &dk.q, &pinv);
            Ok(m)
        },
        _ => Err(PaillierError::NotInvertible),
    }
}

/// Checks shared by the homomorphic operations on ciphertext `c`.
fn check_ciphertext(ek: &EncryptionKey, c: &BigNat) -> (r: Result<(), PaillierError>)
    ensures
        !ek.wf() ==> r == Err::<(), PaillierError>(PaillierError::InvalidKey),
        ek.wf() && c@ >= ek.nn@ ==> r == Err::<(), PaillierError>(PaillierError::OutOfDomain),
        ek.wf() && c@ < ek.nn@ ==> r is Ok,
{
    if !ek.check() {
        return Err(PaillierError::InvalidKey);
    }
    if !big_lt(c, &ek.nn) {
        return Err(PaillierError::OutOfDomain);
    }
    Ok(())
}

/// Homomorphic addition of two ciphertexts: `c1·c2 mod nn`.
pub fn add_ciphertexts(ek: &EncryptionKey, c1: &BigNat, c2: &BigNat) -> (d: Result<BigNat, PaillierError>)
    ensures
        add_outcome(*ek, c1@, c2@, d),
{
    check_ciphertext(ek, c1)?;
    check_ciphertext(ek, c2)?;
    proof {
        lemma_nn_positive(ek);
    }
    Ok(big_rem(&big_mul(c1, c2), &ek.nn))
}

/// Homomorphic addition of a known plaintext: `c · (1 + m·n) mod nn`.
pub fn add_plaintext(ek: &EncryptionKey, c: &BigNat, m: &BigNat) -> (d: Result<BigNat, PaillierError>)
    ensures
        add_plain_outcome(*ek, c@, m@, d),
{
    check_ciphertext(ek, c)?;
    if !big_lt(m, &ek.n) {
        return Err(PaillierError::OutOfDomain);
    }
    proof {
        lemma_nn_positive(ek);
    }
    let gm = encode(m, &ek.n, &ek.nn);
    Ok(big_rem(&big_mul(c, &gm), &ek.nn))
}

/// Homomorphic multiplication by a plaintext: `c^m mod nn`.
pub fn mul_plaintext(ek: &EncryptionKey, c: &BigNat, m: &BigNat) -> (d: Result<BigNat, PaillierError>)
    ensures
        mul_outcome(*ek, c@, m@, d),
{
    check_ciphertext(ek, c)?;
    if !big_lt(m, &ek.n) {
        return Err(PaillierError::OutOfDomain);
    }
    proof {
        lemma_nn_positive(ek);
    }
    Ok(big_mod_pow(c, m, &ek.nn))
}

} // verus!
