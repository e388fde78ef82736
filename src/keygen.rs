//! Structured-prime generation, key derivation, recovery of the divisor structure
//! from given primes, and the key-level homomorphic helpers.

use vstd::arithmetic::power::lemma_pow0;
use vstd::arithmetic::power2::{lemma_pow2, pow2};
use vstd::prelude::*;

use crate::arith::{lemma_crt_recombine, lemma_crt_unique};
use crate::bignat::{
    big_add, big_div, big_eq, big_gcd, big_is_probable_prime, big_lt, big_mod_inv, big_mod_mul,
    big_mod_pow, big_mod_sub, big_mul, big_pow, big_rem, big_sample, big_sample_below, big_set_bit,
    big_sub, bit_of, gcd, invertible, is_prime, pow_mod, BigNat,
};
use crate::cipher::{add_ciphertexts, add_outcome, mul_outcome, mul_plaintext};
use crate::traits::{raw_ct, wrap_ct};
use crate::keys::{DecryptionKey, EncryptionKey, NGen, OptimizedPaillier, PaillierError, RawCiphertext};

verus! {

/// Miller-Rabin rounds of the primality test.
pub const PRIME_TEST_ROUNDS: u32 = 25;

/// Candidates drawn before giving up on one prime.
pub const MAX_PRIME_CANDIDATES: u64 = 100000;

/// Draws before giving up on a value coprime to the modulus.
pub const MAX_COPRIME_DRAWS: u64 = 1000;

/// Attempts of the structured-prime search before it reports exhaustion.
pub const MAX_KEYGEN_ATTEMPTS: u64 = 1000000;

/// The four values are pairwise coprime.
pub open spec fn pairwise_coprime(a: nat, b: nat, c: nat, d: nat) -> bool {
    &&& gcd(a, b) == 1
    &&& gcd(a, c) == 1
    &&& gcd(a, d) == 1
    &&& gcd(b, c) == 1
    &&& gcd(b, d) == 1
    &&& gcd(c, d) == 1
}

/// `x = 2·d·o + 1`.
pub open spec fn structured(x: nat, d: nat, o: nat) -> bool {
    x == 2 * d * o + 1
}

/// The generation parameters have the structure that key derivation relies on:
/// `p = 2·div_p·other_p + 1`, `q = 2·div_q·other_q + 1` with odd cofactors, and the
/// four divisors pairwise coprime.
pub open spec fn has_structure(ng: NGen) -> bool {
    exists|op: nat, oq: nat|
        #![trigger structured(ng.p@, ng.div_p@, op), structured(ng.q@, ng.div_q@, oq)]
        op % 2 == 1 && oq % 2 == 1 && structured(ng.p@, ng.div_p@, op) && structured(ng.q@, ng.div_q@, oq)
            && pairwise_coprime(ng.div_p@, ng.div_q@, op, oq)
}

/// `beta = (p-1)(q-1) / (4·div_p·div_q)`.
pub open spec fn beta_of(p: nat, q: nat, div_p: nat, div_q: nat) -> nat {
    (((p - 1) * (q - 1)) as nat) / (4 * div_p * div_q)
}

/// What key derivation promises of a key pair made from `(n, p, q, div_p, div_q)`.
pub open spec fn derived_from(
    ek: EncryptionKey,
    dk: DecryptionKey,
    alpha_size: usize,
    n: nat,
    p: nat,
    q: nat,
    div_p: nat,
    div_q: nat,
) -> bool {
    &&& ek.wf() && dk.wf()
    &&& ek.alpha_size == alpha_size
    &&& ek.n@ == n && ek.nn@ == n * n
    &&& dk.p@ == p && dk.q@ == q && dk.n@ == n && dk.nn@ == n * n
    &&& dk.alpha@ == div_p * div_q
    &&& exists|y: nat| y < n && gcd(y, n) == 1 && #[trigger] keys_from(ek, dk, alpha_size, n, p, q, div_p, div_q, y)
}

/// The key pair that derivation makes from `(n, p, q, div_p, div_q)` and the value `y`.
pub open spec fn keys_from(
    ek: EncryptionKey,
    dk: DecryptionKey,
    alpha_size: usize,
    n: nat,
    p: nat,
    q: nat,
    div_p: nat,
    div_q: nat,
    y: nat,
) -> bool {
    &&& ek.alpha_size == alpha_size
    &&& ek.n@ == n && ek.nn@ == n * n
    &&& ek.h@ == pow_mod(y, 2 * beta_of(p, q, div_p, div_q), n)
    &&& ek.hn@ == pow_mod(ek.h@, n, n * n)
    &&& dk.p@ == p && dk.q@ == q && dk.n@ == n && dk.nn@ == n * n
    &&& dk.alpha@ == div_p * div_q
}

/// The public key for modulus `n` that `y` gives: `h = y^2 mod n`, `hn = h^n mod n^2`.
pub open spec fn key_of_modulus(ek: EncryptionKey, n: nat, alpha_size: usize, y: nat) -> bool {
    &&& ek.alpha_size == alpha_size
    &&& ek.n@ == n && ek.nn@ == n * n
    &&& ek.h@ == pow_mod(y, 2, n)
    &&& ek.hn@ == pow_mod(ek.h@, n, n * n)
}

/// `d` is the least divisor of `x` in `[2^(s-1), 2^s)`.
pub open spec fn least_divisor_in(x: nat, s: nat, d: nat) -> bool {
    &&& s >= 1
    &&& pow2((s - 1) as nat) <= d < pow2(s)
    &&& x % d == 0
    &&& forall|y: nat| pow2((s - 1) as nat) <= y < d ==> #[trigger] (x % y) != 0
}

/// `p = 2·d·o + 1` with `d` the least divisor of `(p-1)/2` of `s` bits.
pub open spec fn recovered(p: nat, s: nat, d: nat, o: nat) -> bool {
    p >= 3 && least_divisor_in(((p - 1) as nat) / 2, s, d) && structured(p, d, o)
}

/// The divisor structure that trial division recovers from `p` and `q`, primality
/// of the divisors aside: least divisors of `s` bits, their cofactors, pairwise coprime.
pub open spec fn reconstructible(p: nat, q: nat, s: nat, dp: nat, op: nat, dq: nat, oq: nat) -> bool {
    s <= u32::MAX && recovered(p, s, dp, op) && recovered(q, s, dq, oq) && pairwise_coprime(dp, dq, op, oq)
}

/// The recovered divisor and cofactor are unique.
proof fn lemma_recovered_unique(p: nat, s: nat, d1: nat, o1: nat, d2: nat, o2: nat)
    requires
        recovered(p, s, d1, o1),
        s >= 1,
        pow2((s - 1) as nat) <= d2 < pow2(s),
        d2 * o2 == ((p - 1) as nat) / 2,
        forall|y: nat| pow2((s - 1) as nat) <= y < d2 ==> #[trigger] ((((p - 1) as nat) / 2) % y) != 0,
    ensures
        d1 == d2,
        o1 == o2,
{
    let x = ((p - 1) as nat) / 2;
    assert((p - 1) as nat == 2 * (d1 * o1)) by (nonlinear_arith)
        requires
            p == 2 * d1 * o1 + 1,
    ;
    assert(x == d1 * o1);
    vstd::arithmetic::power2::lemma_pow2_pos((s - 1) as nat);
    assert(d2 > 0);
    vstd::arithmetic::div_mod::lemma_mod_multiples_basic(o2 as int, d2 as int);
    assert(o2 * d2 == d2 * o2) by (nonlinear_arith);
    assert(x % d2 == 0);
    if d1 < d2 {
        assert(x % d1 != 0);
    } else if d2 < d1 {
        assert(x % d2 != 0);
    }
    assert(o1 == o2) by (nonlinear_arith)
        requires
            d1 == d2,
            d1 > 0,
            d1 * o1 == d2 * o2,
    ;
}

/// `(p-1)(q-1)` is a multiple of `4·div_p·div_q`.
pub open spec fn beta_exact(p: nat, q: nat, div_p: nat, div_q: nat) -> bool {
    (((p - 1) * (q - 1)) as nat) % (4 * div_p * div_q) == 0
}

/// Whether `x` passes the probabilistic primality test; a prime always does.
fn is_probable_prime(x: &BigNat) -> (r: bool)
    ensures
        is_prime(x@) ==> r,
{
    big_is_probable_prime(x, PRIME_TEST_ROUNDS)
}

/// Whether the four values are pairwise coprime.
pub fn check_coprime(a: &BigNat, b: &BigNat, c: &BigNat, d: &BigNat) -> (r: bool)
    ensures
        r == pairwise_coprime(a@, b@, c@, d@),
{
    let one = BigNat::from_u64(1);
    big_eq(&big_gcd(a, b), &one) && big_eq(&big_gcd(a, c), &one) && big_eq(&big_gcd(a, d), &one)
        && big_eq(&big_gcd(b, c), &one) && big_eq(&big_gcd(b, d), &one) && big_eq(&big_gcd(c, d), &one)
}

/// A random odd value below `2^bits`.
fn sample_odd(bits: usize) -> (r: BigNat)
    requires
        bits >= 1,
    ensures
        r@ % 2 == 1,
        r@ < pow2(bits as nat),
{
    let x = big_sample(bits);
    let r = big_set_bit(&x, 0);
    proof {
        lemma_pow2(0);
        lemma_pow0(2);
        assert(x@ / 1 == x@);
        lemma_pow2_even(bits as nat);
    }
    r
}

/// `2^b` is even for `b >= 1`.
proof fn lemma_pow2_even(b: nat)
    requires
        b >= 1,
    ensures
        pow2(b) % 2 == 0,
        pow2(b) == 2 * pow2((b - 1) as nat),
{
    vstd::arithmetic::power2::lemma_pow2_adds(1, (b - 1) as nat);
    lemma_pow2(1);
    vstd::arithmetic::power::lemma_pow1(2);
}

/// Below `2^b`, bit `b` is clear.
proof fn lemma_no_bit_above(x: nat, b: nat)
    requires
        x < pow2(b),
    ensures
        !bit_of(x, b),
{
    vstd::arithmetic::power2::lemma_pow2_pos(b);
    vstd::arithmetic::div_mod::lemma_basic_div(x as int, pow2(b) as int);
}

/// The candidate that a draw below `2^(bits-1)` gives: made odd, with bit `bits - 1`
/// set, so that it has exactly `bits` bits.
pub open spec fn prime_candidate_value(x: nat, bits: nat) -> nat {
    (if x % 2 == 1 {
        x
    } else {
        x + 1
    }) + pow2((bits - 1) as nat)
}

/// A safe-prime form of `bits` bits: `2·h + 1` with `h` odd of `bits - 1` bits.
pub open spec fn safe_form(d: nat, bits: nat) -> bool {
    exists|h: nat|
        h % 2 == 1 && pow2((bits - 2) as nat) <= h < pow2((bits - 1) as nat) && #[trigger] (2 * h + 1) == d
}

/// Bit 0 tells odd from even.
proof fn lemma_bit_zero(x: nat)
    ensures
        bit_of(x, 0) == (x % 2 == 1),
{
    lemma_pow2(0);
    lemma_pow0(2);
    assert(x / 1 == x);
}

/// The prime candidate of a draw: bit 0 and bit `bits - 1` set.
pub fn prime_candidate(drawn: &BigNat, bits: usize) -> (r: BigNat)
    requires
        bits >= 2,
        drawn@ < pow2((bits - 1) as nat),
    ensures
        r@ == prime_candidate_value(drawn@, bits as nat),
        r@ % 2 == 1,
        pow2((bits - 1) as nat) <= r@ < pow2(bits as nat),
{
    let odd = big_set_bit(drawn, 0);
    proof {
        lemma_bit_zero(drawn@);
        lemma_pow2(0);
        lemma_pow0(2);
        if bits - 1 >= 1 {
            lemma_pow2_even((bits - 1) as nat);
        }
        assert(odd@ < pow2((bits - 1) as nat));
        lemma_no_bit_above(odd@, (bits - 1) as nat);
        lemma_pow2_even(bits as nat);
    }
    let r = big_set_bit(&odd, bits - 1);
    proof {
        lemma_set_high_bit_keeps_odd(odd@, (bits - 1) as nat, r@);
    }
    r
}

/// A random odd value of `bits` bits (its top bit set) that passes the primality test.
pub fn sample_prime(bits: usize) -> (r: Option<BigNat>)
    requires
        bits >= 2,
    ensures
        r is Some ==> r.unwrap()@ % 2 == 1,
        r is Some ==> pow2((bits - 1) as nat) <= r.unwrap()@ < pow2(bits as nat),
        r is Some ==> exists|x: nat|
            x < pow2((bits - 1) as nat) && #[trigger] prime_candidate_value(x, bits as nat) == r.unwrap()@,
{
    let mut attempt: u64 = 0;
    while attempt < MAX_PRIME_CANDIDATES
        invariant
            bits >= 2,
        decreases MAX_PRIME_CANDIDATES - attempt,
    {
        let drawn = big_sample(bits - 1);
        let candidate = prime_candidate(&drawn, bits);
        if is_probable_prime(&candidate) {
            return Some(candidate);
        }
        attempt = attempt + 1;
    }
    None
}

/// The safe-prime candidate `2·h + 1` of `h`.
pub fn safe_prime_candidate(h: &BigNat) -> (r: BigNat)
    ensures
        r@ == 2 * h@ + 1,
{
    big_add(&big_mul(&BigNat::from_u64(2), h), &BigNat::from_u64(1))
}

/// A safe prime candidate `2·h + 1` with `h` of `bits - 1` bits, both passing the
/// primality test.
pub fn sample_safe_prime(bits: usize) -> (r: Option<BigNat>)
    requires
        bits >= 3,
    ensures
        r is Some ==> r.unwrap()@ % 2 == 1,
        r is Some ==> pow2((bits - 1) as nat) <= r.unwrap()@ < pow2(bits as nat),
        r is Some ==> safe_form(r.unwrap()@, bits as nat),
{
    let mut attempt: u64 = 0;
    while attempt < MAX_PRIME_CANDIDATES
        invariant
            bits >= 3,
        decreases MAX_PRIME_CANDIDATES - attempt,
    {
        if let Some(half) = sample_prime(bits - 1) {
            let candidate = safe_prime_candidate(&half);
            proof {
                lemma_pow2_even((bits - 1) as nat);
                lemma_pow2_even(bits as nat);
                assert(safe_form(candidate@, bits as nat));
            }
            if is_probable_prime(&candidate) {
                return Some(candidate);
            }
        }
        attempt = attempt + 1;
    }
    None
}

/// Setting a bit other than bit 0 keeps an odd value odd.
proof fn lemma_set_high_bit_keeps_odd(x: nat, b: nat, r: nat)
    requires
        b >= 1,
        x % 2 == 1,
        r == if bit_of(x, b) { x } else { x + pow2(b) },
    ensures
        r % 2 == 1,
{
    lemma_pow2_even(b);
    let k = pow2((b - 1) as nat);
    assert((x + 2 * k) % 2 == x % 2) by (nonlinear_arith);
}


/// The structure with odd cofactors below `bound`.
pub open spec fn has_structure_below(ng: NGen, bound: nat) -> bool {
    exists|op: nat, oq: nat|
        #![trigger structured(ng.p@, ng.div_p@, op), structured(ng.q@, ng.div_q@, oq)]
        op % 2 == 1 && oq % 2 == 1 && op < bound && oq < bound && structured(ng.p@, ng.div_p@, op)
            && structured(ng.q@, ng.div_q@, oq) && pairwise_coprime(ng.div_p@, ng.div_q@, op, oq)
}

/// What the structured-prime search promises of the parameters it returns: the
/// structure with odd cofactors of `cofactor_bits` bits at most, divisors of
/// `alpha_bit_length / 2` bits (safe-prime forms where asked for), and `n = p·q`.
pub open spec fn generated_params(ng: NGen, n_bit_length: usize, alpha_bit_length: usize, safe_primes: bool) -> bool {
    let s = (alpha_bit_length / 2) as nat;
    &&& ng.wf()
    &&& has_structure(ng)
    &&& has_structure_below(ng, pow2(cofactor_bits(n_bit_length as nat, alpha_bit_length as nat)))
    &&& ng.alpha_size == alpha_bit_length
    &&& pow2((s - 1) as nat) <= ng.div_p@ < pow2(s)
    &&& pow2((s - 1) as nat) <= ng.div_q@ < pow2(s)
    &&& safe_primes ==> safe_form(ng.div_p@, s) && safe_form(ng.div_q@, s)
}

/// Sizes that the structured-prime search accepts.
pub open spec fn sizes_ok(n_bit_length: nat, alpha_bit_length: nat) -> bool {
    alpha_bit_length / 2 >= 3 && n_bit_length >= alpha_bit_length + 6
}

/// Bit length of the cofactors for the given sizes.
pub open spec fn cofactor_bits(n_bit_length: nat, alpha_bit_length: nat) -> nat {
    ((n_bit_length - alpha_bit_length) / 2 - 1) as nat
}

/// `2·d·o + 1`.
pub fn structured_prime(d: &BigNat, o: &BigNat) -> (r: BigNat)
    ensures
        structured(r@, d@, o@),
{
    let two_d = big_mul(&BigNat::from_u64(2), d);
    big_add(&big_mul(&two_d, o), &BigNat::from_u64(1))
}

/// Generation parameters from drawn divisors and cofactors and the outcomes of the
/// primality tests of `p = 2·div_p·other_p + 1` and `q = 2·div_q·other_q + 1`: kept
/// exactly when both tests passed and the four values are pairwise coprime.
pub fn assemble_parameters(
    div_p: BigNat,
    div_q: BigNat,
    other_p: &BigNat,
    other_q: &BigNat,
    p_passes: bool,
    q_passes: bool,
    alpha_size: usize,
) -> (r: Option<NGen>)
    ensures
        r is Some <==> (p_passes && q_passes && pairwise_coprime(div_p@, div_q@, other_p@, other_q@)),
        r is Some ==> ({
            let ng = r.unwrap();
            &&& structured(ng.p@, div_p@, other_p@)
            &&& structured(ng.q@, div_q@, other_q@)
            &&& ng.n@ == ng.p@ * ng.q@
            &&& ng.div_p@ == div_p@ && ng.div_q@ == div_q@
            &&& ng.alpha_size == alpha_size
        }),
{
    if !(p_passes && q_passes && check_coprime(&div_p, &div_q, other_p, other_q)) {
        return None;
    }
    let p = structured_prime(&div_p, other_p);
    let q = structured_prime(&div_q, other_q);
    let n = big_mul(&p, &q);
    Some(NGen { n, p, q, div_p, div_q, alpha_size })
}

/// The structured-prime search: draws `div_p`, `div_q` (prime, or safe prime), odd
/// cofactors, and keeps `p = 2·div_p·other_p + 1`, `q = 2·div_q·other_q + 1` once both
/// pass the primality test and the four divisors are pairwise coprime. Returns the
/// parameters and the number of attempts used.
pub fn generate_parameters(
    n_bit_length: usize,
    alpha_bit_length: usize,
    safe_primes: bool,
    max_attempts: u64,
) -> (r: Result<(NGen, u64), PaillierError>)
    ensures
        r == Err::<(NGen, u64), PaillierError>(PaillierError::InvalidParameters) <==> !sizes_ok(
            n_bit_length as nat,
            alpha_bit_length as nat,
        ),
        r is Err ==> r == Err::<(NGen, u64), PaillierError>(PaillierError::InvalidParameters) || r == Err::<
            (NGen, u64),
            PaillierError,
        >(PaillierError::KeyGenerationExhausted),
        r is Ok ==> generated_params(r.unwrap().0, n_bit_length, alpha_bit_length, safe_primes) && 1
            <= r.unwrap().1 <= max_attempts,
{
    if alpha_bit_length / 2 < 3 || n_bit_length < 6 || n_bit_length - 6 < alpha_bit_length {
        return Err(PaillierError::InvalidParameters);
    }
    let div_bits = alpha_bit_length / 2;
    let other_bit_length = (n_bit_length - alpha_bit_length) / 2 - 1;
    let mut attempt: u64 = 0;
    while attempt < max_attempts
        invariant
            div_bits >= 3,
            div_bits == alpha_bit_length / 2,
            other_bit_length == cofactor_bits(n_bit_length as nat, alpha_bit_length as nat),
            other_bit_length >= 1,
            sizes_ok(n_bit_length as nat, alpha_bit_length as nat),
        decreases max_attempts - attempt,
    {
        attempt = attempt + 1;
        let (dp, dq) = if safe_primes {
            (sample_safe_prime(div_bits), sample_safe_prime(div_bits))
        } else {
            (sample_prime(div_bits), sample_prime(div_bits))
        };
        if let (Some(div_p), Some(div_q)) = (dp, dq) {
            let other_p = sample_odd(other_bit_length);
            let other_q = sample_odd(other_bit_length);
            let p_passes = is_probable_prime(&structured_prime(&div_p, &other_p));
            let q_passes = is_probable_prime(&structured_prime(&div_q, &other_q));
            let ghost (dpv, dqv) = (div_p@, div_q@);
            if let Some(ng) = assemble_parameters(div_p, div_q, &other_p, &other_q, p_passes, q_passes, alpha_bit_length) {
                proof {
                    assert(dpv >= 1 && other_p@ >= 1 && dqv >= 1 && other_q@ >= 1);
                    assert(2 * dpv * other_p@ >= 2) by (nonlinear_arith)
                        requires
                            dpv >= 1,
                            other_p@ >= 1,
                    ;
                    assert(2 * dqv * other_q@ >= 2) by (nonlinear_arith)
                        requires
                            dqv >= 1,
                            other_q@ >= 1,
                    ;
                    assert(structured(ng.p@, ng.div_p@, other_p@));
                    assert(structured(ng.q@, ng.div_q@, other_q@));
                }
                return Ok((ng, attempt));
            }
        }
    }
    Err(PaillierError::KeyGenerationExhausted)
}

/// A value below `n` coprime to `n`, drawn uniformly.
fn sample_coprime(n: &BigNat) -> (r: Result<BigNat, PaillierError>)
    requires
        n@ > 0,
    ensures
        r is Ok ==> r.unwrap()@ < n@ && gcd(r.unwrap()@, n@) == 1,
        r is Err ==> r == Err::<BigNat, PaillierError>(PaillierError::KeyGenerationExhausted),
{
    let one = BigNat::from_u64(1);
    let mut attempt: u64 = 0;
    while attempt < MAX_COPRIME_DRAWS
        invariant
            n@ > 0,
            one@ == 1,
        decreases MAX_COPRIME_DRAWS - attempt,
    {
        let y = big_sample_below(n);
        if big_eq(&big_gcd(&y, n), &one) {
            return Ok(y);
        }
        attempt = attempt + 1;
    }
    Err(PaillierError::KeyGenerationExhausted)
}

/// Key derivation: `alpha = div_p·div_q`, `beta = (p-1)(q-1) / (4·alpha)` (which must
/// divide exactly), `h = y^(2·beta) mod n` for a random `y` coprime to `n`, and
/// `hn = h^n mod n^2`.
pub fn derive_keys(
    alpha_size: usize,
    n: &BigNat,
    p: &BigNat,
    q: &BigNat,
    div_p: &BigNat,
    div_q: &BigNat,
) -> (r: Result<(EncryptionKey, DecryptionKey), PaillierError>)
    requires
        p@ > 1,
        q@ > 1,
        n@ == p@ * q@,
        div_p@ > 0,
        div_q@ > 0,
    ensures
        !beta_exact(p@, q@, div_p@, div_q@) <==> r == Err::<(EncryptionKey, DecryptionKey), PaillierError>(
            PaillierError::NotReconstructible,
        ),
        r is Err ==> r == Err::<(EncryptionKey, DecryptionKey), PaillierError>(PaillierError::NotReconstructible)
            || r == Err::<(EncryptionKey, DecryptionKey), PaillierError>(PaillierError::KeyGenerationExhausted),
        r is Ok ==> derived_from(r.unwrap().0, r.unwrap().1, alpha_size, n@, p@, q@, div_p@, div_q@),
{
    if !check_beta(p, q, div_p, div_q) {
        return Err(PaillierError::NotReconstructible);
    }
    proof {
        assert(n@ > 0) by (nonlinear_arith)
            requires
                n@ == p@ * q@,
                p@ > 1,
                q@ > 1,
        ;
    }
    let y = sample_coprime(n)?;
    let r = derive_keys_with(alpha_size, n, p, q, div_p, div_q, &y);
    proof {
        if r is Ok {
            assert(keys_from(r.unwrap().0, r.unwrap().1, alpha_size, n@, p@, q@, div_p@, div_q@, y@));
        }
    }
    r
}

/// Whether `(p-1)(q-1)` is a multiple of `4·div_p·div_q`.
fn check_beta(p: &BigNat, q: &BigNat, div_p: &BigNat, div_q: &BigNat) -> (r: bool)
    requires
        p@ > 1,
        q@ > 1,
        div_p@ > 0,
        div_q@ > 0,
    ensures
        r == beta_exact(p@, q@, div_p@, div_q@),
{
    let one = BigNat::from_u64(1);
    let phi = big_mul(&big_sub(p, &one), &big_sub(q, &one));
    let den = big_mul(&BigNat::from_u64(4), &big_mul(div_p, div_q));
    proof {
        assert(den@ > 0 && den@ == 4 * div_p@ * div_q@) by (nonlinear_arith)
            requires
                den@ == 4 * (div_p@ * div_q@),
                div_p@ > 0,
                div_q@ > 0,
        ;
    }
    big_eq(&big_rem(&phi, &den), &BigNat::from_u64(0))
}

/// Key derivation with the given `y`: `alpha = div_p·div_q`,
/// `beta = (p-1)(q-1) / (4·alpha)` (which must divide exactly), `h = y^(2·beta) mod n`
/// and `hn = h^n mod n^2`.
pub fn derive_keys_with(
    alpha_size: usize,
    n: &BigNat,
    p: &BigNat,
    q: &BigNat,
    div_p: &BigNat,
    div_q: &BigNat,
    y: &BigNat,
) -> (r: Result<(EncryptionKey, DecryptionKey), PaillierError>)
    requires
        p@ > 1,
        q@ > 1,
        n@ == p@ * q@,
        div_p@ > 0,
        div_q@ > 0,
    ensures
        !beta_exact(p@, q@, div_p@, div_q@) <==> r == Err::<(EncryptionKey, DecryptionKey), PaillierError>(
            PaillierError::NotReconstructible,
        ),
        beta_exact(p@, q@, div_p@, div_q@) ==> r is Ok && keys_from(
            r.unwrap().0,
            r.unwrap().1,
            alpha_size,
            n@,
            p@,
            q@,
            div_p@,
            div_q@,
            y@,
        ) && r.unwrap().0.wf() && r.unwrap().1.wf(),
{
    let one = BigNat::from_u64(1);
    let two = BigNat::from_u64(2);
    let four = BigNat::from_u64(4);
    let nn = big_mul(n, n);
    let alpha = big_mul(div_p, div_q);
    let phi = big_mul(&big_sub(p, &one), &big_sub(q, &one));
    let den = big_mul(&four, &alpha);
    proof {
        assert(den@ > 0) by (nonlinear_arith)
            requires
                den@ == 4 * (div_p@ * div_q@),
                div_p@ > 0,
                div_q@ > 0,
        ;
        assert(4 * div_p@ * div_q@ == den@) by (nonlinear_arith)
            requires
                den@ == 4 * (div_p@ * div_q@),
        ;
        assert(n@ > 1 && nn@ > 1) by (nonlinear_arith)
            requires
                n@ == p@ * q@,
                nn@ == n@ * n@,
                p@ > 1,
                q@ > 1,
        ;
    }
    if !big_eq(&big_rem(&phi, &den), &BigNat::from_u64(0)) {
        return Err(PaillierError::NotReconstructible);
    }
    let beta = big_div(&phi, &den);
    let h = big_mod_pow(y, &big_mul(&two, &beta), n);
    let hn = big_mod_pow(&h, n, &nn);
    let ek = EncryptionKey { alpha_size, hn, n: n.clone(), nn: nn.clone(), h };
    let dk = DecryptionKey { alpha, nn, n: n.clone(), p: p.clone(), q: q.clone() };
    Ok((ek, dk))
}

impl NGen {
    /// The encryption and decryption keys of these parameters.
    pub fn keys(&self) -> (r: Result<(EncryptionKey, DecryptionKey), PaillierError>)
        requires
            self.wf(),
        ensures
            !beta_exact(self.p@, self.q@, self.div_p@, self.div_q@) <==> r == Err::<
                (EncryptionKey, DecryptionKey),
                PaillierError,
            >(PaillierError::NotReconstructible),
            r is Err ==> r == Err::<(EncryptionKey, DecryptionKey), PaillierError>(
                PaillierError::NotReconstructible,
            ) || r == Err::<(EncryptionKey, DecryptionKey), PaillierError>(
                PaillierError::KeyGenerationExhausted,
            ),
            r is Ok ==> derived_from(
                r.unwrap().0,
                r.unwrap().1,
                self.alpha_size,
                self.n@,
                self.p@,
                self.q@,
                self.div_p@,
                self.div_q@,
            ),
    {
        derive_keys(self.alpha_size, &self.n, &self.p, &self.q, &self.div_p, &self.div_q)
    }

    /// `((p - 1) / 2) / div_p`.
    pub fn other_div_p(&self) -> (r: BigNat)
        requires
            self.p@ >= 1,
            self.div_p@ > 0,
        ensures
            r@ == ((self.p@ - 1) as nat / 2) / self.div_p@,
    {
        let one = BigNat::from_u64(1);
        let two = BigNat::from_u64(2);
        big_div(&big_div(&big_sub(&self.p, &one), &two), &self.div_p)
    }

    /// `((q - 1) / 2) / div_q`.
    pub fn other_div_q(&self) -> (r: BigNat)
        requires
            self.q@ >= 1,
            self.div_q@ > 0,
        ensures
            r@ == ((self.q@ - 1) as nat / 2) / self.div_q@,
    {
        let one = BigNat::from_u64(1);
        let two = BigNat::from_u64(2);
        big_div(&big_div(&big_sub(&self.q, &one), &two), &self.div_q)
    }

    /// Keys from given primes whose divisor structure is recovered by trial division
    /// with divisors of `alpha_bit_length / 2` bits.
    pub fn keys_with_primes(p: &BigNat, q: &BigNat, alpha_bit_length: usize) -> (r: Result<
        (EncryptionKey, DecryptionKey),
        PaillierError,
    >)
        ensures
            r is Ok ==> exists|dp: nat, op: nat, dq: nat, oq: nat|
                #[trigger] reconstructible(p@, q@, (alpha_bit_length / 2) as nat, dp, op, dq, oq) && derived_from(
                    r.unwrap().0,
                    r.unwrap().1,
                    alpha_bit_length,
                    p@ * q@,
                    p@,
                    q@,
                    dp,
                    dq,
                ),
            forall|dp: nat, op: nat, dq: nat, oq: nat|
                #[trigger] reconstructible(p@, q@, (alpha_bit_length / 2) as nat, dp, op, dq, oq) && is_prime(dp)
                    && is_prime(dq) && beta_exact(p@, q@, dp, dq) ==> r != Err::<
                    (EncryptionKey, DecryptionKey),
                    PaillierError,
                >(PaillierError::NotReconstructible),
            forall|dp: nat, op: nat, dq: nat, oq: nat|
                #[trigger] reconstructible(p@, q@, (alpha_bit_length / 2) as nat, dp, op, dq, oq) && !beta_exact(
                    p@,
                    q@,
                    dp,
                    dq,
                ) ==> r == Err::<(EncryptionKey, DecryptionKey), PaillierError>(PaillierError::NotReconstructible),
            (forall|dp: nat, op: nat, dq: nat, oq: nat|
                !#[trigger] reconstructible(p@, q@, (alpha_bit_length / 2) as nat, dp, op, dq, oq)) ==> r == Err::<
                (EncryptionKey, DecryptionKey),
                PaillierError,
            >(PaillierError::NotReconstructible),
            r is Err ==> r == Err::<(EncryptionKey, DecryptionKey), PaillierError>(PaillierError::NotReconstructible)
                || r == Err::<(EncryptionKey, DecryptionKey), PaillierError>(PaillierError::KeyGenerationExhausted),
    {
        let ghost s = (alpha_bit_length / 2) as nat;
        match OptimizedPaillier::find_divisors(p, q, alpha_bit_length) {
            None => Err(PaillierError::NotReconstructible),
            Some((div_p, other_div_p, div_q, other_div_q)) => {
                proof {
                    assert(p@ > 1 && q@ > 1) by (nonlinear_arith)
                        requires
                            p@ == 2 * div_p@ * other_div_p@ + 1,
                            q@ == 2 * div_q@ * other_div_q@ + 1,
                            div_p@ >= 1,
                            div_q@ >= 1,
                            other_div_p@ >= 1,
                            other_div_q@ >= 1,
                    ;
                    assert forall|dp: nat, op: nat, dq: nat, oq: nat|
                        #[trigger] reconstructible(p@, q@, s, dp, op, dq, oq) implies dp == div_p@ && op
                        == other_div_p@ && dq == div_q@ && oq == other_div_q@ by {
                        lemma_reconstructible_unique(p@, q@, s, dp, op, dq, oq, div_p@, other_div_p@, div_q@, other_div_q@);
                    }
                }
                let n = big_mul(p, q);
                let r = derive_keys(alpha_bit_length, &n, p, q, &div_p, &div_q);
                proof {
                    if r is Ok {
                        assert(reconstructible(p@, q@, s, div_p@, other_div_p@, div_q@, other_div_q@));
                    }
                }
                r
            },
        }
    }
}

/// The recovered divisor structure is unique.
proof fn lemma_reconstructible_unique(
    p: nat,
    q: nat,
    s: nat,
    dp: nat,
    op: nat,
    dq: nat,
    oq: nat,
    ep: nat,
    tp: nat,
    eq: nat,
    tq: nat,
)
    requires
        reconstructible(p, q, s, dp, op, dq, oq),
        reconstructible(p, q, s, ep, tp, eq, tq),
    ensures
        dp == ep && op == tp && dq == eq && oq == tq,
{
    assert((p - 1) as nat == 2 * (ep * tp)) by (nonlinear_arith)
        requires
            p == 2 * ep * tp + 1,
    ;
    assert((q - 1) as nat == 2 * (eq * tq)) by (nonlinear_arith)
        requires
            q == 2 * eq * tq + 1,
    ;
    lemma_recovered_unique(p, s, dp, op, ep, tp);
    lemma_recovered_unique(q, s, dq, oq, eq, tq);
}

impl OptimizedPaillier {
    /// The first divisor of `n` in `[2^(target_size-1), 2^target_size)`, with its cofactor.
    pub fn factor_with_size(n: &BigNat, target_size: usize) -> (r: Option<(BigNat, BigNat)>)
        requires
            1 <= target_size <= u32::MAX,
        ensures
            r is Some ==> ({
                let (d, o) = r.unwrap();
                &&& pow2((target_size - 1) as nat) <= d@ < pow2(target_size as nat)
                &&& d@ * o@ == n@
                &&& forall|x: nat| pow2((target_size - 1) as nat) <= x < d@ ==> #[trigger] (n@ % x) != 0
            }),
            r is None ==> forall|x: nat|
                pow2((target_size - 1) as nat) <= x < pow2(target_size as nat) ==> #[trigger] (n@ % x) != 0,
    {
        let one = BigNat::from_u64(1);
        let two = BigNat::from_u64(2);
        let zero = BigNat::from_u64(0);
        let min_prime = big_pow(&two, (target_size - 1) as u32);
        let max_prime = big_pow(&two, target_size as u32);
        proof {
            lemma_pow2((target_size - 1) as nat);
            lemma_pow2(target_size as nat);
            vstd::arithmetic::power2::lemma_pow2_pos((target_size - 1) as nat);
        }
        let mut potential_div = min_prime.clone();
        while big_lt(&potential_div, &max_prime)
            invariant
                one@ == 1,
                zero@ == 0,
                min_prime@ == pow2((target_size - 1) as nat),
                max_prime@ == pow2(target_size as nat),
                min_prime@ > 0,
                min_prime@ <= potential_div@,
                forall|x: nat| min_prime@ <= x < potential_div@ ==> #[trigger] (n@ % x) != 0,
            decreases max_prime@ - potential_div@,
        {
            if big_eq(&big_rem(n, &potential_div), &zero) {
                let other_div = big_div(n, &potential_div);
                proof {
                    vstd::arithmetic::div_mod::lemma_fundamental_div_mod(n@ as int, potential_div@ as int);
                }
                if big_eq(&big_mul(&potential_div, &other_div), n) {
                    return Some((potential_div, other_div));
                }
            }
            potential_div = big_add(&potential_div, &one);
        }
        None
    }

    /// Recovers `(div_p, other_p, div_q, other_q)`: `div_p` is the least divisor of
    /// `(p-1)/2` with `alpha_bit_length / 2` bits and `other_p` its cofactor, likewise
    /// for `q`; the divisors must pass the primality test, the four values be pairwise
    /// coprime, and `p = 2·div_p·other_p + 1`, `q = 2·div_q·other_q + 1`.
    pub fn find_divisors(p: &BigNat, q: &BigNat, alpha_bit_length: usize) -> (r: Option<
        (BigNat, BigNat, BigNat, BigNat),
    >)
        ensures
            r is Some ==> ({
                let (dp, op, dq, oq) = r.unwrap();
                &&& reconstructible(p@, q@, (alpha_bit_length / 2) as nat, dp@, op@, dq@, oq@)
                &&& dp@ >= 1 && dq@ >= 1 && op@ >= 1 && oq@ >= 1
            }),
            forall|dp: nat, op: nat, dq: nat, oq: nat|
                #[trigger] reconstructible(p@, q@, (alpha_bit_length / 2) as nat, dp, op, dq, oq)
                    && is_prime(dp) && is_prime(dq) ==> r is Some && r.unwrap().0@ == dp && r.unwrap().1@ == op
                    && r.unwrap().2@ == dq && r.unwrap().3@ == oq,
    {
        let size = alpha_bit_length / 2;
        let ghost s = size as nat;
        let one = BigNat::from_u64(1);
        let two = BigNat::from_u64(2);
        let three = BigNat::from_u64(3);
        if size < 1 || size > 0xffff_ffff || big_lt(p, &three) || big_lt(q, &three) {
            return None;
        }
        let p_half = big_div(&big_sub(p, &one), &two);
        let q_half = big_div(&big_sub(q, &one), &two);
        let fp = Self::factor_with_size(&p_half, size);
        let fq = Self::factor_with_size(&q_half, size);
        let (div_p, other_div_p) = match fp {
            Some(x) => x,
            None => {
                proof {
                    assert forall|dp: nat, op: nat, dq: nat, oq: nat|
                        #[trigger] reconstructible(p@, q@, s, dp, op, dq, oq) implies false by {
                        assert(p_half@ % dp == 0);
                    }
                }
                return None;
            },
        };
        let (div_q, other_div_q) = match fq {
            Some(x) => x,
            None => {
                proof {
                    assert forall|dp: nat, op: nat, dq: nat, oq: nat|
                        #[trigger] reconstructible(p@, q@, s, dp, op, dq, oq) implies false by {
                        assert(q_half@ % dq == 0);
                    }
                }
                return None;
            },
        };
        proof {
            assert forall|dp: nat, op: nat, dq: nat, oq: nat|
                #[trigger] reconstructible(p@, q@, s, dp, op, dq, oq) implies dp == div_p@ && op == other_div_p@
                && dq == div_q@ && oq == other_div_q@ by {
                lemma_recovered_unique(p@, s, dp, op, div_p@, other_div_p@);
                lemma_recovered_unique(q@, s, dq, oq, div_q@, other_div_q@);
            }
        }
        if is_probable_prime(&div_p) && is_probable_prime(&div_q) && check_coprime(
            &div_p,
            &div_q,
            &other_div_p,
            &other_div_q,
        ) {
            let p_check = structured_prime(&div_p, &other_div_p);
            let q_check = structured_prime(&div_q, &other_div_q);
            if big_eq(&p_check, p) && big_eq(&q_check, q) {
                proof {
                    vstd::arithmetic::power2::lemma_pow2_pos((size - 1) as nat);
                    assert(other_div_p@ >= 1 && other_div_q@ >= 1) by (nonlinear_arith)
                        requires
                            div_p@ * other_div_p@ == p_half@,
                            div_q@ * other_div_q@ == q_half@,
                            p_half@ >= 1,
                            q_half@ >= 1,
                    ;
                    vstd::arithmetic::div_mod::lemma_mod_multiples_basic(other_div_p@ as int, div_p@ as int);
                    vstd::arithmetic::div_mod::lemma_mod_multiples_basic(other_div_q@ as int, div_q@ as int);
                    assert(other_div_p@ * div_p@ == div_p@ * other_div_p@) by (nonlinear_arith);
                    assert(other_div_q@ * div_q@ == div_q@ * other_div_q@) by (nonlinear_arith);
                    assert(least_divisor_in(((p@ - 1) as nat) / 2, s, div_p@));
                    assert(least_divisor_in(((q@ - 1) as nat) / 2, s, div_q@));
                }
                return Some((div_p, other_div_p, div_q, other_div_q));
            }
        }
        None
    }

    /// Whether the parameters have the structure: `p = 2·div_p·other_p + 1` and
    /// `q = 2·div_q·other_q + 1` with the cofactors `((p-1)/2)/div_p` and
    /// `((q-1)/2)/div_q`, `p`, `q`, `div_p`, `div_q` passing the primality test, and
    /// the four divisors pairwise coprime.
    pub fn verify_ngen(ngen: &NGen) -> (r: bool)
        ensures
            r ==> ngen.p@ >= 1 && ngen.q@ >= 1 && ngen.div_p@ > 0 && ngen.div_q@ > 0,
            r ==> ({
                let op = ((ngen.p@ - 1) as nat / 2) / ngen.div_p@;
                let oq = ((ngen.q@ - 1) as nat / 2) / ngen.div_q@;
                &&& structured(ngen.p@, ngen.div_p@, op)
                &&& structured(ngen.q@, ngen.div_q@, oq)
                &&& pairwise_coprime(ngen.div_p@, ngen.div_q@, op, oq)
            }),
            ({
                let op = ((ngen.p@ - 1) as nat / 2) / ngen.div_p@;
                let oq = ((ngen.q@ - 1) as nat / 2) / ngen.div_q@;
                &&& ngen.p@ >= 1 && ngen.q@ >= 1 && ngen.div_p@ > 0 && ngen.div_q@ > 0
                &&& structured(ngen.p@, ngen.div_p@, op)
                &&& structured(ngen.q@, ngen.div_q@, oq)
                &&& pairwise_coprime(ngen.div_p@, ngen.div_q@, op, oq)
                &&& is_prime(ngen.p@) && is_prime(ngen.q@)
                &&& is_prime(ngen.div_p@) && is_prime(ngen.div_q@)
            }) ==> r,
    {
        let one = BigNat::from_u64(1);
        let two = BigNat::from_u64(2);
        let zero = BigNat::from_u64(0);
        if big_lt(&ngen.p, &one) || big_lt(&ngen.q, &one) || big_eq(&ngen.div_p, &zero) || big_eq(
            &ngen.div_q,
            &zero,
        ) {
            return false;
        }
        let other_div_p = ngen.other_div_p();
        let other_div_q = ngen.other_div_q();
        let p_check = big_add(&big_mul(&big_mul(&two, &ngen.div_p), &other_div_p), &one);
        let q_check = big_add(&big_mul(&big_mul(&two, &ngen.div_q), &other_div_q), &one);
        big_eq(&p_check, &ngen.p) && big_eq(&q_check, &ngen.q) && is_probable_prime(&ngen.p)
            && is_probable_prime(&ngen.q) && is_probable_prime(&ngen.div_p) && is_probable_prime(&ngen.div_q)
            && check_coprime(&ngen.div_p, &ngen.div_q, &other_div_p, &other_div_q)
    }
}


impl EncryptionKey {
    pub fn new(alpha_size: usize, n: BigNat, h: BigNat, hn: BigNat) -> (r: Self)
        ensures
            r.alpha_size == alpha_size,
            r.n@ == n@,
            r.nn@ == n@ * n@,
            r.h@ == h@,
            r.hn@ == hn@,
    {
        let nn = big_mul(&n, &n);
        EncryptionKey { alpha_size, n, nn, h, hn }
    }

    /// A public key for modulus `n` alone: `h = y^2 mod n` for a random `y` coprime to
    /// `n`, and `hn = h^n mod n^2`.
    pub fn from_n(n: BigNat, alpha_size: usize) -> (r: Result<Self, PaillierError>)
        ensures
            r == Err::<Self, PaillierError>(PaillierError::InvalidKey) <==> n@ <= 1,
            r is Err ==> r == Err::<Self, PaillierError>(PaillierError::InvalidKey) || r == Err::<
                Self,
                PaillierError,
            >(PaillierError::KeyGenerationExhausted),
            r is Ok ==> r.unwrap().wf() && exists|y: nat|
                y < n@ && gcd(y, n@) == 1 && #[trigger] key_of_modulus(r.unwrap(), n@, alpha_size, y),
    {
        let one = BigNat::from_u64(1);
        if !big_lt(&one, &n) {
            return Err(PaillierError::InvalidKey);
        }
        let y = sample_coprime(&n)?;
        let r = Self::from_n_with(n, alpha_size, &y);
        proof {
            assert(key_of_modulus(r.unwrap(), r.unwrap().n@, alpha_size, y@));
        }
        r
    }

    /// The public key for modulus `n` made from the given `y`: `h = y^2 mod n` and
    /// `hn = h^n mod n^2`.
    pub fn from_n_with(n: BigNat, alpha_size: usize, y: &BigNat) -> (r: Result<Self, PaillierError>)
        ensures
            r == Err::<Self, PaillierError>(PaillierError::InvalidKey) <==> n@ <= 1,
            n@ > 1 ==> r is Ok && r.unwrap().wf() && key_of_modulus(r.unwrap(), n@, alpha_size, y@),
    {
        let one = BigNat::from_u64(1);
        if !big_lt(&one, &n) {
            return Err(PaillierError::InvalidKey);
        }
        let nn = big_mul(&n, &n);
        proof {
            assert(nn@ > 1) by (nonlinear_arith)
                requires
                    nn@ == n@ * n@,
                    n@ > 1,
            ;
        }
        let h = big_mod_pow(y, &BigNat::from_u64(2), &n);
        let hn = big_mod_pow(&h, &n, &nn);
        Ok(EncryptionKey { alpha_size, n, nn, h, hn })
    }

    /// Homomorphic addition of two ciphertexts: `oadd(Enc(a1), Enc(a2)) = Enc(a1 + a2)`.
    pub fn oadd(&self, c1: &RawCiphertext, c2: &RawCiphertext) -> (r: Result<RawCiphertext, PaillierError>)
        ensures
            add_outcome(*self, c1.0@, c2.0@, raw_ct(r)),
    {
        wrap_ct(add_ciphertexts(self, &c1.0, &c2.0))
    }

    /// Homomorphic negation: the inverse of the ciphertext modulo `n^2`.
    pub fn oneg(&self, ciphertext: &RawCiphertext) -> (r: Result<RawCiphertext, PaillierError>)
        ensures
            !self.wf() ==> r == Err::<RawCiphertext, PaillierError>(PaillierError::InvalidKey),
            self.wf() && ciphertext.0@ >= self.nn@ ==> r == Err::<RawCiphertext, PaillierError>(
                PaillierError::OutOfDomain,
            ),
            self.wf() && ciphertext.0@ < self.nn@ && !invertible(ciphertext.0@, self.nn@) ==> r == Err::<
                RawCiphertext,
                PaillierError,
            >(PaillierError::NotInvertible),
            self.wf() && ciphertext.0@ < self.nn@ && invertible(ciphertext.0@, self.nn@) ==> r is Ok && r.unwrap().0@
                < self.nn@ && (r.unwrap().0@ * ciphertext.0@) % self.nn@ == 1,
    {
        if !self.check() {
            return Err(PaillierError::InvalidKey);
        }
        if !big_lt(&ciphertext.0, &self.nn) {
            return Err(PaillierError::OutOfDomain);
        }
        proof {
            assert(self.nn@ > 1) by (nonlinear_arith)
                requires
                    self.nn@ == self.n@ * self.n@,
                    self.n@ > 1,
            ;
        }
        match big_mod_inv(&ciphertext.0, &self.nn) {
            Some(inv) => Ok(RawCiphertext(inv)),
            None => Err(PaillierError::NotInvertible),
        }
    }

    /// Homomorphic subtraction: `osub(Enc(a1), Enc(a2)) = Enc(a1 - a2)`, the first
    /// ciphertext times the inverse of the second.
    pub fn osub(&self, c1: &RawCiphertext, c2: &RawCiphertext) -> (r: Result<RawCiphertext, PaillierError>)
        ensures
            r is Ok ==> self.wf() && c2.0@ < self.nn@ && exists|neg: nat|
                (neg * c2.0@) % self.nn@ == 1 && neg < self.nn@ && #[trigger] ((c1.0@ * neg) % self.nn@)
                    == r.unwrap().0@,
            self.wf() && c1.0@ < self.nn@ && c2.0@ < self.nn@ && invertible(c2.0@, self.nn@) ==> r is Ok,
    {
        let c2_neg = self.oneg(c2)?;
        let r = self.oadd(c1, &c2_neg);
        proof {
            if r is Ok {
                assert((c1.0@ * c2_neg.0@) % self.nn@ == r.unwrap().0@);
            }
        }
        r
    }

    /// Homomorphic multiplication by a scalar: `omul(a, Enc(c)) = Enc(a·c)`.
    pub fn omul(&self, scalar: &BigNat, ciphertext: &RawCiphertext) -> (r: Result<RawCiphertext, PaillierError>)
        ensures
            mul_outcome(*self, ciphertext.0@, scalar@, raw_ct(r)),
    {
        wrap_ct(mul_plaintext(self, &ciphertext.0, scalar))
    }
}

impl DecryptionKey {
    /// Homomorphic multiplication by a scalar, computed modulo `p^2` and `q^2` and
    /// recombined: `c^a mod n^2`.
    pub fn omul(&self, scalar: &BigNat, ciphertext: &RawCiphertext) -> (r: Result<RawCiphertext, PaillierError>)
        ensures
            !self.wf() ==> r == Err::<RawCiphertext, PaillierError>(PaillierError::InvalidKey),
            self.wf() && ciphertext.0@ >= self.nn@ ==> r == Err::<RawCiphertext, PaillierError>(
                PaillierError::OutOfDomain,
            ),
            self.wf() && ciphertext.0@ < self.nn@ && !invertible(self.p@ * self.p@, self.q@ * self.q@) ==> r
                == Err::<RawCiphertext, PaillierError>(PaillierError::NotInvertible),
            self.wf() && ciphertext.0@ < self.nn@ && invertible(self.p@ * self.p@, self.q@ * self.q@) ==> r is Ok
                && r.unwrap().0@ == pow_mod(ciphertext.0@, scalar@, self.nn@),
    {
        if !self.check() {
            return Err(PaillierError::InvalidKey);
        }
        let c = &ciphertext.0;
        if !big_lt(c, &self.nn) {
            return Err(PaillierError::OutOfDomain);
        }
        let pp = big_mul(&self.p, &self.p);
        let qq = big_mul(&self.q, &self.q);
        proof {
            assert(pp@ > 1 && qq@ > 1 && pp@ * qq@ == self.nn@) by (nonlinear_arith)
                requires
                    pp@ == self.p@ * self.p@,
                    qq@ == self.q@ * self.q@,
                    self.p@ > 1,
                    self.q@ > 1,
                    self.n@ == self.p@ * self.q@,
                    self.nn@ == self.n@ * self.n@,
            ;
        }
        let coefficient = match big_mod_inv(&pp, &qq) {
            Some(x) => x,
            None => {
                return Err(PaillierError::NotInvertible);
            },
        };
        let cp = big_mod_pow(c, scalar, &pp);
        let cq = big_mod_pow(c, scalar, &qq);
        let diff = big_mod_sub(&cq, &cp, &qq);
        let u = big_mod_mul(&diff, &coefficient, &qq);
        let result = big_add(&cp, &big_mul(&u, &pp));
        proof {
            let t = pow_mod(c@, scalar@, self.nn@);
            let full = vstd::arithmetic::power::pow(c@ as int, scalar@);
            lemma_crt_recombine(cp@ as int, cq@ as int, pp@ as int, qq@ as int, coefficient@ as int);
            vstd::arithmetic::div_mod::lemma_mod_bound(cq@ - cp@, qq@ as int);
            vstd::arithmetic::div_mod::lemma_mul_mod_noop_left(diff@ as int, coefficient@ as int, qq@ as int);
            vstd::arithmetic::div_mod::lemma_mod_bound(full, self.nn@ as int);
            vstd::arithmetic::div_mod::lemma_mod_mod(full, pp@ as int, qq@ as int);
            assert(qq@ * pp@ == self.nn@) by (nonlinear_arith)
                requires
                    pp@ * qq@ == self.nn@,
            ;
            vstd::arithmetic::div_mod::lemma_mod_mod(full, qq@ as int, pp@ as int);
            lemma_crt_unique(result@ as int, t as int, pp@ as int, qq@ as int, coefficient@ as int);
        }
        Ok(RawCiphertext(result))
    }
}

} // verus!
