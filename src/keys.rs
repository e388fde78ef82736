//! Generation parameters, public and private keys, and the raw plaintext and
//! ciphertext values that the operations take.

use vstd::prelude::*;

use crate::bignat::{big_eq, big_lt, big_mul, BigNat};

verus! {

/// The errors that the operations of the library return.
#[derive(Debug, Clone, Copy, PartialEq, Eq, Structural)]
pub enum PaillierError {
    /// The structured-prime search used up its attempts.
    KeyGenerationExhausted,
    /// A plaintext is not below `n`, or a ciphertext not below `n^2`.
    OutOfDomain,
    /// The primes do not admit the divisor structure for the given size.
    NotReconstructible,
    /// A value that must have a modular inverse has none.
    NotInvertible,
    /// A key whose fields do not fit together (`n = p·q`, `nn = n^2`, `n > 1`).
    InvalidKey,
    /// Sizes outside what the operation supports.
    InvalidParameters,
    /// A malformed or incomplete serialized record.
    ParseError,
}

/// Marker type on which the operations of the cryptosystem are implemented.
pub struct OptimizedPaillier;

/// The values that keys are derived from: `n = p·q`, `p = 2·div_p·other_p + 1`,
/// `q = 2·div_q·other_q + 1`.
#[derive(Debug)]
pub struct NGen {
    pub alpha_size: usize,
    pub n: BigNat,
    pub p: BigNat,
    pub q: BigNat,
    pub div_p: BigNat,
    pub div_q: BigNat,
}

/// Public key.
#[derive(Debug)]
pub struct EncryptionKey {
    pub alpha_size: usize,
    pub n: BigNat,
    pub nn: BigNat,
    pub h: BigNat,
    pub hn: BigNat,
}

/// Private key.
#[derive(Debug)]
pub struct DecryptionKey {
    pub p: BigNat,
    pub q: BigNat,
    pub alpha: BigNat,
    pub n: BigNat,
    pub nn: BigNat,
}

/// Unencrypted message without type information.
#[derive(Debug)]
pub struct RawPlaintext(pub BigNat);

/// Encrypted message without type information.
#[derive(Debug)]
pub struct RawCiphertext(pub BigNat);

/// The random exponent of one encryption.
#[derive(Debug)]
pub struct Randomness(pub BigNat);

impl NGen {
    /// `n = p·q` with `p, q > 1`, and non-zero divisors.
    pub open spec fn wf(&self) -> bool {
        &&& self.p@ > 1
        &&& self.q@ > 1
        &&& self.n@ == self.p@ * self.q@
        &&& self.div_p@ > 0
        &&& self.div_q@ > 0
    }
}

impl EncryptionKey {
    pub open spec fn wf(&self) -> bool {
        self.n@ > 1 && self.nn@ == self.n@ * self.n@
    }

    /// Whether the key is well formed.
    pub fn check(&self) -> (r: bool)
        ensures
            r == self.wf(),
    {
        let one = BigNat::from_u64(1);
        big_lt(&one, &self.n) && big_eq(&self.nn, &big_mul(&self.n, &self.n))
    }
}

impl DecryptionKey {
    pub open spec fn wf(&self) -> bool {
        &&& self.p@ > 1
        &&& self.q@ > 1
        &&& self.n@ == self.p@ * self.q@
        &&& self.nn@ == self.n@ * self.n@
    }

    /// Whether the key is well formed.
    pub fn check(&self) -> (r: bool)
        ensures
            r == self.wf(),
    {
        let one = BigNat::from_u64(1);
        big_lt(&one, &self.p) && big_lt(&one, &self.q) && big_eq(&self.n, &big_mul(&self.p, &self.q))
            && big_eq(&self.nn, &big_mul(&self.n, &self.n))
    }

    pub fn new(p: BigNat, q: BigNat, alpha: BigNat, n: BigNat) -> (r: Self)
        ensures
            r.p@ == p@,
            r.q@ == q@,
            r.alpha@ == alpha@,
            r.n@ == n@,
            r.nn@ == n@ * n@,
    {
        let nn = big_mul(&n, &n);
        DecryptionKey { p, q, alpha, n, nn }
    }
}

impl Clone for NGen {
    fn clone(&self) -> (r: Self)
        ensures
            r.alpha_size == self.alpha_size,
            r.n@ == self.n@,
            r.p@ == self.p@,
            r.q@ == self.q@,
            r.div_p@ == self.div_p@,
            r.div_q@ == self.div_q@,
    {
        NGen {
            alpha_size: self.alpha_size,
            n: self.n.clone(),
            p: self.p.clone(),
            q: self.q.clone(),
            div_p: self.div_p.clone(),
            div_q: self.div_q.clone(),
        }
    }
}

impl Clone for EncryptionKey {
    fn clone(&self) -> (r: Self)
        ensures
            r.alpha_size == self.alpha_size,
            r.n@ == self.n@,
            r.nn@ == self.nn@,
            r.h@ == self.h@,
            r.hn@ == self.hn@,
    {
        EncryptionKey {
            alpha_size: self.alpha_size,
            n: self.n.clone(),
            nn: self.nn.clone(),
            h: self.h.clone(),
            hn: self.hn.clone(),
        }
    }
}

impl Clone for DecryptionKey {
    fn clone(&self) -> (r: Self)
        ensures
            r.p@ == self.p@,
            r.q@ == self.q@,
            r.alpha@ == self.alpha@,
            r.n@ == self.n@,
            r.nn@ == self.nn@,
    {
        DecryptionKey {
            p: self.p.clone(),
            q: self.q.clone(),
            alpha: self.alpha.clone(),
            n: self.n.clone(),
            nn: self.nn.clone(),
        }
    }
}

impl Clone for RawPlaintext {
    fn clone(&self) -> (r: Self)
        ensures
            r.0@ == self.0@,
    {
        RawPlaintext(self.0.clone())
    }
}

impl Clone for RawCiphertext {
    fn clone(&self) -> (r: Self)
        ensures
            r.0@ == self.0@,
    {
        RawCiphertext(self.0.clone())
    }
}

impl PartialEq for RawPlaintext {
    fn eq(&self, other: &RawPlaintext) -> (r: bool) {
        self.0 == other.0
    }
}

impl vstd::std_specs::cmp::PartialEqSpecImpl for RawPlaintext {
    open spec fn obeys_eq_spec() -> bool {
        true
    }

    open spec fn eq_spec(&self, other: &RawPlaintext) -> bool {
        self.0@ == other.0@
    }
}

impl PartialEq for RawCiphertext {
    fn eq(&self, other: &RawCiphertext) -> (r: bool) {
        self.0 == other.0
    }
}

impl vstd::std_specs::cmp::PartialEqSpecImpl for RawCiphertext {
    open spec fn obeys_eq_spec() -> bool {
        true
    }

    open spec fn eq_spec(&self, other: &RawCiphertext) -> bool {
        self.0@ == other.0@
    }
}

impl RawPlaintext {
    pub fn new(plaintext: BigNat) -> (r: Self)
        ensures
            r.0@ == plaintext@,
    {
        RawPlaintext(plaintext)
    }

    pub fn from_bigint(plaintext: BigNat) -> (r: Self)
        ensures
            r.0@ == plaintext@,
    {
        RawPlaintext(plaintext)
    }

    pub fn to_bigint(&self) -> (r: BigNat)
        ensures
            r@ == self.0@,
    {
        self.0.clone()
    }
}

impl RawCiphertext {
    pub fn new(ciphertext: BigNat) -> (r: Self)
        ensures
            r.0@ == ciphertext@,
    {
        RawCiphertext(ciphertext)
    }

    pub fn from_bigint(ciphertext: BigNat) -> (r: Self)
        ensures
            r.0@ == ciphertext@,
    {
        RawCiphertext(ciphertext)
    }

    pub fn to_bigint(&self) -> (r: BigNat)
        ensures
            r@ == self.0@,
    {
        self.0.clone()
    }
}


impl From<BigNat> for RawPlaintext {
    fn from(x: BigNat) -> (r: Self)
        ensures
            r.0@ == x@,
    {
        RawPlaintext(x)
    }
}

impl vstd::std_specs::convert::FromSpecImpl<BigNat> for RawPlaintext {
    open spec fn obeys_from_spec() -> bool {
        true
    }

    open spec fn from_spec(x: BigNat) -> RawPlaintext {
        RawPlaintext(x)
    }
}

impl From<RawPlaintext> for BigNat {
    fn from(x: RawPlaintext) -> (r: Self)
        ensures
            r@ == x.0@,
    {
        x.0
    }
}

impl vstd::std_specs::convert::FromSpecImpl<RawPlaintext> for BigNat {
    open spec fn obeys_from_spec() -> bool {
        true
    }

    open spec fn from_spec(x: RawPlaintext) -> BigNat {
        x.0
    }
}

impl From<BigNat> for RawCiphertext {
    fn from(x: BigNat) -> (r: Self)
        ensures
            r.0@ == x@,
    {
        RawCiphertext(x)
    }
}

impl vstd::std_specs::convert::FromSpecImpl<BigNat> for RawCiphertext {
    open spec fn obeys_from_spec() -> bool {
        true
    }

    open spec fn from_spec(x: BigNat) -> RawCiphertext {
        RawCiphertext(x)
    }
}

impl From<RawCiphertext> for BigNat {
    fn from(x: RawCiphertext) -> (r: Self)
        ensures
            r@ == x.0@,
    {
        x.0
    }
}

impl vstd::std_specs::convert::FromSpecImpl<RawCiphertext> for BigNat {
    open spec fn obeys_from_spec() -> bool {
        true
    }

    open spec fn from_spec(x: RawCiphertext) -> BigNat {
        x.0
    }
}

} // verus!
