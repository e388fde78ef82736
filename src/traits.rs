//! The operations of the cryptosystem as traits over key and value types, and
//! their implementation on raw big-integer values.

use vstd::prelude::*;

use crate::bignat::BigNat;
use crate::cipher::{
    add_ciphertexts, add_outcome, add_plain_outcome, add_plaintext, decrypt_crt_outcome, decrypt_crt_raw,
    decrypt_outcome, decrypt_raw, encrypt_outcome, encrypt_raw, encrypt_with_table, mul_outcome,
    mul_plaintext, table_encrypt_outcome,
};
use crate::keygen::{generate_parameters, generated_params, sizes_ok, MAX_KEYGEN_ATTEMPTS};
use crate::keys::{
    DecryptionKey, EncryptionKey, NGen, OptimizedPaillier, PaillierError, RawCiphertext, RawPlaintext,
};
use crate::table::{table_params_ok, PrecomputeTable};

verus! {

/// `Ok(c.0)` for `Ok(c)`, the error otherwise.
pub open spec fn raw_ct(r: Result<RawCiphertext, PaillierError>) -> Result<BigNat, PaillierError> {
    match r {
        Ok(c) => Ok(c.0),
        Err(e) => Err(e),
    }
}

/// `Ok(m.0)` for `Ok(m)`, the error otherwise.
pub open spec fn raw_pt(r: Result<RawPlaintext, PaillierError>) -> Result<BigNat, PaillierError> {
    match r {
        Ok(m) => Ok(m.0),
        Err(e) => Err(e),
    }
}

pub fn wrap_ct(r: Result<BigNat, PaillierError>) -> (o: Result<RawCiphertext, PaillierError>)
    ensures
        raw_ct(o) == r,
{
    match r {
        Ok(c) => Ok(RawCiphertext(c)),
        Err(e) => Err(e),
    }
}

fn wrap_pt(r: Result<BigNat, PaillierError>) -> (o: Result<RawPlaintext, PaillierError>)
    ensures
        raw_pt(o) == r,
{
    match r {
        Ok(m) => Ok(RawPlaintext(m)),
        Err(e) => Err(e),
    }
}

/// Generation of the parameters that keys are derived from.
pub trait KeyGeneration<NG> {
    /// Parameters at the recommended size: a 2048-bit modulus and a 448-bit trapdoor.
    fn ngen() -> NG {
        Self::ngen_with_modulus_size(2048, 448)
    }

    /// Like `ngen`, with safe primes as divisors.
    fn ngen_safe_primes() -> NG {
        Self::ngen_safe_primes_with_modulus_size(2048, 448)
    }

    /// Parameters for an `n_bit_length`-bit modulus and an `alpha_bit_length`-bit trapdoor.
    fn ngen_with_modulus_size(n_bit_length: usize, alpha_bit_length: usize) -> NG;

    fn ngen_safe_primes_with_modulus_size(n_bit_length: usize, alpha_bit_length: usize) -> NG;
}

/// Fixed-base exponentiation through a precomputed table.
pub trait PowWithPrecomputeTable<PT, BI, US> {
    spec fn table_params_accepted(block_size: US, pow_size: US, modulo: BI) -> bool;

    fn calculate_precompute_table(g: BI, block_size: US, pow_size: US, modulo: BI) -> PT
        requires
            Self::table_params_accepted(block_size, pow_size, modulo),
    ;

    fn calculate_precompute_table_with_dp(g: BI, block_size: US, pow_size: US, modulo: BI) -> PT
        requires
            Self::table_params_accepted(block_size, pow_size, modulo),
    ;

    fn convert_into_block(precompute_table: &PT, x: &BI) -> Vec<US>;

    fn pow(precompute_table: &PT, pow: &BI) -> BI;
}

/// Encryption of plaintext.
pub trait Encrypt<EK, PT, CT> {
    /// Encrypt plaintext `m` under key `ek` into a ciphertext.
    fn encrypt(ek: &EK, m: PT) -> CT;
}

/// Encryption whose random factor is read from a precomputed table.
pub trait EncryptWithPrecomputeTable<EK, PT, CT, PC> {
    /// Encrypt plaintext `m` under key `ek` into a ciphertext.
    fn encrypt_with_precompute_table(precompute_table: &PC, ek: &EK, m: PT) -> CT;
}

/// Decryption of ciphertext.
pub trait Decrypt<DK, CT, PT> {
    /// Decrypt ciphertext `c` using key `dk` into a plaintext.
    fn decrypt(dk: &DK, c: CT) -> PT;
}

/// Decryption of ciphertext through the Chinese Remainder Theorem.
pub trait DecryptCRT<DK, CT, PT> {
    /// Decrypt ciphertext `c` using key `dk` into a plaintext.
    fn decrypt_crt(dk: &DK, c: CT) -> PT;
}

/// Addition of two ciphertexts, or of a ciphertext and a plaintext.
pub trait Add<EK, CT1, CT2, CT> {
    /// Homomorphically combine `c1` and `c2` into a ciphertext of the sum of the
    /// underlying plaintexts, modulo `n`.
    fn add(ek: &EK, c1: CT1, c2: CT2) -> CT;
}

/// Multiplication of ciphertext with plaintext.
pub trait Mul<EK, CT1, PT2, CT> {
    /// Homomorphically combine `c1` and `m2` into a ciphertext of the product of the
    /// underlying plaintexts, modulo `n`.
    fn mul(ek: &EK, c1: CT1, m2: PT2) -> CT;
}

/// What parameter generation returns: `InvalidParameters` exactly for sizes it does
/// not accept, otherwise parameters with the generated structure or
/// `KeyGenerationExhausted`.
pub open spec fn ngen_outcome(
    r: Result<NGen, PaillierError>,
    n_bit_length: usize,
    alpha_bit_length: usize,
    safe_primes: bool,
) -> bool {
    &&& r == Err::<NGen, PaillierError>(PaillierError::InvalidParameters) <==> !sizes_ok(
        n_bit_length as nat,
        alpha_bit_length as nat,
    )
    &&& r is Err ==> r == Err::<NGen, PaillierError>(PaillierError::InvalidParameters) || r == Err::<
        NGen,
        PaillierError,
    >(PaillierError::KeyGenerationExhausted)
    &&& r is Ok ==> generated_params(r.unwrap(), n_bit_length, alpha_bit_length, safe_primes)
}

impl KeyGeneration<Result<NGen, PaillierError>> for OptimizedPaillier {
    fn ngen_with_modulus_size(n_bit_length: usize, alpha_bit_length: usize) -> (r: Result<NGen, PaillierError>)
        ensures
            ngen_outcome(r, n_bit_length, alpha_bit_length, false),
    {
        match generate_parameters(n_bit_length, alpha_bit_length, false, MAX_KEYGEN_ATTEMPTS) {
            Ok((ng, _attempts)) => Ok(ng),
            Err(e) => Err(e),
        }
    }

    fn ngen_safe_primes_with_modulus_size(n_bit_length: usize, alpha_bit_length: usize) -> (r: Result<
        NGen,
        PaillierError,
    >)
        ensures
            ngen_outcome(r, n_bit_length, alpha_bit_length, true),
    {
        match generate_parameters(n_bit_length, alpha_bit_length, true, MAX_KEYGEN_ATTEMPTS) {
            Ok((ng, _attempts)) => Ok(ng),
            Err(e) => Err(e),
        }
    }
}

impl PowWithPrecomputeTable<PrecomputeTable, BigNat, usize> for OptimizedPaillier {
    open spec fn table_params_accepted(block_size: usize, pow_size: usize, modulo: BigNat) -> bool {
        table_params_ok(block_size as nat, pow_size as nat, modulo@)
    }

    fn calculate_precompute_table(g: BigNat, block_size: usize, pow_size: usize, modulo: BigNat) -> (r:
        PrecomputeTable)
        ensures
            r@.built_from(g@),
            r@.block_size == block_size,
            r@.pow_size == pow_size,
            r@.modulo == modulo@,
    {
        PrecomputeTable::new(g, block_size, pow_size, modulo)
    }

    fn calculate_precompute_table_with_dp(g: BigNat, block_size: usize, pow_size: usize, modulo: BigNat) -> (r:
        PrecomputeTable)
        ensures
            r@.built_from(g@),
            r@.block_size == block_size,
            r@.pow_size == pow_size,
            r@.modulo == modulo@,
    {
        PrecomputeTable::new_dp(g, block_size, pow_size, modulo)
    }

    fn convert_into_block(precompute_table: &PrecomputeTable, x: &BigNat) -> (r: Vec<usize>)
        ensures
            r@.len() == crate::table::num_blocks(precompute_table@.pow_size, precompute_table@.block_size),
            forall|k: int|
                0 <= k < r@.len() ==> #[trigger] r@[k] == crate::table::block_of(
                    x@,
                    precompute_table@.block_size,
                    precompute_table@.pow_size,
                    k as nat,
                ),
    {
        precompute_table.blocks(x)
    }

    fn pow(precompute_table: &PrecomputeTable, pow: &BigNat) -> (r: BigNat)
        ensures
            r@ == precompute_table@.product(pow@),
    {
        precompute_table.compute(pow)
    }
}

impl Encrypt<EncryptionKey, RawPlaintext, Result<RawCiphertext, PaillierError>> for OptimizedPaillier {
    fn encrypt(ek: &EncryptionKey, m: RawPlaintext) -> (r: Result<RawCiphertext, PaillierError>)
        ensures
            encrypt_outcome(*ek, m.0@, raw_ct(r)),
    {
        wrap_ct(encrypt_raw(ek, &m.0))
    }
}

impl EncryptWithPrecomputeTable<
    EncryptionKey,
    RawPlaintext,
    Result<RawCiphertext, PaillierError>,
    PrecomputeTable,
> for OptimizedPaillier {
    fn encrypt_with_precompute_table(
        precompute_table: &PrecomputeTable,
        ek: &EncryptionKey,
        m: RawPlaintext,
    ) -> (r: Result<RawCiphertext, PaillierError>)
        ensures
            table_encrypt_outcome(precompute_table@, *ek, m.0@, raw_ct(r)),
    {
        wrap_ct(encrypt_with_table(precompute_table, ek, &m.0))
    }
}

impl Decrypt<DecryptionKey, RawCiphertext, Result<RawPlaintext, PaillierError>> for OptimizedPaillier {
    fn decrypt(dk: &DecryptionKey, c: RawCiphertext) -> (r: Result<RawPlaintext, PaillierError>)
        ensures
            decrypt_outcome(*dk, c.0@, raw_pt(r)),
    {
        wrap_pt(decrypt_raw(dk, &c.0))
    }
}

impl DecryptCRT<DecryptionKey, RawCiphertext, Result<RawPlaintext, PaillierError>> for OptimizedPaillier {
    fn decrypt_crt(dk: &DecryptionKey, c: RawCiphertext) -> (r: Result<RawPlaintext, PaillierError>)
        ensures
            decrypt_crt_outcome(*dk, c.0@, raw_pt(r)),
    {
        wrap_pt(decrypt_crt_raw(dk, &c.0))
    }
}

impl Add<EncryptionKey, RawCiphertext, RawCiphertext, Result<RawCiphertext, PaillierError>> for OptimizedPaillier {
    fn add(ek: &EncryptionKey, c1: RawCiphertext, c2: RawCiphertext) -> (r: Result<RawCiphertext, PaillierError>)
        ensures
            add_outcome(*ek, c1.0@, c2.0@, raw_ct(r)),
    {
        wrap_ct(add_ciphertexts(ek, &c1.0, &c2.0))
    }
}

impl Add<EncryptionKey, RawCiphertext, RawPlaintext, Result<RawCiphertext, PaillierError>> for OptimizedPaillier {
    fn add(ek: &EncryptionKey, c: RawCiphertext, m: RawPlaintext) -> (r: Result<RawCiphertext, PaillierError>)
        ensures
            add_plain_outcome(*ek, c.0@, m.0@, raw_ct(r)),
    {
        wrap_ct(add_plaintext(ek, &c.0, &m.0))
    }
}

impl Add<EncryptionKey, RawPlaintext, RawCiphertext, Result<RawCiphertext, PaillierError>> for OptimizedPaillier {
    fn add(ek: &EncryptionKey, m: RawPlaintext, c: RawCiphertext) -> (r: Result<RawCiphertext, PaillierError>)
        ensures
            add_plain_outcome(*ek, c.0@, m.0@, raw_ct(r)),
    {
        wrap_ct(add_plaintext(ek, &c.0, &m.0))
    }
}

impl Mul<EncryptionKey, RawCiphertext, RawPlaintext, Result<RawCiphertext, PaillierError>> for OptimizedPaillier {
    fn mul(ek: &EncryptionKey, c: RawCiphertext, m: RawPlaintext) -> (r: Result<RawCiphertext, PaillierError>)
        ensures
            mul_outcome(*ek, c.0@, m.0@, raw_ct(r)),
    {
        wrap_ct(mul_plaintext(ek, &c.0, &m.0))
    }
}

impl Mul<EncryptionKey, RawPlaintext, RawCiphertext, Result<RawCiphertext, PaillierError>> for OptimizedPaillier {
    fn mul(ek: &EncryptionKey, m: RawPlaintext, c: RawCiphertext) -> (r: Result<RawCiphertext, PaillierError>)
        ensures
            mul_outcome(*ek, c.0@, m.0@, raw_ct(r)),
    {
        wrap_ct(mul_plaintext(ek, &c.0, &m.0))
    }
}

} // verus!
