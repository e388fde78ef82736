//! Plaintexts as `u64` values: ciphertexts carry the raw value and a marker of
//! the plaintext type.

use std::marker::PhantomData;

use vstd::prelude::*;

use crate::bignat::{big_to_u64, BigNat};
use crate::cipher::{
    add_ciphertexts, add_outcome, add_plain_outcome, add_plaintext, decrypt_crt_outcome, decrypt_crt_raw,
    decrypt_outcome, decrypt_raw, encrypt_outcome, encrypt_raw, encrypt_with_table, mul_outcome,
    mul_plaintext, table_encrypt_outcome,
};
use crate::keys::{DecryptionKey, EncryptionKey, OptimizedPaillier, PaillierError};
use crate::table::PrecomputeTable;
use crate::traits::{Add, Decrypt, DecryptCRT, Encrypt, EncryptWithPrecomputeTable, Mul};

verus! {

/// Encrypted message with type information.
#[derive(Debug)]
pub struct EncodedCiphertext<T> {
    pub raw: BigNat,
    pub components: usize,
    pub _phantom: PhantomData<T>,
}

/// `Ok(c.raw)` for `Ok(c)`, the error otherwise.
pub open spec fn raw_of(r: Result<EncodedCiphertext<u64>, PaillierError>) -> Result<BigNat, PaillierError> {
    match r {
        Ok(c) => Ok(c.raw),
        Err(e) => Err(e),
    }
}

/// A decrypted value as `u64`, `u64::MAX` where it does not fit.
pub open spec fn saturated(v: nat) -> u64 {
    if v <= u64::MAX {
        v as u64
    } else {
        u64::MAX
    }
}

/// What a raw decryption result becomes as `u64`.
pub open spec fn as_u64(r: Result<BigNat, PaillierError>, o: Result<u64, PaillierError>) -> bool {
    match r {
        Ok(m) => o == Ok::<u64, PaillierError>(saturated(m@)),
        Err(e) => o == Err::<u64, PaillierError>(e),
    }
}

fn encoded(r: Result<BigNat, PaillierError>) -> (o: Result<EncodedCiphertext<u64>, PaillierError>)
    ensures
        raw_of(o) == r,
        o is Ok ==> o.unwrap().components == 1,
{
    match r {
        Ok(raw) => Ok(EncodedCiphertext { raw, components: 1, _phantom: PhantomData }),
        Err(e) => Err(e),
    }
}

fn to_u64(r: Result<BigNat, PaillierError>) -> (o: Result<u64, PaillierError>)
    ensures
        as_u64(r, o),
{
    match r {
        Ok(m) => match big_to_u64(&m) {
            Some(v) => Ok(v),
            None => Ok(u64::MAX),
        },
        Err(e) => Err(e),
    }
}

impl Encrypt<EncryptionKey, u64, Result<EncodedCiphertext<u64>, PaillierError>> for OptimizedPaillier {
    fn encrypt(ek: &EncryptionKey, m: u64) -> (r: Result<EncodedCiphertext<u64>, PaillierError>)
        ensures
            encrypt_outcome(*ek, m as nat, raw_of(r)),
    {
        encoded(encrypt_raw(ek, &BigNat::from_u64(m)))
    }
}

impl EncryptWithPrecomputeTable<
    EncryptionKey,
    u64,
    Result<EncodedCiphertext<u64>, PaillierError>,
    PrecomputeTable,
> for OptimizedPaillier {
    fn encrypt_with_precompute_table(precompute_table: &PrecomputeTable, ek: &EncryptionKey, m: u64) -> (r:
        Result<EncodedCiphertext<u64>, PaillierError>)
        ensures
            table_encrypt_outcome(precompute_table@, *ek, m as nat, raw_of(r)),
    {
        encoded(encrypt_with_table(precompute_table, ek, &BigNat::from_u64(m)))
    }
}

impl<'a> Decrypt<DecryptionKey, &'a EncodedCiphertext<u64>, Result<u64, PaillierError>> for OptimizedPaillier {
    fn decrypt(dk: &DecryptionKey, c: &'a EncodedCiphertext<u64>) -> (r: Result<u64, PaillierError>)
        ensures
            exists|m: Result<BigNat, PaillierError>| decrypt_outcome(*dk, c.raw@, m) && as_u64(m, r),
    {
        let m = decrypt_raw(dk, &c.raw);
        to_u64(m)
    }
}

impl Decrypt<DecryptionKey, EncodedCiphertext<u64>, Result<u64, PaillierError>> for OptimizedPaillier {
    fn decrypt(dk: &DecryptionKey, c: EncodedCiphertext<u64>) -> (r: Result<u64, PaillierError>)
        ensures
            exists|m: Result<BigNat, PaillierError>| decrypt_outcome(*dk, c.raw@, m) && as_u64(m, r),
    {
        let m = decrypt_raw(dk, &c.raw);
        to_u64(m)
    }
}

impl<'a> DecryptCRT<DecryptionKey, &'a EncodedCiphertext<u64>, Result<u64, PaillierError>> for OptimizedPaillier {
    fn decrypt_crt(dk: &DecryptionKey, c: &'a EncodedCiphertext<u64>) -> (r: Result<u64, PaillierError>)
        ensures
            exists|m: Result<BigNat, PaillierError>| decrypt_crt_outcome(*dk, c.raw@, m) && as_u64(m, r),
    {
        let m = decrypt_crt_raw(dk, &c.raw);
        to_u64(m)
    }
}

impl<'a, 'b> Add<
    EncryptionKey,
    &'a EncodedCiphertext<u64>,
    &'b EncodedCiphertext<u64>,
    Result<EncodedCiphertext<u64>, PaillierError>,
> for OptimizedPaillier {
    fn add(ek: &EncryptionKey, c1: &'a EncodedCiphertext<u64>, c2: &'b EncodedCiphertext<u64>) -> (r: Result<
        EncodedCiphertext<u64>,
        PaillierError,
    >)
        ensures
            add_outcome(*ek, c1.raw@, c2.raw@, raw_of(r)),
    {
        encoded(add_ciphertexts(ek, &c1.raw, &c2.raw))
    }
}

impl<'a> Add<EncryptionKey, &'a EncodedCiphertext<u64>, u64, Result<EncodedCiphertext<u64>, PaillierError>> for OptimizedPaillier {
    fn add(ek: &EncryptionKey, c: &'a EncodedCiphertext<u64>, m: u64) -> (r: Result<
        EncodedCiphertext<u64>,
        PaillierError,
    >)
        ensures
            add_plain_outcome(*ek, c.raw@, m as nat, raw_of(r)),
    {
        encoded(add_plaintext(ek, &c.raw, &BigNat::from_u64(m)))
    }
}

impl<'a> Add<EncryptionKey, u64, &'a EncodedCiphertext<u64>, Result<EncodedCiphertext<u64>, PaillierError>> for OptimizedPaillier {
    fn add(ek: &EncryptionKey, m: u64, c: &'a EncodedCiphertext<u64>) -> (r: Result<
        EncodedCiphertext<u64>,
        PaillierError,
    >)
        ensures
            add_plain_outcome(*ek, c.raw@, m as nat, raw_of(r)),
    {
        encoded(add_plaintext(ek, &c.raw, &BigNat::from_u64(m)))
    }
}

impl<'a> Mul<EncryptionKey, &'a EncodedCiphertext<u64>, u64, Result<EncodedCiphertext<u64>, PaillierError>> for OptimizedPaillier {
    fn mul(ek: &EncryptionKey, c: &'a EncodedCiphertext<u64>, m: u64) -> (r: Result<
        EncodedCiphertext<u64>,
        PaillierError,
    >)
        ensures
            mul_outcome(*ek, c.raw@, m as nat, raw_of(r)),
    {
        encoded(mul_plaintext(ek, &c.raw, &BigNat::from_u64(m)))
    }
}

impl<'a> Mul<EncryptionKey, u64, &'a EncodedCiphertext<u64>, Result<EncodedCiphertext<u64>, PaillierError>> for OptimizedPaillier {
    fn mul(ek: &EncryptionKey, m: u64, c: &'a EncodedCiphertext<u64>) -> (r: Result<
        EncodedCiphertext<u64>,
        PaillierError,
    >)
        ensures
            mul_outcome(*ek, c.raw@, m as nat, raw_of(r)),
    {
        encoded(mul_plaintext(ek, &c.raw, &BigNat::from_u64(m)))
    }
}

} // verus!
