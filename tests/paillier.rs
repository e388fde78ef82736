use curv::arithmetic::{BasicOps, BitManipulation, Converter, Modulo, Primes};
use curv::BigInt;
use optimized_paillier::keygen::assemble_parameters;
use optimized_paillier::{
    Add, BigNat, Decrypt, DecryptCRT, DecryptionKey, Encrypt, EncryptWithPrecomputeTable,
    EncryptionKey, KeyGeneration, Mul, NGen, OptimizedPaillier, PaillierError,
    PowWithPrecomputeTable, PrecomputeTable, RawCiphertext, RawPlaintext,
};

fn to_nat(x: &BigInt) -> BigNat {
    BigNat::from_bytes_be(x.to_bytes())
}

fn big(x: &BigNat) -> BigInt {
    BigInt::from_bytes(&x.to_bytes_be())
}

fn dec(s: &str) -> BigNat {
    to_nat(&BigInt::from_str_radix(s, 10).unwrap())
}

fn num(x: u64) -> BigNat {
    BigNat::from_u64(x)
}

fn test_ngen() -> NGen {
    let p = BigInt::from_str_radix("58840286422659759040264722526723163115947585338232456760625037250347772947158924579397568010160401824142812407358290596642469990113927112749530655037092283267003056548558029709374658607773847180644927643815153088281601855305598381448858360794678123176275437646277062199420220697194572706984411597767662174219", 10).unwrap();
    let q = BigInt::from_str_radix("64569320288008737248616342555880093394368754507783709070327116553058977898351053473313292166959127254971093796968717357648354685162478156927773865332477516856906959367256797593402514551692581319610393653175392375527614160563282643144940815153885487175996514917461421149259641826709133924683180923570779884947", 10).unwrap();
    let div_p = dec("15020304164245057288431929989769857115735852482951590711910706652979");
    let div_q = dec("21291950558579076623582777617978449486334160877503898213693845753489");
    let n = &p * &q;
    NGen { alpha_size: 448, n: to_nat(&n), p: to_nat(&p), q: to_nat(&q), div_p, div_q }
}

fn test_keys() -> (EncryptionKey, DecryptionKey) {
    test_ngen().keys().unwrap()
}

fn raw(x: u64) -> RawPlaintext {
    RawPlaintext::from_bigint(num(x))
}

/// `2·d·o + 1`.
fn structured(d: &BigNat, o: &BigNat) -> BigNat {
    to_nat(&(BigInt::from(2u64) * big(d) * big(o) + BigInt::from(1u64)))
}

fn product(a: &BigNat, b: &BigNat) -> BigNat {
    to_nat(&(big(a) * big(b)))
}

fn pow2(e: u32) -> BigNat {
    to_nat(&BigInt::from(2).pow(e))
}

fn check_pow_with_precompute(precompute: &PrecomputeTable, base: &BigNat, modulo: &BigNat) {
    for e in [1u64, 5, 20, 1000] {
        let pow = num(e);
        let result = OptimizedPaillier::pow(precompute, &pow);
        assert_eq!(big(&result), BigInt::mod_pow(&big(base), &big(&pow), &big(modulo)));
    }
}

// ---------------------------------------------------------------- precompute table

#[test]
fn test_pow_with_precompute() {
    let base = num(2);
    let modulo = num(1000000000);
    let precompute = PrecomputeTable::new(base.clone(), 3, 10, modulo.clone());
    for e in [1u64, 5, 20, 1000] {
        let pow = num(e);
        let result = precompute.compute(&pow);
        assert_eq!(big(&result), BigInt::mod_pow(&big(&base), &big(&pow), &big(&modulo)));
    }
}

#[test]
fn precompute() {
    let base = num(2);
    let modulo = num(1000000000);
    let precompute = OptimizedPaillier::calculate_precompute_table(base.clone(), 3, 10, modulo.clone());
    check_pow_with_precompute(&precompute, &base, &modulo);
}

#[test]
fn precompute_with_dp() {
    let base = num(2);
    let modulo = num(1000000000);
    let precompute =
        OptimizedPaillier::calculate_precompute_table_with_dp(base.clone(), 3, 10, modulo.clone());
    check_pow_with_precompute(&precompute, &base, &modulo);
}

#[test]
fn naive_and_dp_tables_agree_on_every_exponent() {
    let base = num(7);
    let modulo = num(1000003);
    let naive = PrecomputeTable::new(base.clone(), 3, 10, modulo.clone());
    let dp = PrecomputeTable::new_dp(base.clone(), 3, 10, modulo.clone());
    for e in 0u64..1024 {
        let x = num(e);
        let expected = BigInt::mod_pow(&big(&base), &big(&x), &big(&modulo));
        assert_eq!(big(&naive.compute(&x)), expected);
        assert_eq!(big(&dp.compute(&x)), expected);
    }
}

#[test]
fn table_with_one_bit_blocks_and_small_modulus() {
    let base = num(3);
    let modulo = num(5);
    let t = PrecomputeTable::new_dp(base.clone(), 1, 7, modulo.clone());
    for e in 0u64..128 {
        let x = num(e);
        assert_eq!(big(&t.compute(&x)), BigInt::mod_pow(&big(&base), &big(&x), &big(&modulo)));
    }
}

#[test]
fn table_uses_only_the_low_pow_size_bits() {
    let t = PrecomputeTable::new(num(2), 2, 4, num(1000));
    // 21 = 0b10101; its low four bits are 5
    assert_eq!(t.compute(&num(21)), num(32));
}

#[test]
fn table_size_in_bytes_counts_every_entry() {
    let t = PrecomputeTable::new(num(2), 3, 10, num(1000));
    // 5 rows of 8 entries
    assert_eq!(t.size_in_bytes(), 40 * std::mem::size_of::<BigNat>());
}

// ---------------------------------------------------------------- raw operations

#[test]
fn core_test_encryption_decryption() {
    let (ek, dk) = test_keys();
    let p = raw(10);
    let c = OptimizedPaillier::encrypt(&ek, p.clone()).unwrap();
    let recovered_p = OptimizedPaillier::decrypt(&dk, c).unwrap();
    assert_eq!(recovered_p, p);
}

#[test]
fn core_test_crt_decryption() {
    let (ek, dk) = test_keys();
    let p = raw(10);
    let c = OptimizedPaillier::encrypt(&ek, p.clone()).unwrap();
    let recovered_p = OptimizedPaillier::decrypt_crt(&dk, c).unwrap();
    assert_eq!(recovered_p, p);
}

#[test]
fn core_test_add_ciphertext() {
    let (ek, dk) = test_keys();
    let c1 = OptimizedPaillier::encrypt(&ek, raw(10)).unwrap();
    let c2 = OptimizedPaillier::encrypt(&ek, raw(20)).unwrap();
    let c = OptimizedPaillier::add(&ek, c1, c2).unwrap();
    let m = OptimizedPaillier::decrypt(&dk, c).unwrap();
    assert_eq!(m, raw(30));
}

#[test]
fn core_test_add_plaintext() {
    let (ek, dk) = test_keys();
    let m1 = RawPlaintext::from_bigint(pow2(120));
    let c1 = OptimizedPaillier::encrypt(&ek, m1).unwrap();
    let m2 = RawPlaintext::from_bigint(pow2(120));
    let c = OptimizedPaillier::add(&ek, c1, m2).unwrap();
    let m = OptimizedPaillier::decrypt(&dk, c).unwrap();
    assert_eq!(m, RawPlaintext::from_bigint(pow2(121)));
}

#[test]
fn core_test_mul_plaintext() {
    let (ek, dk) = test_keys();
    let c1 = OptimizedPaillier::encrypt(&ek, raw(10)).unwrap();
    let c = OptimizedPaillier::mul(&ek, c1, raw(20)).unwrap();
    let m = OptimizedPaillier::decrypt(&dk, c).unwrap();
    assert_eq!(m, raw(200));
}

#[test]
fn test_test_encryption_decryption() {
    let (ek, dk) = test_keys();
    let p = raw(10);
    let c = OptimizedPaillier::encrypt(&ek, p.clone()).unwrap();
    let recovered_p = OptimizedPaillier::decrypt(&dk, c).unwrap();
    assert_eq!(recovered_p, p);
}

#[test]
fn test_test_encryption_with_precompute() {
    let (ek, dk) = test_keys();
    let base = ek.hn.clone();
    let block_size = 5;
    let pow_size = ek.alpha_size;
    let modulo = ek.nn.clone();
    let precompute = OptimizedPaillier::calculate_precompute_table(base, block_size, pow_size, modulo);
    let p = raw(10);
    let c = OptimizedPaillier::encrypt_with_precompute_table(&precompute, &ek, p.clone()).unwrap();
    let recovered_p = OptimizedPaillier::decrypt(&dk, c).unwrap();
    assert_eq!(recovered_p, p);
}

#[test]
fn test_test_crt_decryption() {
    let (ek, dk) = test_keys();
    let p = raw(10);
    let c = OptimizedPaillier::encrypt(&ek, p.clone()).unwrap();
    let recovered_p = OptimizedPaillier::decrypt_crt(&dk, c).unwrap();
    assert_eq!(recovered_p, p);
}

#[test]
fn test_test_add_ciphertext() {
    let (ek, dk) = test_keys();
    let c1 = OptimizedPaillier::encrypt(&ek, raw(10)).unwrap();
    let c2 = OptimizedPaillier::encrypt(&ek, raw(20)).unwrap();
    let c = OptimizedPaillier::add(&ek, c1, c2).unwrap();
    let m = OptimizedPaillier::decrypt(&dk, c).unwrap();
    assert_eq!(m, raw(30));
}

#[test]
fn test_test_add_plaintext() {
    let (ek, dk) = test_keys();
    let c1 = OptimizedPaillier::encrypt(&ek, RawPlaintext::from_bigint(pow2(120))).unwrap();
    let c = OptimizedPaillier::add(&ek, c1, RawPlaintext::from_bigint(pow2(120))).unwrap();
    let m = OptimizedPaillier::decrypt(&dk, c).unwrap();
    assert_eq!(m, RawPlaintext::from_bigint(pow2(121)));
}

#[test]
fn test_test_mul_plaintext() {
    let (ek, dk) = test_keys();
    let c1 = OptimizedPaillier::encrypt(&ek, raw(10)).unwrap();
    let c = OptimizedPaillier::mul(&ek, c1, raw(20)).unwrap();
    let m = OptimizedPaillier::decrypt(&dk, c).unwrap();
    assert_eq!(m, raw(200));
}

#[test]
fn crt_and_generic_decryption_agree() {
    let (ek, dk) = test_keys();
    for v in [0u64, 1, 7, 123456789] {
        let c = OptimizedPaillier::encrypt(&ek, raw(v)).unwrap();
        let generic = OptimizedPaillier::decrypt(&dk, c.clone()).unwrap();
        let crt = OptimizedPaillier::decrypt_crt(&dk, c).unwrap();
        assert_eq!(generic, crt);
        assert_eq!(generic, raw(v));
    }
}

#[test]
fn plaintext_sum_wraps_modulo_n() {
    let (ek, dk) = test_keys();
    let n_minus_one = to_nat(&(big(&ek.n) - BigInt::from(1)));
    let c1 = OptimizedPaillier::encrypt(&ek, RawPlaintext::from_bigint(n_minus_one.clone())).unwrap();
    let c2 = OptimizedPaillier::encrypt(&ek, raw(5)).unwrap();
    let c = OptimizedPaillier::add(&ek, c1, c2).unwrap();
    assert_eq!(OptimizedPaillier::decrypt(&dk, c).unwrap(), raw(4));
}

#[test]
fn out_of_domain_inputs_are_rejected() {
    let (ek, dk) = test_keys();
    let too_big = RawPlaintext::from_bigint(ek.n.clone());
    assert_eq!(OptimizedPaillier::encrypt(&ek, too_big).unwrap_err(), PaillierError::OutOfDomain);
    let c = RawCiphertext::new(ek.nn.clone());
    assert_eq!(OptimizedPaillier::decrypt(&dk, c.clone()).unwrap_err(), PaillierError::OutOfDomain);
    assert_eq!(OptimizedPaillier::decrypt_crt(&dk, c.clone()).unwrap_err(), PaillierError::OutOfDomain);
    let good = OptimizedPaillier::encrypt(&ek, raw(1)).unwrap();
    assert_eq!(OptimizedPaillier::add(&ek, good.clone(), c.clone()).unwrap_err(), PaillierError::OutOfDomain);
    assert_eq!(OptimizedPaillier::mul(&ek, c, raw(2)).unwrap_err(), PaillierError::OutOfDomain);
}

#[test]
fn malformed_keys_are_rejected() {
    let (ek, dk) = test_keys();
    let mut bad_ek = ek.clone();
    bad_ek.nn = num(12345);
    assert_eq!(OptimizedPaillier::encrypt(&bad_ek, raw(1)).unwrap_err(), PaillierError::InvalidKey);
    let bad_dk = DecryptionKey::new(dk.p.clone(), dk.q.clone(), dk.alpha.clone(), num(15));
    let c = RawCiphertext::new(num(2));
    assert_eq!(OptimizedPaillier::decrypt(&bad_dk, c).unwrap_err(), PaillierError::InvalidKey);
}

#[test]
fn non_invertible_trapdoor_is_reported() {
    // n = 15, 2·alpha = 6 shares the factor 3 with n
    let dk = DecryptionKey::new(num(3), num(5), num(3), num(15));
    let c = RawCiphertext::new(num(4));
    assert_eq!(OptimizedPaillier::decrypt(&dk, c).unwrap_err(), PaillierError::NotInvertible);
}

// ---------------------------------------------------------------- u64 encoding

#[test]
fn test_encrypt_decrypt() {
    let (ek, dk) = test_keys();
    let m = 10;
    let c = OptimizedPaillier::encrypt(&ek, m).unwrap();
    let recovered_m = OptimizedPaillier::decrypt(&dk, &c).unwrap();
    assert_eq!(recovered_m, m);
}

#[test]
fn integral_test_encryption_with_precompute() {
    let (ek, dk) = test_keys();
    let base = ek.hn.clone();
    let block_size = 5;
    let pow_size = ek.alpha_size;
    let modulo = ek.nn.clone();
    let precompute = OptimizedPaillier::calculate_precompute_table(base, block_size, pow_size, modulo);
    let m = 10;
    let c = OptimizedPaillier::encrypt_with_precompute_table(&precompute, &ek, m).unwrap();
    let recovered_m = OptimizedPaillier::decrypt(&dk, c).unwrap();
    assert_eq!(recovered_m, m);
}

#[test]
fn integral_test_crt_decryption() {
    let (ek, dk) = test_keys();
    let m = 10;
    let c = OptimizedPaillier::encrypt(&ek, m).unwrap();
    let recovered_m = OptimizedPaillier::decrypt_crt(&dk, &c).unwrap();
    assert_eq!(recovered_m, m);
}

#[test]
fn integral_test_add_plaintext() {
    let (ek, dk) = test_keys();
    let c1 = OptimizedPaillier::encrypt(&ek, 10).unwrap();
    let c = OptimizedPaillier::add(&ek, &c1, 20).unwrap();
    let m = OptimizedPaillier::decrypt(&dk, &c).unwrap();
    assert_eq!(m, 30);
}

#[test]
fn integral_test_add_ciphertext() {
    let (ek, dk) = test_keys();
    let c1 = OptimizedPaillier::encrypt(&ek, 10).unwrap();
    let c2 = OptimizedPaillier::encrypt(&ek, 20).unwrap();
    let c = OptimizedPaillier::add(&ek, &c1, &c2).unwrap();
    let m = OptimizedPaillier::decrypt(&dk, &c).unwrap();
    assert_eq!(m, 30);
}

#[test]
fn integral_test_mul_plaintext() {
    let (ek, dk) = test_keys();
    let c = OptimizedPaillier::encrypt(&ek, 10).unwrap();
    let d = OptimizedPaillier::mul(&ek, &c, 20).unwrap();
    let m = OptimizedPaillier::decrypt(&dk, &d).unwrap();
    assert_eq!(m, 200);
}

#[test]
fn u64_decryption_saturates() {
    let (ek, dk) = test_keys();
    let c = OptimizedPaillier::encrypt(&ek, u64::MAX).unwrap();
    let d = OptimizedPaillier::add(&ek, &c, 1).unwrap();
    assert_eq!(OptimizedPaillier::decrypt(&dk, &d).unwrap(), u64::MAX);
}

// ---------------------------------------------------------------- keys

#[test]
fn test_encryption_key_generation() {
    let p = num(11);
    let q = num(13);
    let n = product(&p, &q);
    let ek = EncryptionKey::from_n(n.clone(), 8).unwrap();
    assert_eq!(ek.n, n);
    assert_eq!(ek.nn, product(&n, &n));
    assert_eq!(ek.alpha_size, 8);
    assert!(big(&ek.h) < big(&n));
    assert!(big(&ek.h) > BigInt::from(0));
    assert_eq!(big(&ek.hn), BigInt::mod_pow(&big(&ek.h), &big(&n), &big(&ek.nn)));
}

#[test]
fn test_homomorphic_operations() {
    let n = product(&num(11), &num(13));
    let ek = EncryptionKey::from_n(n.clone(), 8).unwrap();
    let c1 = RawCiphertext::new(num(10));
    let c2 = RawCiphertext::new(num(20));
    let scalar = num(3);
    let c_add = ek.oadd(&c1, &c2).unwrap();
    let c_sub = ek.osub(&c2, &c1).unwrap();
    let c_mul = ek.omul(&scalar, &c1).unwrap();
    let c_neg = ek.oneg(&c1).unwrap();
    assert!(big(&c_add.0) < big(&ek.nn));
    assert!(big(&c_sub.0) < big(&ek.nn));
    assert!(big(&c_mul.0) < big(&ek.nn));
    assert!(big(&c_neg.0) < big(&ek.nn));
    assert_eq!(c_add.0, num(200));
    assert_eq!(c_mul.0, num(1000));
    assert_eq!((big(&c_neg.0) * BigInt::from(10)) % big(&ek.nn), BigInt::from(1));
}

#[test]
fn test_omul() {
    let div_p = num(11);
    let div_q = num(13);
    let other_div_p = num(17);
    let other_div_q = num(19);
    let p = structured(&div_p, &other_div_p);
    let q = structured(&div_q, &other_div_q);
    let (_ek, dk) = NGen::keys_with_primes(&p, &q, 8).unwrap();
    let ciphertext = RawCiphertext::new(num(10));
    let _result = dk.omul(&num(3), &ciphertext);
}

#[test]
fn decryption_key_omul_matches_mod_pow() {
    let (ek, dk) = test_keys();
    let c = OptimizedPaillier::encrypt(&ek, raw(10)).unwrap();
    let fast = dk.omul(&num(20), &c).unwrap();
    let slow = ek.omul(&num(20), &c).unwrap();
    assert_eq!(fast, slow);
    assert_eq!(OptimizedPaillier::decrypt(&dk, fast).unwrap(), raw(200));
}

#[test]
fn test_find_divisors() {
    let div_p = num(11);
    let div_q = num(13);
    let other_div_p = num(17);
    let other_div_q = num(19);
    let p = structured(&div_p, &other_div_p);
    let q = structured(&div_q, &other_div_q);
    let result = OptimizedPaillier::find_divisors(&p, &q, 8);
    assert!(result.is_some());
    let (found_div_p, found_other_div_p, found_div_q, found_other_div_q) = result.unwrap();
    assert_eq!(found_div_p, div_p);
    assert_eq!(found_other_div_p, other_div_p);
    assert_eq!(found_div_q, div_q);
    assert_eq!(found_other_div_q, other_div_q);
}

#[test]
fn test_factor_with_size() {
    let factor1 = num(11);
    let factor2 = num(13);
    let n = product(&factor1, &factor2);
    let result = OptimizedPaillier::factor_with_size(&n, 4);
    assert!(result.is_some());
    let (found1, found2) = result.unwrap();
    assert!((found1 == factor1 && found2 == factor2) || (found1 == factor2 && found2 == factor1));
}

#[test]
fn factor_with_size_reports_no_divisor_in_range() {
    // 143 = 11 · 13 has no divisor in [2, 4)
    assert!(OptimizedPaillier::factor_with_size(&num(143), 2).is_none());
}

#[test]
fn test_ngen_methods() {
    let div_p = num(11);
    let div_q = num(13);
    let other_div_p = num(17);
    let other_div_q = num(19);
    let p = structured(&div_p, &other_div_p);
    let q = structured(&div_q, &other_div_q);
    let ngen = NGen { n: product(&p, &q), p, q, div_p, div_q, alpha_size: 8 };
    assert_eq!(ngen.other_div_p(), other_div_p);
    assert_eq!(ngen.other_div_q(), other_div_q);
}

#[test]
fn verify_ngen_accepts_structured_primes() {
    // 2·11·3 + 1 = 67 and 2·13·5 + 1 = 131 are prime
    let ngen = NGen { n: num(67 * 131), p: num(67), q: num(131), div_p: num(11), div_q: num(13), alpha_size: 8 };
    assert!(OptimizedPaillier::verify_ngen(&ngen));
}

#[test]
fn verify_ngen_rejects_composite_p() {
    // 375 = 2·11·17 + 1 is not prime
    let ngen = NGen { n: num(375 * 495), p: num(375), q: num(495), div_p: num(11), div_q: num(13), alpha_size: 8 };
    assert!(!OptimizedPaillier::verify_ngen(&ngen));
}

#[test]
fn test_keys_with_primes() {
    let div_p = num(11);
    let div_q = num(13);
    let other_div_p = num(17);
    let other_div_q = num(19);
    let p = structured(&div_p, &other_div_p);
    let q = structured(&div_q, &other_div_q);
    let keys = NGen::keys_with_primes(&p, &q, 8);
    assert!(keys.is_ok());
    let (_ek, dk) = keys.unwrap();
    assert_eq!(dk.p, p);
    assert_eq!(dk.q, q);
    assert_eq!(dk.n, product(&p, &q));
    assert_eq!(dk.alpha, product(&div_p, &div_q));
}

#[test]
fn keys_with_primes_rejects_unstructured_primes() {
    assert_eq!(NGen::keys_with_primes(&num(7), &num(11), 8).unwrap_err(), PaillierError::NotReconstructible);
}

#[test]
fn generated_parameters_have_the_structure() {
    let ng = OptimizedPaillier::ngen_with_modulus_size(128, 32).unwrap();
    assert_eq!(ng.alpha_size, 32);
    assert!(OptimizedPaillier::verify_ngen(&ng));
    let (ek, dk) = ng.keys().unwrap();
    let c = OptimizedPaillier::encrypt(&ek, raw(42)).unwrap();
    assert_eq!(OptimizedPaillier::decrypt(&dk, c.clone()).unwrap(), raw(42));
    assert_eq!(OptimizedPaillier::decrypt_crt(&dk, c).unwrap(), raw(42));
}

#[test]
fn generation_rejects_bad_sizes() {
    let r: Result<NGen, PaillierError> = OptimizedPaillier::ngen_with_modulus_size(64, 4);
    assert_eq!(r.unwrap_err(), PaillierError::InvalidParameters);
}

#[test]
fn test_keys_form_a_valid_pair() {
    let (ek, dk) = test_keys();
    assert!(optimized_paillier::laws::check_key_pair(&ek, &dk));
    let mut other = ek.clone();
    other.hn = num(2);
    assert!(!optimized_paillier::laws::check_key_pair(&other, &dk));
}

#[test]
fn encryption_with_chosen_randomness_is_exact() {
    // n = 15, nn = 225, hn = 4, m = 2, r = 3: (1 + 30) · 4^3 mod 225 = 31 · 64 mod 225 = 184
    let ek = EncryptionKey::new(8, num(15), num(2), num(4));
    let c = optimized_paillier::cipher::encrypt_with_randomness(&ek, &num(2), &num(3)).unwrap();
    assert_eq!(c, num(184));
}

#[test]
fn decryption_formula_on_small_key() {
    // p = 3, q = 5, alpha = 1: c = 16 gives 16^2 mod 225 = 31, L = 2, 2^-1 mod 15 = 8, m = 16 mod 15 = 1
    let dk = DecryptionKey::new(num(3), num(5), num(1), num(15));
    let m = optimized_paillier::cipher::decrypt_raw(&dk, &num(16)).unwrap();
    assert_eq!(m, num(1));
    let crt = optimized_paillier::cipher::decrypt_crt_raw(&dk, &num(16)).unwrap();
    assert_eq!(crt, num(1));
}

#[test]
fn encryption_under_table_matches_plain_formula() {
    let (ek, dk) = test_keys();
    let table = PrecomputeTable::new_dp(ek.hn.clone(), 6, ek.alpha_size, ek.nn.clone());
    let r = num(123456789);
    let with_table =
        optimized_paillier::cipher::encrypt_with_table_and_randomness(&table, &ek, &num(99), &r).unwrap();
    let plain = optimized_paillier::cipher::encrypt_with_randomness(&ek, &num(99), &r).unwrap();
    assert_eq!(with_table, plain);
    assert_eq!(OptimizedPaillier::decrypt(&dk, RawCiphertext::new(with_table)).unwrap(), raw(99));
}

#[test]
fn scenario_of_the_fixed_test_key() {
    let (ek, dk) = test_keys();
    let c10 = OptimizedPaillier::encrypt(&ek, raw(10)).unwrap();
    assert_eq!(OptimizedPaillier::decrypt(&dk, c10.clone()).unwrap(), raw(10));
    let c20 = OptimizedPaillier::encrypt(&ek, raw(20)).unwrap();
    let sum = OptimizedPaillier::add(&ek, c10.clone(), c20).unwrap();
    assert_eq!(OptimizedPaillier::decrypt(&dk, sum).unwrap(), raw(30));
    let prod = OptimizedPaillier::mul(&ek, c10, raw(20)).unwrap();
    assert_eq!(OptimizedPaillier::decrypt(&dk, prod).unwrap(), raw(200));
    let big = OptimizedPaillier::encrypt(&ek, RawPlaintext::from_bigint(pow2(120))).unwrap();
    let twice = OptimizedPaillier::add(&ek, big.clone(), big).unwrap();
    assert_eq!(OptimizedPaillier::decrypt_crt(&dk, twice).unwrap(), RawPlaintext::from_bigint(pow2(121)));
}

#[test]
fn key_derivation_rejects_inexact_beta() {
    // (p-1)(q-1) = 10·12 = 120 is not a multiple of 4·3·7 = 84
    let ng = NGen { alpha_size: 8, n: num(143), p: num(11), q: num(13), div_p: num(3), div_q: num(7) };
    assert_eq!(ng.keys().unwrap_err(), PaillierError::NotReconstructible);
}

#[test]
fn prime_candidate_sets_low_and_top_bits() {
    // 4 = 0b0100 drawn for 5 bits: made odd (5) and bit 4 set: 21
    assert_eq!(optimized_paillier::keygen::prime_candidate(&num(4), 5), num(21));
    // 7 is already odd: 7 + 16
    assert_eq!(optimized_paillier::keygen::prime_candidate(&num(7), 5), num(23));
    assert_eq!(optimized_paillier::keygen::safe_prime_candidate(&num(11)), num(23));
}

#[test]
fn assemble_parameters_keeps_exactly_passing_coprime_candidates() {
    let ng = assemble_parameters(num(11), num(13), &num(3), &num(5), true, true, 8).unwrap();
    assert_eq!(ng.p, num(67));
    assert_eq!(ng.q, num(131));
    assert_eq!(ng.n, num(67 * 131));
    assert_eq!(ng.alpha_size, 8);
    assert!(assemble_parameters(num(11), num(13), &num(3), &num(5), false, true, 8).is_none());
    assert!(assemble_parameters(num(11), num(13), &num(3), &num(5), true, false, 8).is_none());
    // 11 and 11 share a factor
    assert!(assemble_parameters(num(11), num(11), &num(3), &num(5), true, true, 8).is_none());
}

#[test]
fn derive_keys_with_given_y_is_exact() {
    // p = 2·11·17 + 1, q = 2·13·19 + 1; beta = 374·494 / (4·143) = 323
    let p = num(375);
    let q = num(495);
    let n = product(&p, &q);
    let y = num(2);
    let (ek, dk) =
        optimized_paillier::keygen::derive_keys_with(8, &n, &p, &q, &num(11), &num(13), &y).unwrap();
    let h = BigInt::mod_pow(&BigInt::from(2), &BigInt::from(646), &big(&n));
    assert_eq!(big(&ek.h), h);
    assert_eq!(big(&ek.hn), BigInt::mod_pow(&h, &big(&n), &(big(&n) * big(&n))));
    assert_eq!(dk.alpha, num(143));
    let inexact = optimized_paillier::keygen::derive_keys_with(8, &n, &p, &q, &num(3), &num(13), &y);
    assert_eq!(inexact.unwrap_err(), PaillierError::NotReconstructible);
}

#[test]
fn from_n_with_given_y_is_exact() {
    let ek = EncryptionKey::from_n_with(num(143), 8, &num(5)).unwrap();
    assert_eq!(ek.h, num(25));
    assert_eq!(big(&ek.hn), BigInt::mod_pow(&BigInt::from(25), &BigInt::from(143), &BigInt::from(143 * 143)));
    assert_eq!(EncryptionKey::from_n_with(num(1), 8, &num(5)).unwrap_err(), PaillierError::InvalidKey);
    assert_eq!(EncryptionKey::from_n(num(0), 8).unwrap_err(), PaillierError::InvalidKey);
}

#[test]
fn find_divisors_rejects_when_no_divisor_in_range() {
    // (7-1)/2 = 3 has no divisor of 4 bits
    assert!(OptimizedPaillier::find_divisors(&num(7), &num(495), 8).is_none());
}

#[test]
fn safe_prime_generation_gives_safe_forms() {
    let ng = OptimizedPaillier::ngen_safe_primes_with_modulus_size(128, 32).unwrap();
    for d in [&ng.div_p, &ng.div_q] {
        let h = (big(d) - BigInt::from(1)) / BigInt::from(2);
        assert!(h.is_probable_prime(25));
        assert_eq!(h.bit_length(), 15);
    }
}
