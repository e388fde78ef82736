//! Non-negative big integers: the library's own carrier for the values of the
//! cryptosystem. Arithmetic is delegated to curv's `BigInt`; every operation
//! states its result over the mathematical value of its operands.

use curv::arithmetic::{BasicOps, BitManipulation, Converter, Integer, Modulo, Primes, Samplable};
use curv::BigInt;
use vstd::arithmetic::power::pow;
use vstd::arithmetic::power2::pow2;
use vstd::prelude::*;
use vstd::std_specs::iter::IteratorSpec;

verus! {

/// The value of a big-endian sequence of bytes.
pub open spec fn be_value(s: Seq<u8>) -> nat
    decreases s.len(),
{
    if s.len() == 0 {
        0
    } else {
        be_value(s.drop_last()) * 256 + s.last() as nat
    }
}

/// Greatest common divisor, by Euclid's recurrence (`gcd(a, 0) == a`).
pub open spec fn gcd(a: nat, b: nat) -> nat
    decreases b,
{
    if b == 0 {
        a
    } else {
        gcd(b, a % b)
    }
}

pub open spec fn is_prime(x: nat) -> bool {
    x > 1 && forall|d: nat| 1 < d < x ==> #[trigger] (x % d) != 0
}

/// Whether bit `i` of `x` is set.
pub open spec fn bit_of(x: nat, i: nat) -> bool {
    (x / pow2(i)) % 2 == 1
}

/// The character of a digit below 16, lower case.
pub open spec fn hex_char(d: nat) -> char {
    if d < 10 {
        ((d + 48) as u8) as char
    } else {
        ((d + 87) as u8) as char
    }
}

/// The shortest lower-case hexadecimal numeral of `v` ("0" for zero).
pub open spec fn hex_numeral(v: nat) -> Seq<char>
    decreases v,
{
    if v < 16 {
        seq![hex_char(v)]
    } else {
        hex_numeral(v / 16).push(hex_char(v % 16))
    }
}

pub open spec fn is_hex_digit(c: char) -> bool {
    ('0' <= c && c <= '9') || ('a' <= c && c <= 'f') || ('A' <= c && c <= 'F')
}

pub open spec fn hex_digit_value(c: char) -> nat {
    if '0' <= c && c <= '9' {
        (c as nat - 48) as nat
    } else if 'a' <= c && c <= 'f' {
        (c as nat - 87) as nat
    } else {
        (c as nat - 55) as nat
    }
}

pub open spec fn all_hex_digits(s: Seq<char>) -> bool {
    forall|i: int| 0 <= i < s.len() ==> is_hex_digit(#[trigger] s[i])
}

/// The value of a numeral in base 16, most significant digit first.
pub open spec fn hex_value(s: Seq<char>) -> nat
    decreases s.len(),
{
    if s.len() == 0 {
        0
    } else {
        hex_value(s.drop_last()) * 16 + hex_digit_value(s.last())
    }
}

/// `a` has an inverse modulo `m`.
pub open spec fn invertible(a: nat, m: nat) -> bool {
    exists|x: nat| x < m && #[trigger] ((x * a) % m) == 1
}

/// `b^e mod m`.
pub open spec fn pow_mod(b: nat, e: nat, m: nat) -> nat {
    (pow(b as int, e) % (m as int)) as nat
}

/// A non-negative integer of any size, held as big-endian bytes.
#[derive(Debug)]
pub struct BigNat {
    bytes: Vec<u8>,
}

impl View for BigNat {
    type V = nat;

    closed spec fn view(&self) -> nat {
        be_value(self.bytes@)
    }
}

impl Clone for BigNat {
    fn clone(&self) -> (r: BigNat)
        ensures
            r@ == self@,
    {
        BigNat { bytes: self.bytes.clone() }
    }
}

impl PartialEq for BigNat {
    fn eq(&self, other: &BigNat) -> (r: bool) {
        big_eq(self, other)
    }
}

impl vstd::std_specs::cmp::PartialEqSpecImpl for BigNat {
    open spec fn obeys_eq_spec() -> bool {
        true
    }

    open spec fn eq_spec(&self, other: &BigNat) -> bool {
        self@ == other@
    }
}

impl BigNat {
    /// The number whose big-endian bytes are `bytes`.
    pub fn from_bytes_be(bytes: Vec<u8>) -> (r: BigNat)
        ensures
            r@ == be_value(bytes@),
    {
        BigNat { bytes }
    }

    /// Big-endian bytes of the number.
    pub fn to_bytes_be(&self) -> (r: Vec<u8>)
        ensures
            be_value(r@) == self@,
    {
        self.bytes.clone()
    }

    pub fn from_u64(x: u64) -> (r: BigNat)
        ensures
            r@ == x,
    {
        big_from_u64(x)
    }
}

/// Relies on `curv::BigInt::from(u64)` and `Converter::to_bytes` (big-endian magnitude).
#[verifier::external_body]
pub(crate) fn big_from_u64(x: u64) -> (r: BigNat)
    ensures
        r@ == x,
{
    BigNat { bytes: BigInt::from(x).to_bytes() }
}

/// Relies on `TryFrom<&curv::BigInt> for u64`: succeeds exactly when the value fits.
#[verifier::external_body]
pub(crate) fn big_to_u64(a: &BigNat) -> (r: Option<u64>)
    ensures
        a@ <= u64::MAX ==> r == Some(a@ as u64),
        a@ > u64::MAX ==> r is None,
{
    u64::try_from(&BigInt::from_bytes(&a.bytes)).ok()
}

/// Relies on `curv::BigInt == curv::BigInt` (derived, compares the values).
#[verifier::external_body]
pub(crate) fn big_eq(a: &BigNat, b: &BigNat) -> (r: bool)
    ensures
        r == (a@ == b@),
{
    BigInt::from_bytes(&a.bytes) == BigInt::from_bytes(&b.bytes)
}

/// Relies on `curv::BigInt < curv::BigInt` (the order of the values).
#[verifier::external_body]
pub(crate) fn big_lt(a: &BigNat, b: &BigNat) -> (r: bool)
    ensures
        r == (a@ < b@),
{
    BigInt::from_bytes(&a.bytes) < BigInt::from_bytes(&b.bytes)
}

/// Relies on `&BigInt + &BigInt`.
#[verifier::external_body]
pub(crate) fn big_add(a: &BigNat, b: &BigNat) -> (r: BigNat)
    ensures
        r@ == a@ + b@,
{
    BigNat { bytes: (&BigInt::from_bytes(&a.bytes) + &BigInt::from_bytes(&b.bytes)).to_bytes() }
}

/// Relies on `&BigInt - &BigInt`; the difference is not negative here.
#[verifier::external_body]
pub(crate) fn big_sub(a: &BigNat, b: &BigNat) -> (r: BigNat)
    requires
        a@ >= b@,
    ensures
        r@ == a@ - b@,
{
    BigNat { bytes: (&BigInt::from_bytes(&a.bytes) - &BigInt::from_bytes(&b.bytes)).to_bytes() }
}

/// Relies on `&BigInt * &BigInt`.
#[verifier::external_body]
pub(crate) fn big_mul(a: &BigNat, b: &BigNat) -> (r: BigNat)
    ensures
        r@ == a@ * b@,
{
    BigNat { bytes: (&BigInt::from_bytes(&a.bytes) * &BigInt::from_bytes(&b.bytes)).to_bytes() }
}

/// Relies on `Integer::div_floor`; a zero divisor is a division by zero.
#[verifier::external_body]
pub(crate) fn big_div(a: &BigNat, b: &BigNat) -> (r: BigNat)
    requires
        b@ > 0,
    ensures
        r@ == a@ / b@,
{
    BigNat { bytes: BigInt::from_bytes(&a.bytes).div_floor(&BigInt::from_bytes(&b.bytes)).to_bytes() }
}

/// Relies on `Integer::mod_floor`; a zero modulus is a division by zero.
#[verifier::external_body]
pub(crate) fn big_rem(a: &BigNat, m: &BigNat) -> (r: BigNat)
    requires
        m@ > 0,
    ensures
        r@ == a@ % m@,
{
    BigNat { bytes: BigInt::from_bytes(&a.bytes).mod_floor(&BigInt::from_bytes(&m.bytes)).to_bytes() }
}

/// Relies on `BasicOps::pow`: `a` raised to `e`.
#[verifier::external_body]
pub(crate) fn big_pow(a: &BigNat, e: u32) -> (r: BigNat)
    ensures
        r@ == pow(a@ as int, e as nat),
{
    BigNat { bytes: BigInt::from_bytes(&a.bytes).pow(e).to_bytes() }
}

/// Relies on `Modulo::mod_pow` (GMP's `mpz_powm`; a zero modulus is a division by zero).
#[verifier::external_body]
pub(crate) fn big_mod_pow(b: &BigNat, e: &BigNat, m: &BigNat) -> (r: BigNat)
    requires
        m@ > 0,
    ensures
        r@ == pow_mod(b@, e@, m@),
{
    let (b, e, m) = (BigInt::from_bytes(&b.bytes), BigInt::from_bytes(&e.bytes), BigInt::from_bytes(&m.bytes));
    BigNat { bytes: BigInt::mod_pow(&b, &e, &m).to_bytes() }
}

/// Relies on `Modulo::mod_mul`: the product reduced into `[0, m)`.
#[verifier::external_body]
pub(crate) fn big_mod_mul(a: &BigNat, b: &BigNat, m: &BigNat) -> (r: BigNat)
    requires
        m@ > 0,
    ensures
        r@ == (a@ * b@) % m@,
{
    let (a, b, m) = (BigInt::from_bytes(&a.bytes), BigInt::from_bytes(&b.bytes), BigInt::from_bytes(&m.bytes));
    BigNat { bytes: BigInt::mod_mul(&a, &b, &m).to_bytes() }
}

/// Relies on `Modulo::mod_sub`: the difference reduced into `[0, m)`.
#[verifier::external_body]
pub(crate) fn big_mod_sub(a: &BigNat, b: &BigNat, m: &BigNat) -> (r: BigNat)
    requires
        m@ > 0,
    ensures
        r@ == (a@ - b@) % (m@ as int),
{
    let (a, b, m) = (BigInt::from_bytes(&a.bytes), BigInt::from_bytes(&b.bytes), BigInt::from_bytes(&m.bytes));
    BigNat { bytes: BigInt::mod_sub(&a, &b, &m).to_bytes() }
}

/// Relies on `Modulo::mod_inv` (GMP's `mpz_invert`): an inverse in `[0, m)` whenever
/// one exists, and `None` otherwise.
#[verifier::external_body]
pub(crate) fn big_mod_inv(a: &BigNat, m: &BigNat) -> (r: Option<BigNat>)
    requires
        m@ > 1,
    ensures
        r is Some <==> invertible(a@, m@),
        r is Some ==> r.unwrap()@ < m@ && (r.unwrap()@ * a@) % m@ == 1,
{
    let (a, m) = (BigInt::from_bytes(&a.bytes), BigInt::from_bytes(&m.bytes));
    BigInt::mod_inv(&a, &m).map(|x| BigNat { bytes: x.to_bytes() })
}

/// Relies on `Integer::gcd`.
#[verifier::external_body]
pub(crate) fn big_gcd(a: &BigNat, b: &BigNat) -> (r: BigNat)
    ensures
        r@ == gcd(a@, b@),
{
    BigNat { bytes: BigInt::from_bytes(&a.bytes).gcd(&BigInt::from_bytes(&b.bytes)).to_bytes() }
}

/// Relies on `BitManipulation::test_bit`.
#[verifier::external_body]
pub(crate) fn big_test_bit(a: &BigNat, i: usize) -> (r: bool)
    ensures
        r == bit_of(a@, i as nat),
{
    BigInt::from_bytes(&a.bytes).test_bit(i)
}

/// Relies on `BitManipulation::set_bit` with value `true`.
#[verifier::external_body]
pub(crate) fn big_set_bit(a: &BigNat, i: usize) -> (r: BigNat)
    ensures
        r@ == if bit_of(a@, i as nat) { a@ } else { a@ + pow2(i as nat) },
{
    let mut x = BigInt::from_bytes(&a.bytes);
    x.set_bit(i, true);
    BigNat { bytes: x.to_bytes() }
}

/// Relies on `Converter::to_str_radix` with radix 16 (GMP's lower-case digits).
#[verifier::external_body]
pub(crate) fn big_to_hex(a: &BigNat) -> (r: String)
    ensures
        r@ == hex_numeral(a@),
{
    BigInt::from_bytes(&a.bytes).to_str_radix(16)
}

/// Relies on `Converter::from_str_radix` with radix 16, which accepts any non-empty
/// string of hexadecimal digits.
#[verifier::external_body]
pub(crate) fn big_from_hex(s: &str) -> (r: Option<BigNat>)
    ensures
        s@.len() > 0 && all_hex_digits(s@) ==> r is Some && r.unwrap()@ == hex_value(s@),
{
    BigInt::from_str_radix(s, 16).ok().map(|v| BigNat { bytes: v.to_bytes() })
}

/// Relies on `Samplable::sample`: a value below `2^bits` drawn from the OS generator.
#[verifier::external_body]
pub(crate) fn big_sample(bits: usize) -> (r: BigNat)
    ensures
        r@ < pow2(bits as nat),
{
    BigNat { bytes: BigInt::sample(bits).to_bytes() }
}

/// Relies on `Samplable::sample_below`, which panics on a zero bound.
#[verifier::external_body]
pub(crate) fn big_sample_below(upper: &BigNat) -> (r: BigNat)
    requires
        upper@ > 0,
    ensures
        r@ < upper@,
{
    BigNat { bytes: BigInt::sample_below(&BigInt::from_bytes(&upper.bytes)).to_bytes() }
}

/// Relies on `Primes::is_probable_prime` (GMP's `mpz_probab_prime_p`): a prime is
/// never rejected.
#[verifier::external_body]
pub(crate) fn big_is_probable_prime(a: &BigNat, rounds: u32) -> (r: bool)
    ensures
        is_prime(a@) ==> r,
{
    BigInt::from_bytes(&a.bytes).is_probable_prime(rounds)
}


/// Whether `s` is a non-empty string of hexadecimal digits.
pub fn is_hex_numeral(s: &str) -> (r: bool)
    ensures
        r == (s@.len() > 0 && all_hex_digits(s@)),
{
    broadcast use vstd::string::axiom_spec_iter, vstd::string::next_postcondition;

    let mut chars = s.chars();
    let ghost whole = s@;
    let ghost mut i: int = 0;
    let mut any = false;
    loop
        invariant
            chars.obeys_prophetic_iter_laws(),
            whole == s@,
            0 <= i <= whole.len(),
            any == (i > 0),
            chars.remaining() == whole.subrange(i, whole.len() as int),
            forall|k: int| 0 <= k < i ==> is_hex_digit(#[trigger] whole[k]),
        decreases whole.len() - i,
    {
        let next = chars.next();
        match next {
            None => {
                return any;
            },
            Some(c) => {
                proof {
                    assert(whole[i] == c);
                }
                if !(('0' <= c && c <= '9') || ('a' <= c && c <= 'f') || ('A' <= c && c <= 'F')) {
                    return false;
                }
                proof {
                    i = i + 1;
                }
                any = true;
            },
        }
    }
}


/// Reading back the hexadecimal numeral of `v` gives `v`, and the numeral is a
/// non-empty string of hexadecimal digits.
pub proof fn lemma_hex_round_trip(v: nat)
    ensures
        hex_numeral(v).len() > 0,
        all_hex_digits(hex_numeral(v)),
        hex_value(hex_numeral(v)) == v,
    decreases v,
{
    let d = v % 16;
    assert(is_hex_digit(hex_char(d)) && hex_digit_value(hex_char(d)) == d) by {
        if d < 10 {
            assert(((d + 48) as u8) as char as nat == d + 48);
        } else {
            assert(((d + 87) as u8) as char as nat == d + 87);
        }
    }
    if v < 16 {
        let s = hex_numeral(v);
        assert(s.drop_last() =~= Seq::<char>::empty());
        assert(s.last() == hex_char(v));
        assert(d == v);
        assert(hex_value(s) == hex_value(s.drop_last()) * 16 + hex_digit_value(s.last()));
    } else {
        lemma_hex_round_trip(v / 16);
        let s = hex_numeral(v);
        let pre = hex_numeral(v / 16);
        assert(s.drop_last() =~= pre);
        assert(s.last() == hex_char(d));
        assert(hex_value(s) == hex_value(pre) * 16 + d);
        assert forall|i: int| 0 <= i < s.len() implies is_hex_digit(#[trigger] s[i]) by {
            if i < pre.len() {
                assert(s[i] == pre[i]);
            }
        }
    }
}

} // verus!
