//! An additively homomorphic public-key cryptosystem of the Paillier family
//! with structured primes, CRT-accelerated decryption and a fixed-base
//! exponentiation table.

mod arith;
pub mod bignat;
pub mod cipher;
pub mod encoding;
pub mod keygen;
pub mod keys;
pub mod laws;
pub mod record;
pub mod table;
pub mod traits;

pub use bignat::BigNat;
pub use encoding::EncodedCiphertext;
pub use keys::{
    DecryptionKey, EncryptionKey, NGen, OptimizedPaillier, PaillierError, Randomness, RawCiphertext,
    RawPlaintext,
};
pub use table::PrecomputeTable;
pub use traits::{
    Add, Decrypt, DecryptCRT, Encrypt, EncryptWithPrecomputeTable, KeyGeneration, Mul,
    PowWithPrecomputeTable,
};
