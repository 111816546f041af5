//! Chicken Encryption Kit: number theory, the chicken text formats, keys,
//! ciphertexts, hashing, signing.

pub mod arith;
pub mod error;
pub mod number_theory;
pub mod text;
pub mod format;
pub mod outside;
pub mod format_laws;
pub mod hash;
pub mod keys;
pub mod cipher;
pub mod keygen;
pub mod laws;
pub mod file_laws;
pub mod select;

pub use arith::{gcd, extended_gcd, mod_inverse, mod_pow, is_prime, valid_prime_pairs};
pub use cipher::{CipherData, MAGIC_PREFIX, encrypt, decrypt, sign, verify};
pub use error::ChickenError;
pub use hash::chicken_hash;
pub use keygen::{generate_keys, key_pairs_from_primes};
pub use keys::{KeyType, KeyPair, KeyFile, is_minichicken_format, is_password_protected};
pub use select::{key_labels, render_list, clear_list, menu_step, parse_selection, is_yes_answer, MenuKey, MenuAction};
