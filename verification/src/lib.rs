//! A symmetric GLWE encryption scheme over the ring of polynomials modulo
//! `X^N + 1` with 64-bit coefficients.
//!
//! A plaintext of `N` small signed symbols is scaled by `q / p`, hidden
//! under the inner product of a random mask with a binary secret key, and
//! disturbed by an error of less than half the scaling factor. Decryption
//! takes the inner product off again and rounds to the nearest symbol.
//!
//! - [`codec`]: words and signed residues, reduction modulo `q`, and the
//!   rounding division that decodes.
//! - [`ring`]: lists of polynomials and the arithmetic modulo `X^N + 1`,
//!   which the `tfhe` crate carries out.
//! - [`key`]: binary keys, their Hamming weight, and key generation.
//! - [`parameters`]: the conditions on `N`, `k`, `p` and `q`.
//! - [`model`]: what a ciphertext is and what it decrypts to, and the proof
//!   that decryption inverts encryption.
//! - [`encrypt`] and [`decrypt`]: the two operations.
//! - [`error`]: the ways in which an operation refuses its input.
//!
//! Every function is verified against its contract, except for the few
//! that hand a request on to `tfhe` or to `rand`: their contracts are
//! taken on trust, and their documentation says so.

pub mod codec;
pub mod decrypt;
pub mod encrypt;
pub mod error;
pub mod key;
pub mod model;
pub mod parameters;
mod randomness;
pub mod ring;

pub use crate::codec::{
    add_vecs_with_mod_red, assert_vector_eq, convert_Vi64_to_Vu64, convert_Vu64_to_Vi64,
    div_by_delta, modular_red_vec, to_signed, to_unsigned,
};
pub use crate::decrypt::decrypt_glwe;
pub use crate::encrypt::{
    encode_plaintext, encrypt_glwe, encrypt_glwe_with_key, encrypt_glwe_with_randomness,
    validate_plaintext,
};
pub use crate::error::GlweError;
pub use crate::key::{
    check_key_weight, generate_glwe_secret_key, hamming_weight, toy_binary_randomness,
};
pub use crate::parameters::parameters_are_valid;
pub use crate::ring::{
    multiply_accumulate, negacyclic_multiply, polynomial_add, polynomial_subtract, GlweSize,
    PolynomialList, PolynomialSize,
};
