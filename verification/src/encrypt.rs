//! Encryption: a plaintext is scaled into the high bits of the ciphertext
//! modulus, hidden under the inner product of a random mask with the secret
//! key, and disturbed by a small error.

use vstd::prelude::*;
use crate::codec::{convert_Vi64_to_Vu64, reduce_centered};
use crate::error::GlweError;
use crate::key::{count_ones, generate_glwe_secret_key, is_binary};
use crate::model::{
    ciphertext,
    decrypted,
    encoded_plaintext,
    encoded_symbol,
    error_in_bounds,
    lemma_decryption_inverts_encryption,
    lemma_encoding_scale,
    noise_in_bounds,
    plaintext_in_range,
    symbol_in_range,
    words,
};
use crate::parameters::{
    lemma_moduli_admit_scaling,
    lemma_scaling_factor_bounds,
    moduli_admit_scaling,
    scaling_factor,
    within_machine_limits,
};
use crate::randomness::uniform_signed;
use crate::ring::{multiply_accumulate, polynomial_add, GlweSize, PolynomialList, PolynomialSize};

verus! {

/// The operands of an encryption have the shapes that the parameters ask
/// for: `n` symbols, `n` error coefficients, and `k` polynomials of `n`
/// coefficients in the key and in the mask.
pub open spec fn encryption_shapes_agree(
    plaintext: Seq<i64>,
    secret_key: Seq<u64>,
    key_polynomial_size: nat,
    mask: Seq<i64>,
    error: Seq<i64>,
    n: nat,
    k: nat,
) -> bool {
    &&& plaintext.len() == n
    &&& error.len() == n
    &&& key_polynomial_size == n
    &&& secret_key.len() == n * k
    &&& mask.len() == n * k
}

/// `cipher_text` is the encryption of `plaintext` under `secret_key` with
/// the mask and the error given, and these are such as [`encrypt_glwe`]
/// draws: each coefficient of the mask in `[-modulus_q, modulus_q)`, each
/// coefficient of the error less than half the scaling factor in absolute
/// value.
pub open spec fn encrypts_with(
    cipher_text: Seq<u64>,
    plaintext: Seq<i64>,
    secret_key: Seq<u64>,
    mask: Seq<i64>,
    error: Seq<i64>,
    modulus_p: int,
    modulus_q: int,
    n: nat,
    k: nat,
) -> bool {
    &&& mask.len() == n * k
    &&& error.len() == n
    &&& forall|i: int| 0 <= i < mask.len() ==> -modulus_q <= #[trigger] mask[i] < modulus_q
    &&& error_in_bounds(error, modulus_p, modulus_q)
    &&& cipher_text == ciphertext(plaintext, secret_key, mask, error, modulus_p, modulus_q, n)
}

/// `cipher_text` is a ciphertext of `k + 1` polynomials of `n` coefficients
/// that is the encryption of `plaintext` under `secret_key` with some mask
/// and some error within their bounds, that decrypts to `plaintext`, and
/// whose noise is less than half the scaling factor.
pub open spec fn is_encryption_under_key(
    cipher_text: PolynomialList,
    secret_key: Seq<u64>,
    plaintext: Seq<i64>,
    modulus_p: int,
    modulus_q: int,
    n: nat,
    k: nat,
) -> bool {
    &&& cipher_text.spec_polynomial_size() == n
    &&& cipher_text@.len() == n * (k + 1)
    &&& exists|mask: Seq<i64>, error: Seq<i64>| #[trigger]
        encrypts_with(
            cipher_text@,
            plaintext,
            secret_key,
            mask,
            error,
            modulus_p,
            modulus_q,
            n,
            k,
        )
    &&& decrypted(cipher_text@, secret_key, modulus_p, modulus_q, n, k) == plaintext
    &&& noise_in_bounds(cipher_text@, secret_key, plaintext, modulus_p, modulus_q, n, k)
}

/// What [`encrypt_glwe`] hands out: a binary key of `k` polynomials of `n`
/// coefficients that has more than `k` ones, and an encryption of
/// `plaintext` under that key.
pub open spec fn is_fresh_encryption(
    cipher_text: PolynomialList,
    secret_key: PolynomialList,
    plaintext: Seq<i64>,
    modulus_p: int,
    modulus_q: int,
    n: nat,
    k: nat,
) -> bool {
    &&& secret_key.spec_polynomial_size() == n
    &&& secret_key@.len() == n * k
    &&& is_binary(secret_key@)
    &&& count_ones(secret_key@) > k
    &&& is_encryption_under_key(
        cipher_text,
        secret_key@,
        plaintext,
        modulus_p,
        modulus_q,
        n,
        k,
    )
}

/// The plaintext and the key have the shapes that the parameters ask for:
/// `n` symbols, and `k` polynomials of `n` coefficients in the key.
pub open spec fn key_fits_plaintext(
    plaintext: Seq<i64>,
    secret_key: Seq<u64>,
    key_polynomial_size: nat,
    n: nat,
    k: nat,
) -> bool {
    &&& plaintext.len() == n
    &&& key_polynomial_size == n
    &&& secret_key.len() == n * k
}

/// Checks a plaintext before encryption: it must have `N` symbols, each in
/// the open interval `(-modulus_p/2, modulus_p/2)`.
#[allow(non_snake_case)]
pub fn validate_plaintext(plaintext: &Vec<i64>, modulus_p: i64, N: usize) -> (result: Result<
    (),
    GlweError,
>)
    ensures
        plaintext.len() != N <==> result == Err::<(), GlweError>(GlweError::DimensionMismatch),
        plaintext.len() == N && !plaintext_in_range(plaintext@, modulus_p as int) <==> result
            == Err::<(), GlweError>(GlweError::OutOfRangePlaintext),
        plaintext.len() == N && plaintext_in_range(plaintext@, modulus_p as int) <==> result is Ok,
{
    if plaintext.len() != N {
        return Err(GlweError::DimensionMismatch);
    }
    let mut i: usize = 0;
    while i < plaintext.len()
        invariant
            plaintext.len() == N,
            i <= plaintext.len(),
            plaintext_in_range(plaintext@.take(i as int), modulus_p as int),
        decreases plaintext.len() - i,
    {
        let doubled = 2 * (plaintext[i] as i128);
        if doubled <= -(modulus_p as i128) || doubled >= modulus_p as i128 {
            assert(!symbol_in_range(plaintext@[i as int] as int, modulus_p as int));
            return Err(GlweError::OutOfRangePlaintext);
        }
        i += 1;
    }
    assert(plaintext@.take(plaintext.len() as int) =~= plaintext@);
    Ok(())
}

/// Encodes a plaintext: every symbol is scaled by `modulus_q / modulus_p`
/// and reduced modulo `modulus_q` to its centered residue, so that it is
/// congruent to the scaled symbol.
pub fn encode_plaintext(plaintext: &Vec<i64>, modulus_p: i64, modulus_q: i64) -> (encoded: Vec<i64>)
    requires
        modulus_p > 0,
        modulus_q > 0,
    ensures
        encoded@ == encoded_plaintext(plaintext@, modulus_p as int, modulus_q as int),
        forall|i: int|
            0 <= i < plaintext.len() ==> (#[trigger] encoded[i] as int) % (modulus_q as int) == (
            plaintext[i] * scaling_factor(modulus_p as int, modulus_q as int)) % (modulus_q as int),
{
    let delta = modulus_q / modulus_p;
    let mut encoded: Vec<i64> = Vec::new();
    let mut i: usize = 0;
    while i < plaintext.len()
        invariant
            modulus_q > 0,
            0 <= delta == scaling_factor(modulus_p as int, modulus_q as int),
            i <= plaintext.len(),
            encoded.len() == i,
            forall|j: int|
                0 <= j < i ==> #[trigger] encoded[j] == encoded_symbol(
                    plaintext[j] as int,
                    modulus_p as int,
                    modulus_q as int,
                ),
        decreases plaintext.len() - i,
    {
        let symbol = plaintext[i];
        assert(-0x4000_0000_0000_0000_0000_0000_0000_0000 <= symbol * delta
            <= 0x4000_0000_0000_0000_0000_0000_0000_0000) by (nonlinear_arith)
            requires
                -0x8000_0000_0000_0000 <= symbol <= 0x8000_0000_0000_0000,
                0 <= delta <= 0x8000_0000_0000_0000,
        ;
        encoded.push(reduce_centered((symbol as i128) * (delta as i128), modulus_q));
        i += 1;
    }
    proof {
        assert forall|j: int| 0 <= j < plaintext.len() implies (#[trigger] encoded[j] as int) % (
        modulus_q as int) == (plaintext[j] * scaling_factor(modulus_p as int, modulus_q as int)) % (
        modulus_q as int) by {
            lemma_encoding_scale(plaintext[j] as int, modulus_p as int, modulus_q as int);
        }
        assert(encoded@ =~= encoded_plaintext(plaintext@, modulus_p as int, modulus_q as int));
    }
    encoded
}

/// Encrypts `plaintext` under `secret_key` with the mask and the error
/// given.
///
/// The ciphertext holds the `k` polynomials of the mask, then the body
/// `mask * secret_key + encoded plaintext + error`. The plaintext, the
/// error and each polynomial of the key and of the mask must have `N`
/// coefficients, and key and mask `k` polynomials each; a plaintext with a
/// symbol outside `(-modulus_p/2, modulus_p/2)` is refused.
#[allow(non_snake_case)]
pub fn encrypt_glwe_with_randomness(
    plaintext: &Vec<i64>,
    modulus_p: i64,
    modulus_q: i64,
    N: usize,
    k: usize,
    secret_key: &PolynomialList,
    mask: &Vec<i64>,
    error: &Vec<i64>,
) -> (result: Result<PolynomialList, GlweError>)
    requires
        modulus_q > 0,
    ensures
        !encryption_shapes_agree(
            plaintext@,
            secret_key@,
            secret_key.spec_polynomial_size(),
            mask@,
            error@,
            N as nat,
            k as nat,
        ) <==> result == Err::<PolynomialList, GlweError>(GlweError::DimensionMismatch),
        encryption_shapes_agree(
            plaintext@,
            secret_key@,
            secret_key.spec_polynomial_size(),
            mask@,
            error@,
            N as nat,
            k as nat,
        ) && !plaintext_in_range(plaintext@, modulus_p as int) <==> result == Err::<
            PolynomialList,
            GlweError,
        >(GlweError::OutOfRangePlaintext),
        encryption_shapes_agree(
            plaintext@,
            secret_key@,
            secret_key.spec_polynomial_size(),
            mask@,
            error@,
            N as nat,
            k as nat,
        ) && plaintext_in_range(plaintext@, modulus_p as int) <==> result is Ok,
        result is Ok ==> result->Ok_0.spec_polynomial_size() == N && result->Ok_0@.len() == N * (k
            + 1) && result->Ok_0@ == ciphertext(
            plaintext@,
            secret_key@,
            mask@,
            error@,
            modulus_p as int,
            modulus_q as int,
            N as nat,
        ),
{
    let key_size = secret_key.polynomial_size();
    let key_count = secret_key.polynomial_count();
    if plaintext.len() != N || error.len() != N || key_size.0 != N || key_count != k {
        assert(N > 0 && key_count * N == N * k ==> key_count == k) by (nonlinear_arith);
        return Err(GlweError::DimensionMismatch);
    }
    assert(key_count * N == N * k) by (nonlinear_arith)
        requires
            key_count == k,
    ;
    if mask.len() != secret_key.coefficients().len() {
        return Err(GlweError::DimensionMismatch);
    }
    match validate_plaintext(plaintext, modulus_p, N) {
        Ok(()) => {},
        Err(refusal) => {
            return Err(refusal);
        },
    }
    // a plaintext that holds a symbol in range shows the modulus positive
    assert(symbol_in_range(plaintext[0] as int, modulus_p as int));
    let encoded = encode_plaintext(plaintext, modulus_p, modulus_q);
    let mask_words = convert_Vi64_to_Vu64(mask.clone());
    let encoded_words = convert_Vi64_to_Vu64(encoded);
    let error_words = convert_Vi64_to_Vu64(error.clone());
    assert(mask_words@ =~= words(mask@));
    assert(encoded_words@ =~= words(
        encoded_plaintext(plaintext@, modulus_p as int, modulus_q as int),
    ));
    assert(error_words@ =~= words(error@));
    assert((N * k) % (N as int) == 0) by (nonlinear_arith)
        requires
            N > 0,
    ;
    let mask_list = match PolynomialList::from_container(mask_words, PolynomialSize(N)) {
        Ok(mask_list) => mask_list,
        Err(refusal) => {
            return Err(refusal);
        },
    };
    let inner = match multiply_accumulate(&mask_list, secret_key) {
        Ok(inner) => inner,
        Err(refusal) => {
            return Err(refusal);
        },
    };
    let with_message = match polynomial_add(&inner, &encoded_words) {
        Ok(with_message) => with_message,
        Err(refusal) => {
            return Err(refusal);
        },
    };
    let body = match polynomial_add(&with_message, &error_words) {
        Ok(body) => body,
        Err(refusal) => {
            return Err(refusal);
        },
    };
    let mut cipher_text = mask_list.into_container();
    let mut i: usize = 0;
    while i < N
        invariant
            i <= N,
            body.len() == N,
            cipher_text@ == words(mask@) + body@.take(i as int),
        decreases N - i,
    {
        cipher_text.push(body[i]);
        assert(body@.take(i + 1) =~= body@.take(i as int).push(body[i as int]));
        assert(cipher_text@ =~= words(mask@) + body@.take(i + 1));
        i += 1;
    }
    assert(body@.take(N as int) =~= body@);
    assert(cipher_text.len() == N * (k + 1) && (N * (k + 1)) % (N as int) == 0)
        by (nonlinear_arith)
        requires
            cipher_text.len() == N * k + N,
            N > 0,
    ;
    PolynomialList::from_container(cipher_text, PolynomialSize(N))
}

/// Encrypts `plaintext` under `secret_key`, with a fresh mask and a fresh
/// error.
///
/// The plaintext must have `N` symbols, each in
/// `(-modulus_p/2, modulus_p/2)`, and the key `k` polynomials of `N`
/// coefficients. Every coefficient of the mask is drawn from
/// `[-modulus_q, modulus_q)` and every coefficient of the error from the
/// integers less than half the scaling factor in absolute value, so the
/// ciphertext decrypts to the plaintext. The ciphertext modulus must be at
/// least the plaintext modulus, so that the scaling factor is at least one;
/// it need not be a multiple of it.
#[allow(non_snake_case)]
pub fn encrypt_glwe_with_key(
    plaintext: &Vec<i64>,
    modulus_p: i64,
    modulus_q: i64,
    N: usize,
    k: usize,
    secret_key: &PolynomialList,
) -> (result: Result<PolynomialList, GlweError>)
    requires
        moduli_admit_scaling(modulus_p as int, modulus_q as int),
    ensures
        !key_fits_plaintext(
            plaintext@,
            secret_key@,
            secret_key.spec_polynomial_size(),
            N as nat,
            k as nat,
        ) <==> result == Err::<PolynomialList, GlweError>(GlweError::DimensionMismatch),
        key_fits_plaintext(
            plaintext@,
            secret_key@,
            secret_key.spec_polynomial_size(),
            N as nat,
            k as nat,
        ) && !plaintext_in_range(plaintext@, modulus_p as int) <==> result == Err::<
            PolynomialList,
            GlweError,
        >(GlweError::OutOfRangePlaintext),
        key_fits_plaintext(
            plaintext@,
            secret_key@,
            secret_key.spec_polynomial_size(),
            N as nat,
            k as nat,
        ) && plaintext_in_range(plaintext@, modulus_p as int) <==> result is Ok,
        result is Ok ==> 0 < modulus_p <= modulus_q,
        result is Ok ==> is_encryption_under_key(
            result->Ok_0,
            secret_key@,
            plaintext@,
            modulus_p as int,
            modulus_q as int,
            N as nat,
            k as nat,
        ),
{
    let key_size = secret_key.polynomial_size();
    let key_count = secret_key.polynomial_count();
    if plaintext.len() != N || key_size.0 != N || key_count != k {
        assert(N > 0 && key_count * N == N * k ==> key_count == k) by (nonlinear_arith);
        return Err(GlweError::DimensionMismatch);
    }
    assert(key_count * N == N * k) by (nonlinear_arith)
        requires
            key_count == k,
    ;
    match validate_plaintext(plaintext, modulus_p, N) {
        Ok(()) => {},
        Err(refusal) => {
            return Err(refusal);
        },
    }
    // a plaintext that holds a symbol in range shows the moduli positive
    assert(symbol_in_range(plaintext[0] as int, modulus_p as int));
    proof {
        lemma_moduli_admit_scaling(modulus_p as int, modulus_q as int);
        lemma_scaling_factor_bounds(modulus_p as int, modulus_q as int);
    }
    let mask_length = secret_key.coefficients().len();
    let mut mask: Vec<i64> = Vec::new();
    let mut i: usize = 0;
    while i < mask_length
        invariant
            modulus_q > 0,
            i <= mask_length,
            mask.len() == i,
            forall|j: int| 0 <= j < i ==> -modulus_q <= #[trigger] mask[j] < modulus_q,
        decreases mask_length - i,
    {
        mask.push(uniform_signed(-modulus_q, modulus_q - 1));
        i += 1;
    }
    let delta = modulus_q / modulus_p;
    let bound = (delta - 1) / 2;
    let mut error: Vec<i64> = Vec::new();
    let mut i: usize = 0;
    while i < N
        invariant
            delta >= 1,
            bound == (delta - 1) / 2,
            i <= N,
            error.len() == i,
            forall|j: int| 0 <= j < i ==> -delta < 2 * (#[trigger] error[j]) < delta,
        decreases N - i,
    {
        error.push(uniform_signed(-bound, bound));
        i += 1;
    }
    let cipher_text = match encrypt_glwe_with_randomness(
        plaintext,
        modulus_p,
        modulus_q,
        N,
        k,
        secret_key,
        &mask,
        &error,
    ) {
        Ok(cipher_text) => cipher_text,
        Err(refusal) => {
            return Err(refusal);
        },
    };
    proof {
        lemma_decryption_inverts_encryption(
            plaintext@,
            secret_key@,
            mask@,
            error@,
            modulus_p,
            modulus_q,
            N as nat,
            k as nat,
        );
        assert(encrypts_with(
            cipher_text@,
            plaintext@,
            secret_key@,
            mask@,
            error@,
            modulus_p as int,
            modulus_q as int,
            N as nat,
            k as nat,
        ));
        assert(is_encryption_under_key(
            cipher_text,
            secret_key@,
            plaintext@,
            modulus_p as int,
            modulus_q as int,
            N as nat,
            k as nat,
        ));
    }
    Ok(cipher_text)
}

/// Encrypts `plaintext` under a fresh secret key, with a fresh mask and a
/// fresh error, and returns the ciphertext together with the key.
///
/// The plaintext must have `N` symbols, each in
/// `(-modulus_p/2, modulus_p/2)`. A key that is too sparse is not used: the
/// encryption fails with [`GlweError::DegenerateKey`], and the caller may
/// try again. The scaling factor must be at least one, and a ciphertext of
/// `k + 1` polynomials of `N` words must be within what a vector can hold.
#[allow(non_snake_case)]
pub fn encrypt_glwe(plaintext: Vec<i64>, modulus_p: i64, modulus_q: i64, N: usize, k: usize) -> (result:
    Result<(PolynomialList, PolynomialList), GlweError>)
    requires
        moduli_admit_scaling(modulus_p as int, modulus_q as int),
        N > 0,
        k > 0,
        within_machine_limits(N as int, k as int),
    ensures
        plaintext.len() != N <==> result == Err::<(PolynomialList, PolynomialList), GlweError>(
            GlweError::DimensionMismatch,
        ),
        plaintext.len() == N && !plaintext_in_range(plaintext@, modulus_p as int) <==> result
            == Err::<(PolynomialList, PolynomialList), GlweError>(GlweError::OutOfRangePlaintext),
        plaintext.len() == N && plaintext_in_range(plaintext@, modulus_p as int) ==> result is Ok
            || result == Err::<(PolynomialList, PolynomialList), GlweError>(
            GlweError::DegenerateKey,
        ),
        result is Ok ==> 0 < modulus_p <= modulus_q,
        result is Ok ==> is_fresh_encryption(
            result->Ok_0.0,
            result->Ok_0.1,
            plaintext@,
            modulus_p as int,
            modulus_q as int,
            N as nat,
            k as nat,
        ),
{
    match validate_plaintext(&plaintext, modulus_p, N) {
        Ok(()) => {},
        Err(refusal) => {
            return Err(refusal);
        },
    }
    assert(N * k * 8 <= isize::MAX && k + 1 <= isize::MAX) by (nonlinear_arith)
        requires
            N * (k + 1) * 8 <= isize::MAX,
            N > 0,
            k > 0,
    ;
    let secret_key = match generate_glwe_secret_key(PolynomialSize(N), GlweSize(k + 1)) {
        Ok(secret_key) => secret_key,
        Err(refusal) => {
            return Err(refusal);
        },
    };
    let cipher_text = match encrypt_glwe_with_key(
        &plaintext,
        modulus_p,
        modulus_q,
        N,
        k,
        &secret_key,
    ) {
        Ok(cipher_text) => cipher_text,
        Err(refusal) => {
            return Err(refusal);
        },
    };
    Ok((cipher_text, secret_key))
}

} // verus!
