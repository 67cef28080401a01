//! Decryption: the inner product of the mask with the secret key is taken
//! off the body, and what is left is rounded to the nearest symbol.

use vstd::prelude::*;
use crate::codec::{convert_Vu64_to_Vi64, div_by_delta, reduce_centered, signed_value};
use crate::error::GlweError;
use crate::model::{decoded_symbol, decrypted};
use crate::parameters::scaling_factor;
use crate::ring::{multiply_accumulate, polynomial_subtract, PolynomialList};

verus! {

/// The operands of a decryption have the shapes that the parameters ask
/// for: `k + 1` polynomials of `n` coefficients in the ciphertext and `k`
/// in the key.
pub open spec fn decryption_shapes_agree(
    ciphertext: Seq<u64>,
    ciphertext_polynomial_size: nat,
    secret_key: Seq<u64>,
    key_polynomial_size: nat,
    n: nat,
    k: nat,
) -> bool {
    &&& ciphertext_polynomial_size == n
    &&& key_polynomial_size == n
    &&& ciphertext.len() == n * (k + 1)
    &&& secret_key.len() == n * k
}

/// Copies the elements of `source` from position `start` up to `end`.
fn copy_range(source: &Vec<u64>, start: usize, end: usize) -> (copy: Vec<u64>)
    requires
        start <= end <= source.len(),
    ensures
        copy@ == source@.subrange(start as int, end as int),
{
    let mut copy: Vec<u64> = Vec::new();
    let mut i: usize = start;
    while i < end
        invariant
            start <= i <= end <= source.len(),
            copy@ == source@.subrange(start as int, i as int),
        decreases end - i,
    {
        copy.push(source[i]);
        assert(copy@ =~= source@.subrange(start as int, i + 1));
        i += 1;
    }
    copy
}

/// Decrypts a ciphertext of `k + 1` polynomials of `N` coefficients under a
/// secret key of `k` such polynomials.
///
/// Each coefficient of the body, less the inner product of the mask with
/// the key, is read as a signed residue modulo `modulus_q`, divided by the
/// scaling factor `modulus_q / modulus_p` and rounded to the nearest
/// integer, halves away from zero. A ciphertext or a key of another shape
/// is refused. Whether the ciphertext was made with this key and with an
/// error small enough to decode is not checked: where it was not, the
/// result is some other plaintext.
#[allow(non_snake_case)]
pub fn decrypt_glwe(
    cipher_text_poly: PolynomialList,
    glwe_poly_list: PolynomialList,
    modulus_p: i64,
    modulus_q: i64,
    N: usize,
    k: usize,
) -> (result: Result<Vec<i64>, GlweError>)
    requires
        modulus_p > 0,
        modulus_q > 0,
    ensures
        !decryption_shapes_agree(
            cipher_text_poly@,
            cipher_text_poly.spec_polynomial_size(),
            glwe_poly_list@,
            glwe_poly_list.spec_polynomial_size(),
            N as nat,
            k as nat,
        ) <==> result == Err::<Vec<i64>, GlweError>(GlweError::DimensionMismatch),
        decryption_shapes_agree(
            cipher_text_poly@,
            cipher_text_poly.spec_polynomial_size(),
            glwe_poly_list@,
            glwe_poly_list.spec_polynomial_size(),
            N as nat,
            k as nat,
        ) <==> result is Ok,
        result is Ok ==> result->Ok_0@ == decrypted(
            cipher_text_poly@,
            glwe_poly_list@,
            modulus_p as int,
            modulus_q as int,
            N as nat,
            k as nat,
        ),
{
    let cipher_size = cipher_text_poly.polynomial_size();
    let cipher_count = cipher_text_poly.polynomial_count();
    let key_size = glwe_poly_list.polynomial_size();
    let key_count = glwe_poly_list.polynomial_count();
    if cipher_size.0 != N || key_size.0 != N || key_count != k || cipher_count == 0
        || cipher_count - 1 != k {
        assert(N > 0 && cipher_count * N == N * (k + 1) ==> cipher_count == k + 1)
            by (nonlinear_arith);
        assert(N > 0 && key_count * N == N * k ==> key_count == k) by (nonlinear_arith);
        return Err(GlweError::DimensionMismatch);
    }
    assert(cipher_count * N == N * (k + 1) && key_count * N == N * k && N * (k + 1) == N * k + N)
        by (nonlinear_arith)
        requires
            cipher_count == k + 1,
            key_count == k,
    ;
    let cipher_text = cipher_text_poly.coefficients();
    assert(cipher_text.len() == N * k + N);
    assert((N * k) % (N as int) == 0) by (nonlinear_arith)
        requires
            N > 0,
    ;
    let mask = match PolynomialList::from_container(
        copy_range(cipher_text, 0, N * k),
        cipher_size,
    ) {
        Ok(mask) => mask,
        Err(refusal) => {
            return Err(refusal);
        },
    };
    let body = copy_range(cipher_text, N * k, N * k + N);
    let inner = match multiply_accumulate(&mask, &glwe_poly_list) {
        Ok(inner) => inner,
        Err(refusal) => {
            return Err(refusal);
        },
    };
    let body = match polynomial_subtract(&body, &inner) {
        Ok(body) => body,
        Err(refusal) => {
            return Err(refusal);
        },
    };
    let ghost noisy = body@;
    let result_unmod = convert_Vu64_to_Vi64(body);
    let delta = modulus_q / modulus_p;
    let mut mod_result: Vec<i64> = Vec::new();
    let mut i: usize = 0;
    while i < N
        invariant
            i <= N,
            result_unmod.len() == N,
            noisy.len() == N,
            mod_result.len() == i,
            modulus_q > 0,
            delta == scaling_factor(modulus_p as int, modulus_q as int),
            forall|j: int|
                0 <= j < N ==> #[trigger] result_unmod[j] == signed_value(noisy[j] as int),
            forall|j: int|
                0 <= j < i ==> #[trigger] mod_result[j] == decoded_symbol(
                    noisy[j],
                    modulus_p as int,
                    modulus_q as int,
                ),
        decreases N - i,
    {
        let residue = reduce_centered(result_unmod[i] as i128, modulus_q);
        mod_result.push(div_by_delta(residue, delta));
        i += 1;
    }
    assert(mod_result@ =~= decrypted(
        cipher_text_poly@,
        glwe_poly_list@,
        modulus_p as int,
        modulus_q as int,
        N as nat,
        k as nat,
    ));
    Ok(mod_result)
}

} // verus!
