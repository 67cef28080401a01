//! Secret keys: binary polynomials, their Hamming weight, and the check
//! that keeps a key that is too sparse out of use.

use vstd::prelude::*;
use crate::error::GlweError;
use crate::randomness::{uniform_binary_coefficients, uniform_in_range};
use crate::ring::{polynomial_at, GlweSize, PolynomialList, PolynomialSize};

verus! {

/// Every coefficient is `0` or `1`.
pub open spec fn is_binary(coefficients: Seq<u64>) -> bool {
    forall|i: int| 0 <= i < coefficients.len() ==> coefficients[i] <= 1
}

/// The number of coefficients that equal `1`.
pub open spec fn count_ones(coefficients: Seq<u64>) -> nat
    decreases coefficients.len(),
{
    if coefficients.len() == 0 {
        0
    } else {
        count_ones(coefficients.drop_last()) + if coefficients.last() == 1 {
            1nat
        } else {
            0nat
        }
    }
}

/// Every polynomial of the key has exactly one coefficient `1` and is zero
/// elsewhere.
pub open spec fn is_unit_weight_key(key: Seq<u64>, polynomial_size: nat, polynomial_count: nat) -> bool {
    &&& key.len() == polynomial_size * polynomial_count
    &&& is_binary(key)
    &&& forall|j: int|
        0 <= j < polynomial_count ==> count_ones(#[trigger] polynomial_at(key, polynomial_size, j))
            == 1
}

/// A sequence of zeros has weight zero.
proof fn lemma_count_ones_of_zeros(coefficients: Seq<u64>)
    requires
        forall|i: int| 0 <= i < coefficients.len() ==> coefficients[i] == 0,
    ensures
        count_ones(coefficients) == 0,
    decreases coefficients.len(),
{
    if coefficients.len() > 0 {
        lemma_count_ones_of_zeros(coefficients.drop_last());
    }
}

/// Writing a `1` over a `0` raises the weight by one.
proof fn lemma_count_ones_after_set(coefficients: Seq<u64>, position: int)
    requires
        0 <= position < coefficients.len(),
        coefficients[position] == 0,
    ensures
        count_ones(coefficients.update(position, 1)) == count_ones(coefficients) + 1,
    decreases coefficients.len(),
{
    let updated = coefficients.update(position, 1);
    if position == coefficients.len() - 1 {
        assert(updated.drop_last() =~= coefficients.drop_last());
    } else {
        lemma_count_ones_after_set(coefficients.drop_last(), position);
        assert(updated.drop_last() =~= coefficients.drop_last().update(position, 1));
    }
}

/// Counts the coefficients that equal `1`. A coefficient above `1` makes
/// the vector no binary vector, and the count is refused.
pub fn hamming_weight(input_1: Vec<u64>) -> (result: Result<usize, GlweError>)
    ensures
        is_binary(input_1@) ==> result is Ok && result->Ok_0 == count_ones(input_1@),
        !is_binary(input_1@) ==> result == Err::<usize, GlweError>(GlweError::NotBinary),
{
    let mut weight: usize = 0;
    let mut i: usize = 0;
    while i < input_1.len()
        invariant
            i <= input_1.len(),
            is_binary(input_1@.take(i as int)),
            weight == count_ones(input_1@.take(i as int)),
            weight <= i,
        decreases input_1.len() - i,
    {
        if input_1[i] == 1 {
            weight += 1;
        } else if input_1[i] > 1 {
            return Err(GlweError::NotBinary);
        }
        assert(input_1@.take(i + 1).drop_last() =~= input_1@.take(i as int));
        i += 1;
    }
    assert(input_1@.take(input_1.len() as int) =~= input_1@);
    Ok(weight)
}

/// Makes a key of `k` polynomials of `N` coefficients in which every
/// polynomial has a single coefficient `1`, at a position drawn at random.
#[allow(non_snake_case)]
pub fn toy_binary_randomness(N: usize, k: usize) -> (key: Vec<u64>)
    requires
        N > 0,
        N * k <= usize::MAX,
    ensures
        is_unit_weight_key(key@, N as nat, k as nat),
        count_ones(key@) == k,
{
    let mut secret_key: Vec<u64> = vec![0u64; N * k];
    proof {
        lemma_count_ones_of_zeros(secret_key@);
    }
    let mut i: usize = 0;
    while i < k
        invariant
            N > 0,
            N * k <= usize::MAX,
            i <= k,
            secret_key.len() == N * k,
            is_binary(secret_key@),
            count_ones(secret_key@) == i,
            forall|j: int|
                0 <= j < i ==> count_ones(#[trigger] polynomial_at(secret_key@, N as nat, j)) == 1,
            forall|t: int| i * N <= t < N * k ==> secret_key[t] == 0,
        decreases k - i,
    {
        assert(i * N + N <= N * k && N <= N * k) by (nonlinear_arith)
            requires
                i < k,
                N > 0,
        ;
        let offset = uniform_in_range(0, (N - 1) as u64) as usize;
        let position = i * N + offset;
        let ghost before = secret_key@;
        let raised = secret_key[position] + 1;
        secret_key.set(position, raised);
        proof {
            lemma_count_ones_after_set(before, position as int);
            let block = polynomial_at(before, N as nat, i as int);
            assert(i * N + N == (i + 1) * N) by (nonlinear_arith);
            lemma_count_ones_of_zeros(block);
            lemma_count_ones_after_set(block, offset as int);
            assert(polynomial_at(secret_key@, N as nat, i as int) =~= block.update(
                offset as int,
                1,
            ));
            assert forall|j: int| 0 <= j < i implies count_ones(
                #[trigger] polynomial_at(secret_key@, N as nat, j),
            ) == 1 by {
                assert(j * N + N <= i * N && j * N + N == (j + 1) * N && j * N >= 0)
                    by (nonlinear_arith)
                    requires
                        0 <= j < i,
                        N > 0,
                ;
                assert(polynomial_at(secret_key@, N as nat, j) =~= polynomial_at(
                    before,
                    N as nat,
                    j,
                ));
            }
        }
        i += 1;
    }
    assert(N as nat * k as nat == N * k) by (nonlinear_arith);
    secret_key
}

/// Accepts a key whose Hamming weight is above `floor`.
pub fn check_key_weight(key: &PolynomialList, floor: usize) -> (result: Result<(), GlweError>)
    ensures
        !is_binary(key@) <==> result == Err::<(), GlweError>(GlweError::NotBinary),
        is_binary(key@) && count_ones(key@) <= floor <==> result == Err::<(), GlweError>(
            GlweError::DegenerateKey,
        ),
        is_binary(key@) && count_ones(key@) > floor <==> result is Ok,
{
    match hamming_weight(key.coefficients().clone()) {
        Ok(weight) => {
            if floor < weight {
                Ok(())
            } else {
                Err(GlweError::DegenerateKey)
            }
        },
        Err(refusal) => Err(refusal),
    }
}

/// Generates a secret key of `glwe_size - 1` polynomials of
/// `polynomial_size` binary coefficients each, drawn uniformly, and accepts
/// it only if it has more ones than a key with a single one in each
/// polynomial.
pub fn generate_glwe_secret_key(polynomial_size: PolynomialSize, glwe_size: GlweSize) -> (result:
    Result<PolynomialList, GlweError>)
    requires
        polynomial_size.0 > 0,
        glwe_size.0 > 1,
        polynomial_size.0 * (glwe_size.0 - 1) * 8 <= isize::MAX,
    ensures
        result is Err ==> result == Err::<PolynomialList, GlweError>(GlweError::DegenerateKey),
        result is Ok ==> {
            let key = result->Ok_0;
            &&& key.spec_polynomial_size() == polynomial_size.0
            &&& key@.len() == polynomial_size.0 * (glwe_size.0 - 1)
            &&& is_binary(key@)
            &&& count_ones(key@) > glwe_size.0 - 1
        },
{
    let polynomial_count = glwe_size.0 - 1;
    assert(polynomial_count * polynomial_size.0 == polynomial_size.0 * polynomial_count
        && (polynomial_size.0 * polynomial_count) % (polynomial_size.0 as int) == 0)
        by (nonlinear_arith)
        requires
            polynomial_size.0 > 0,
    ;
    let coefficients = uniform_binary_coefficients(polynomial_count, polynomial_size.0);
    let key = match PolynomialList::from_container(coefficients, polynomial_size) {
        Ok(key) => key,
        Err(refusal) => {
            return Err(refusal);
        },
    };
    let trial_key = toy_binary_randomness(polynomial_size.0, polynomial_count);
    let floor = match hamming_weight(trial_key) {
        Ok(weight) => weight,
        Err(refusal) => {
            return Err(refusal);
        },
    };
    match check_key_weight(&key, floor) {
        Ok(()) => Ok(key),
        Err(refusal) => Err(refusal),
    }
}

} // verus!
