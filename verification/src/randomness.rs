//! The two sources of randomness that the scheme draws from.
//!
//! Of the two functions that hand a request on to an outside generator
//! nothing is proved: each states only what holds of every value that can
//! come back.

use vstd::prelude::*;
use rand::Rng;
use tfhe::core_crypto::algorithms::allocate_and_generate_new_binary_glwe_secret_key;
use tfhe::core_crypto::commons::generators::SecretRandomGenerator;
use tfhe::core_crypto::commons::math::random::DefaultRandomGenerator;
use tfhe::core_crypto::commons::parameters::{GlweDimension, PolynomialSize};
use tfhe::core_crypto::seeders::new_seeder;

verus! {

/// Draws an integer from `[low, high]` with `Rng::gen_range` on the
/// generator that `rand::thread_rng` hands out.
///
/// Trusted: the sample lies in the range. The outside function refuses an
/// empty range.
#[verifier::external_body]
pub(crate) fn uniform_in_range(low: u64, high: u64) -> (sample: u64)
    requires
        low <= high,
    ensures
        low <= sample <= high,
{
    rand::thread_rng().gen_range(low..=high)
}

/// Draws a signed integer from `[low, high]`: an offset drawn from
/// `[0, high - low]`, added to `low`.
pub(crate) fn uniform_signed(low: i64, high: i64) -> (sample: i64)
    requires
        low <= high,
    ensures
        low <= sample <= high,
{
    let width: u64 = (high as i128 - low as i128) as u64;
    let offset: u64 = uniform_in_range(0, width);
    (low as i128 + offset as i128) as i64
}

/// Draws the coefficients of `polynomial_count` polynomials of
/// `polynomial_size` coefficients each with `tfhe`'s
/// `allocate_and_generate_new_binary_glwe_secret_key`, on a generator that
/// `new_seeder` seeds.
///
/// Trusted: the result has one coefficient for each coefficient of each
/// polynomial, and every coefficient is `0` or `1`. The outside functions
/// refuse a key without coefficients, and they give up on a machine that
/// offers no source of seeds.
#[verifier::external_body]
pub(crate) fn uniform_binary_coefficients(polynomial_count: usize, polynomial_size: usize) -> (coefficients: Vec<u64>)
    requires
        polynomial_count > 0,
        polynomial_size > 0,
        polynomial_count * polynomial_size * 8 <= isize::MAX,
    ensures
        coefficients.len() == polynomial_count * polynomial_size,
        forall|i: int| 0 <= i < coefficients.len() ==> coefficients[i] <= 1,
{
    let mut seeder = new_seeder();
    let mut generator = SecretRandomGenerator::<DefaultRandomGenerator>::new(seeder.as_mut().seed());
    allocate_and_generate_new_binary_glwe_secret_key::<u64, DefaultRandomGenerator>(
        GlweDimension(polynomial_count),
        PolynomialSize(polynomial_size),
        &mut generator,
    ).into_container()
}

} // verus!
