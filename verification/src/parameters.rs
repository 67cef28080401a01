//! The parameters of the scheme and the conditions under which they make a
//! well-posed instance.

use vstd::prelude::*;
use vstd::arithmetic::power2::is_pow2;

verus! {

/// The parameters are well-posed: both moduli are positive, the plaintext
/// modulus `modulus_p` divides the ciphertext modulus `modulus_q`, the ring
/// degree `n` is a power of two, and the number `k` of mask polynomials is
/// positive and below `n`.
pub open spec fn valid_parameters(modulus_p: int, modulus_q: int, n: int, k: int) -> bool {
    &&& modulus_p > 0
    &&& modulus_q > 0
    &&& modulus_q % modulus_p == 0
    &&& is_pow2(n)
    &&& 0 < k < n
}

/// A ciphertext of `k + 1` polynomials of `n` words each can be allocated.
pub open spec fn within_machine_limits(n: int, k: int) -> bool {
    n * (k + 1) * 8 <= isize::MAX
}

/// The spacing `modulus_q / modulus_p` between two adjacent encoded
/// symbols.
pub open spec fn scaling_factor(modulus_p: int, modulus_q: int) -> int {
    modulus_q / modulus_p
}

/// The ciphertext modulus is at least the plaintext modulus, so that the
/// scaling factor is at least one: stated in the three forms in which a
/// caller may know it, which say the same of a positive plaintext modulus.
pub open spec fn moduli_admit_scaling(modulus_p: int, modulus_q: int) -> bool {
    ||| scaling_factor(modulus_p, modulus_q) >= 1
    ||| 0 < modulus_p <= modulus_q
    ||| (modulus_p > 0 && modulus_q > 0 && modulus_q % modulus_p == 0)
}

/// Over a positive plaintext modulus, moduli that admit scaling have a
/// scaling factor of at least one.
pub proof fn lemma_moduli_admit_scaling(modulus_p: int, modulus_q: int)
    requires
        modulus_p > 0,
        moduli_admit_scaling(modulus_p, modulus_q),
    ensures
        scaling_factor(modulus_p, modulus_q) >= 1,
{
    let delta = modulus_q / modulus_p;
    vstd::arithmetic::div_mod::lemma_fundamental_div_mod(modulus_q, modulus_p);
    vstd::arithmetic::div_mod::lemma_mod_bound(modulus_q, modulus_p);
    if delta < 1 {
        assert(modulus_p * delta <= 0) by (nonlinear_arith)
            requires
                modulus_p > 0,
                delta <= 0,
        ;
    }
}

/// A scaling factor of at least one, over a positive plaintext modulus,
/// means a ciphertext modulus that is at least the plaintext modulus and at
/// least the product of the scaling factor with the plaintext modulus.
pub proof fn lemma_scaling_factor_bounds(modulus_p: int, modulus_q: int)
    requires
        modulus_p > 0,
        scaling_factor(modulus_p, modulus_q) >= 1,
    ensures
        modulus_q >= modulus_p,
        scaling_factor(modulus_p, modulus_q) * modulus_p <= modulus_q,
        scaling_factor(modulus_p, modulus_q) <= modulus_q,
{
    let delta = modulus_q / modulus_p;
    vstd::arithmetic::div_mod::lemma_fundamental_div_mod(modulus_q, modulus_p);
    vstd::arithmetic::div_mod::lemma_mod_bound(modulus_q, modulus_p);
    assert(delta * modulus_p <= modulus_q && delta <= delta * modulus_p && modulus_p <= delta
        * modulus_p) by (nonlinear_arith)
        requires
            modulus_q == modulus_p * delta + modulus_q % modulus_p,
            modulus_q % modulus_p >= 0,
            modulus_p > 0,
            delta >= 1,
    ;
}

/// Tells whether `n` is a power of two.
fn is_power_of_two(n: usize) -> (power: bool)
    ensures
        power == is_pow2(n as int),
{
    if n == 0 {
        reveal(is_pow2);
        return false;
    }
    let mut rest: usize = n;
    while rest % 2 == 0
        invariant
            rest > 0,
            is_pow2(rest as int) == is_pow2(n as int),
        decreases rest,
    {
        reveal(is_pow2);
        rest = rest / 2;
    }
    reveal(is_pow2);
    rest == 1
}

/// Tells whether the parameters are well-posed and a ciphertext under them
/// can be allocated.
#[allow(non_snake_case)]
pub fn parameters_are_valid(modulus_p: i64, modulus_q: i64, N: usize, k: usize) -> (valid: bool)
    ensures
        valid == (valid_parameters(modulus_p as int, modulus_q as int, N as int, k as int)
            && within_machine_limits(N as int, k as int)),
{
    if modulus_p <= 0 || modulus_q <= 0 || modulus_q % modulus_p != 0 {
        return false;
    }
    if !is_power_of_two(N) || k == 0 || k >= N {
        return false;
    }
    match N.checked_mul(k + 1) {
        Some(coefficients) => match coefficients.checked_mul(8) {
            Some(bytes) => bytes <= isize::MAX as usize,
            None => false,
        },
        None => {
            assert(N * (k + 1) * 8 > isize::MAX) by (nonlinear_arith)
                requires
                    N * (k + 1) > usize::MAX,
                    usize::MAX >= isize::MAX,
            ;
            false
        },
    }
}

} // verus!
