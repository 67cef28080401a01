//! Conversions between machine words and signed residues, reduction modulo
//! the ciphertext modulus, and the rounding division that decodes a noisy
//! coefficient.

use vstd::prelude::*;
use vstd::math::abs;
use crate::error::GlweError;

verus! {

/// The number of values that a 64-bit word can take, `2^64`.
pub open spec fn word_modulus() -> int {
    0x1_0000_0000_0000_0000
}

/// The word that stands for the integer `x`: its residue in `[0, 2^64)`.
pub open spec fn unsigned_word(x: int) -> int {
    x % word_modulus()
}

/// The signed value that the word `w` stands for: the residue of `w` modulo
/// `2^64` that lies in `[-2^63, 2^63)`.
pub open spec fn signed_value(w: int) -> int {
    let r = w % word_modulus();
    if r < 0x8000_0000_0000_0000 {
        r
    } else {
        r - word_modulus()
    }
}

/// The representative of `x` modulo `modulus` that lies in
/// `(-modulus/2, modulus/2]`.
pub open spec fn centered_residue(x: int, modulus: int) -> int
    recommends
        modulus > 0,
{
    let r = x % modulus;
    if 2 * r <= modulus {
        r
    } else {
        r - modulus
    }
}

/// The integer nearest to the quotient `value / delta`; when the quotient
/// lies exactly between two integers, the one farther from zero.
pub open spec fn round_div(value: int, delta: int) -> int
    recommends
        delta != 0,
{
    let a = if value < 0 {
        -value
    } else {
        value
    };
    let d = if delta < 0 {
        -delta
    } else {
        delta
    };
    let magnitude = (2 * a + d) / (2 * d);
    if (value < 0) != (delta < 0) {
        -magnitude
    } else {
        magnitude
    }
}

/// `x` brought into the range of `i64`.
pub open spec fn saturated(x: int) -> int {
    if x > i64::MAX {
        i64::MAX as int
    } else if x < i64::MIN {
        i64::MIN as int
    } else {
        x
    }
}

/// What [`div_by_delta`] returns: the rounded quotient, brought into the
/// range of `i64`; for a zero divisor, the limit of the quotient.
pub open spec fn div_by_delta_spec(input: int, delta: int) -> int {
    if delta != 0 {
        saturated(round_div(input, delta))
    } else if input > 0 {
        i64::MAX as int
    } else if input < 0 {
        i64::MIN as int
    } else {
        0
    }
}

/// The rounded quotient is within half a divisor of the true quotient, and
/// where it is exactly half a divisor away it is the candidate farther from
/// zero.
pub proof fn lemma_round_div_is_nearest(value: int, delta: int)
    requires
        delta != 0,
    ensures
        2 * abs(value - round_div(value, delta) * delta) <= abs(delta),
        2 * abs(value - round_div(value, delta) * delta) == abs(delta) ==> abs(
            round_div(value, delta) * delta,
        ) > abs(value),
{
    let a = abs(value) as int;
    let d = abs(delta) as int;
    let q = (2 * a + d) / (2 * d);
    let r = (2 * a + d) % (2 * d);
    vstd::arithmetic::div_mod::lemma_fundamental_div_mod(2 * a + d, 2 * d);
    assert(2 * a + d == (2 * d) * q + r);
    assert(0 <= r < 2 * d) by {
        vstd::arithmetic::div_mod::lemma_mod_bound(2 * a + d, 2 * d);
    }
    assert((2 * d) * q == 2 * (q * d)) by (nonlinear_arith);
    // a - q * d lies in [-d/2, d/2), so q * d is the multiple nearest to a
    assert(2 * (a - q * d) == r - d);
    assert(q >= 0) by (nonlinear_arith)
        requires
            2 * (q * d) + r == 2 * a + d,
            r < 2 * d,
            a >= 0,
            d > 0,
    ;
    let rounded = round_div(value, delta);
    assert(rounded * delta == if value < 0 {
        -(q * d)
    } else {
        q * d
    }) by (nonlinear_arith)
        requires
            d == if delta < 0 {
                -delta
            } else {
                delta
            },
            rounded == if (value < 0) != (delta < 0) {
                -q
            } else {
                q
            },
    ;
    assert(q * d >= 0) by (nonlinear_arith)
        requires
            q >= 0,
            d > 0,
    ;
}

/// An integer that is less than half a divisor away from the true quotient
/// is the rounded quotient.
pub proof fn lemma_round_div_unique(value: int, delta: int, candidate: int)
    requires
        delta != 0,
        2 * abs(value - candidate * delta) < abs(delta),
    ensures
        round_div(value, delta) == candidate,
{
    let rounded = round_div(value, delta);
    lemma_round_div_is_nearest(value, delta);
    // two multiples of delta that are both within half of delta of value
    // are less than delta apart
    assert((rounded - candidate) * delta == (value - candidate * delta) - (value - rounded
        * delta)) by (nonlinear_arith);
    assert(abs((rounded - candidate) * delta) < abs(delta));
    assert(rounded - candidate == 0) by (nonlinear_arith)
        requires
            delta != 0,
            -delta < (rounded - candidate) * delta < delta || delta < (rounded - candidate)
                * delta < -delta,
    ;
}

/// Decoding undoes scaling: a symbol scaled by `delta` and disturbed by less
/// than half of `delta` is recovered by the rounding division.
pub proof fn lemma_round_div_recovers_symbol(symbol: int, noise: int, delta: int)
    requires
        delta > 0,
        2 * abs(noise) < delta,
    ensures
        round_div(symbol * delta + noise, delta) == symbol,
{
    lemma_round_div_unique(symbol * delta + noise, delta, symbol);
}

/// The centered residue is congruent to its argument and lies in
/// `(-modulus/2, modulus/2]`.
pub proof fn lemma_centered_residue(x: int, modulus: int)
    requires
        modulus > 0,
    ensures
        centered_residue(x, modulus) % modulus == x % modulus,
        -modulus < 2 * centered_residue(x, modulus) <= modulus,
{
    let r = x % modulus;
    vstd::arithmetic::div_mod::lemma_mod_bound(x, modulus);
    if 2 * r <= modulus {
        vstd::arithmetic::div_mod::lemma_small_mod(r as nat, modulus as nat);
    } else {
        vstd::arithmetic::div_mod::lemma_mod_sub_multiples_vanish(r, modulus);
        vstd::arithmetic::div_mod::lemma_small_mod(r as nat, modulus as nat);
    }
}

/// A value that already lies in `(-modulus/2, modulus/2]` is its own
/// centered residue.
pub proof fn lemma_centered_residue_of_centered(x: int, modulus: int)
    requires
        modulus > 0,
        -modulus < 2 * x <= modulus,
    ensures
        centered_residue(x, modulus) == x,
{
    if x >= 0 {
        vstd::arithmetic::div_mod::lemma_small_mod(x as nat, modulus as nat);
    } else {
        vstd::arithmetic::div_mod::lemma_small_mod((x + modulus) as nat, modulus as nat);
        vstd::arithmetic::div_mod::lemma_mod_add_multiples_vanish(x, modulus);
    }
}

/// A value in `[-2^63, 2^63)` is the signed value of the word that stands
/// for it.
pub proof fn lemma_signed_value_of_word(value: int)
    requires
        -0x8000_0000_0000_0000 <= value < 0x8000_0000_0000_0000,
    ensures
        0 <= unsigned_word(value) < word_modulus(),
        signed_value(unsigned_word(value)) == value,
{
    let w = word_modulus();
    if value >= 0 {
        vstd::arithmetic::div_mod::lemma_small_mod(value as nat, w as nat);
    } else {
        vstd::arithmetic::div_mod::lemma_small_mod((value + w) as nat, w as nat);
        vstd::arithmetic::div_mod::lemma_mod_add_multiples_vanish(value, w);
    }
    vstd::arithmetic::div_mod::lemma_mod_twice(value, w);
}

/// Reinterprets a signed value as the word with the same bits.
fn word_of(value: i64) -> (word: u64)
    ensures
        word == unsigned_word(value as int),
{
    assert(value as u64 == if value >= 0 {
        value as int
    } else {
        value + 0x1_0000_0000_0000_0000
    }) by (bit_vector);
    value as u64
}

/// Reinterprets a word as the signed value with the same bits.
fn value_of(word: u64) -> (value: i64)
    ensures
        value == signed_value(word as int),
{
    assert(word as i64 == if word < 0x8000_0000_0000_0000u64 {
        word as int
    } else {
        word - 0x1_0000_0000_0000_0000
    }) by (bit_vector);
    word as i64
}

/// Reads a coefficient as a signed residue modulo `modulus`, centered at
/// zero: the representative in `(-modulus/2, modulus/2]` of the signed
/// value of the word.
pub fn to_signed(coefficient: u64, modulus: i64) -> (residue: i64)
    requires
        modulus > 0,
    ensures
        residue == centered_residue(signed_value(coefficient as int), modulus as int),
{
    reduce_centered(value_of(coefficient) as i128, modulus)
}

/// Stores a signed integer as a coefficient: the word that stands for its
/// centered residue modulo `modulus`.
pub fn to_unsigned(value: i64, modulus: i64) -> (coefficient: u64)
    requires
        modulus > 0,
    ensures
        coefficient == unsigned_word(centered_residue(value as int, modulus as int)),
{
    word_of(reduce_centered(value as i128, modulus))
}

/// A coefficient that was stored modulo `modulus` reads back as the
/// centered residue of what was stored.
pub proof fn lemma_to_signed_inverts_to_unsigned(value: int, modulus: int)
    requires
        0 < modulus <= i64::MAX,
    ensures
        centered_residue(
            signed_value(unsigned_word(centered_residue(value, modulus))),
            modulus,
        ) == centered_residue(value, modulus),
{
    let residue = centered_residue(value, modulus);
    lemma_centered_residue(value, modulus);
    lemma_signed_value_of_word(residue);
    lemma_centered_residue_of_centered(residue, modulus);
}

/// Converts a vector of signed values to the vector of the words that stand
/// for them.
#[allow(non_snake_case)]
pub fn convert_Vi64_to_Vu64(input_vec: Vec<i64>) -> (words: Vec<u64>)
    ensures
        words.len() == input_vec.len(),
        forall|i: int|
            0 <= i < input_vec.len() ==> words[i] == unsigned_word(#[trigger] input_vec[i] as int),
{
    let mut words: Vec<u64> = Vec::new();
    let mut i: usize = 0;
    while i < input_vec.len()
        invariant
            i <= input_vec.len(),
            words.len() == i,
            forall|j: int|
                0 <= j < i ==> words[j] == unsigned_word(#[trigger] input_vec[j] as int),
        decreases input_vec.len() - i,
    {
        words.push(word_of(input_vec[i]));
        i += 1;
    }
    words
}

/// Converts a vector of words to the vector of the signed values that they
/// stand for.
#[allow(non_snake_case)]
pub fn convert_Vu64_to_Vi64(input_vec: Vec<u64>) -> (values: Vec<i64>)
    ensures
        values.len() == input_vec.len(),
        forall|i: int|
            0 <= i < input_vec.len() ==> values[i] == signed_value(#[trigger] input_vec[i] as int),
{
    let mut values: Vec<i64> = Vec::new();
    let mut i: usize = 0;
    while i < input_vec.len()
        invariant
            i <= input_vec.len(),
            values.len() == i,
            forall|j: int|
                0 <= j < i ==> values[j] == signed_value(#[trigger] input_vec[j] as int),
        decreases input_vec.len() - i,
    {
        values.push(value_of(input_vec[i]));
        i += 1;
    }
    values
}

/// Divides `input` by `delta` and rounds to the nearest integer, halves
/// away from zero. A quotient outside the range of `i64` is brought to the
/// nearest limit, and a division by zero gives the limit on the side of
/// `input`, or zero for zero.
pub fn div_by_delta(input: i64, delta: i64) -> (quotient: i64)
    ensures
        quotient == div_by_delta_spec(input as int, delta as int),
{
    if delta == 0 {
        return if input > 0 {
            i64::MAX
        } else if input < 0 {
            i64::MIN
        } else {
            0
        };
    }
    let a: u128 = if input < 0 {
        (-(input as i128)) as u128
    } else {
        input as u128
    };
    let d: u128 = if delta < 0 {
        (-(delta as i128)) as u128
    } else {
        delta as u128
    };
    let magnitude: u128 = (2 * a + d) / (2 * d);
    assert(magnitude <= a) by (nonlinear_arith)
        requires
            magnitude == (2 * a + d) / (2 * d),
            d >= 1,
    ;
    if (input < 0) != (delta < 0) {
        (-(magnitude as i128)) as i64
    } else if magnitude > i64::MAX as u128 {
        i64::MAX
    } else {
        magnitude as i64
    }
}

/// Reduces `x` modulo `modulus` to its residue in `[0, modulus)`.
fn reduce_residue(x: i128, modulus: i64) -> (r: i64)
    requires
        modulus > 0,
    ensures
        r == (x as int) % (modulus as int),
        0 <= r < modulus,
{
    let m: i128 = modulus as i128;
    let t: i128 = x % m;
    let r: i128 = if t < 0 {
        t + m
    } else {
        t
    };
    proof {
        // the truncated remainder, lifted into [0, m), is the remainder
        if x < 0 {
            let k = (-x) / (m as int);
            vstd::arithmetic::div_mod::lemma_fundamental_div_mod(-x, m as int);
            vstd::arithmetic::div_mod::lemma_mod_bound(-x, m as int);
            if t < 0 {
                assert(x == m * (-k - 1) + r) by (nonlinear_arith)
                    requires
                        -x == m * k + (-t),
                        r == t + m,
                ;
                vstd::arithmetic::div_mod::lemma_fundamental_div_mod_converse(
                    x as int,
                    m as int,
                    -k - 1,
                    r as int,
                );
            } else {
                assert(x == m * (-k) + r) by (nonlinear_arith)
                    requires
                        -x == m * k + (-t),
                        r == t,
                ;
                vstd::arithmetic::div_mod::lemma_fundamental_div_mod_converse(
                    x as int,
                    m as int,
                    -k,
                    r as int,
                );
            }
        }
        assert(r == (x as int) % (m as int));
    }
    r as i64
}

/// Reduces `x` modulo `modulus` to its centered residue.
pub(crate) fn reduce_centered(x: i128, modulus: i64) -> (r: i64)
    requires
        modulus > 0,
    ensures
        r == centered_residue(x as int, modulus as int),
{
    let r = reduce_residue(x, modulus);
    if r <= modulus - r {
        r
    } else {
        r - modulus
    }
}

/// Reduces each element of `input` modulo `modulus` to its residue in
/// `[0, modulus)`.
pub fn modular_red_vec(input: Vec<i64>, modulus: i64) -> (reduced: Vec<i64>)
    requires
        modulus > 0,
    ensures
        reduced.len() == input.len(),
        forall|i: int|
            0 <= i < input.len() ==> reduced[i] == (#[trigger] input[i] as int) % (modulus as int),
        forall|i: int| 0 <= i < input.len() ==> 0 <= #[trigger] reduced[i] < modulus,
{
    let mut reduced: Vec<i64> = Vec::new();
    let mut i: usize = 0;
    while i < input.len()
        invariant
            modulus > 0,
            i <= input.len(),
            reduced.len() == i,
            forall|j: int|
                0 <= j < i ==> reduced[j] == (#[trigger] input[j] as int) % (modulus as int),
            forall|j: int| 0 <= j < i ==> 0 <= #[trigger] reduced[j] < modulus,
        decreases input.len() - i,
    {
        reduced.push(reduce_residue(input[i] as i128, modulus));
        i += 1;
    }
    reduced
}

/// Adds two vectors element by element and reduces each sum modulo
/// `modulus` to its residue in `[0, modulus)`. The sums are exact: they do
/// not wrap around before they are reduced. Vectors of different lengths
/// are refused.
pub fn add_vecs_with_mod_red(input_1: Vec<i64>, input_2: Vec<i64>, modulus: i64) -> (result:
    Result<Vec<i64>, GlweError>)
    requires
        modulus > 0,
    ensures
        input_1.len() != input_2.len() <==> result == Err::<Vec<i64>, GlweError>(
            GlweError::DimensionMismatch,
        ),
        input_1.len() == input_2.len() ==> result is Ok && result->Ok_0.len() == input_1.len(),
        result is Ok ==> forall|i: int|
            0 <= i < input_1.len() ==> #[trigger] result->Ok_0[i] == (input_1[i] + input_2[i]) % (
            modulus as int),
        result is Ok ==> forall|i: int|
            0 <= i < input_1.len() ==> 0 <= #[trigger] result->Ok_0[i] < modulus,
{
    if input_1.len() != input_2.len() {
        return Err(GlweError::DimensionMismatch);
    }
    let mut sums: Vec<i64> = Vec::new();
    let mut i: usize = 0;
    while i < input_1.len()
        invariant
            modulus > 0,
            input_1.len() == input_2.len(),
            i <= input_1.len(),
            sums.len() == i,
            forall|j: int|
                0 <= j < i ==> #[trigger] sums[j] == (input_1[j] + input_2[j]) % (modulus as int),
            forall|j: int| 0 <= j < i ==> 0 <= #[trigger] sums[j] < modulus,
        decreases input_1.len() - i,
    {
        sums.push(reduce_residue(input_1[i] as i128 + input_2[i] as i128, modulus));
        i += 1;
    }
    Ok(sums)
}

/// Tells whether two vectors hold the same elements in the same order.
pub fn assert_vector_eq(input_1: Vec<i64>, input_2: Vec<i64>) -> (equal: bool)
    ensures
        equal <==> input_1@ == input_2@,
{
    if input_1.len() != input_2.len() {
        return false;
    }
    let mut i: usize = 0;
    while i < input_1.len()
        invariant
            input_1.len() == input_2.len(),
            i <= input_1.len(),
            forall|j: int| 0 <= j < i ==> input_1[j] == input_2[j],
        decreases input_1.len() - i,
    {
        if input_1[i] != input_2[i] {
            return false;
        }
        i += 1;
    }
    assert(input_1@ =~= input_2@);
    true
}

} // verus!
