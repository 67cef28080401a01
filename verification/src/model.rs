//! The scheme as mathematics: what a ciphertext is, what it decrypts to,
//! and why decryption inverts encryption.

use vstd::prelude::*;
use crate::codec::{
    centered_residue,
    div_by_delta_spec,
    lemma_centered_residue,
    lemma_centered_residue_of_centered,
    lemma_round_div_recovers_symbol,
    lemma_signed_value_of_word,
    signed_value,
    unsigned_word,
    word_modulus,
};
use crate::parameters::{lemma_scaling_factor_bounds, scaling_factor};
use crate::ring::{multisum, wrapping_difference, wrapping_sum};

verus! {

/// The symbol lies in the open interval `(-modulus_p/2, modulus_p/2)`.
pub open spec fn symbol_in_range(symbol: int, modulus_p: int) -> bool {
    -modulus_p < 2 * symbol < modulus_p
}

/// Every symbol of the plaintext lies in `(-modulus_p/2, modulus_p/2)`.
pub open spec fn plaintext_in_range(plaintext: Seq<i64>, modulus_p: int) -> bool {
    forall|i: int|
        0 <= i < plaintext.len() ==> symbol_in_range(#[trigger] plaintext[i] as int, modulus_p)
}

/// The error leaves room for decoding: every coefficient is less than half
/// the scaling factor in absolute value.
pub open spec fn error_in_bounds(error: Seq<i64>, modulus_p: int, modulus_q: int) -> bool {
    forall|i: int|
        0 <= i < error.len() ==> -scaling_factor(modulus_p, modulus_q) < 2 * (
        #[trigger] error[i]) < scaling_factor(modulus_p, modulus_q)
}

/// The symbol scaled by the scaling factor, as a centered residue modulo
/// `modulus_q`.
pub open spec fn encoded_symbol(symbol: int, modulus_p: int, modulus_q: int) -> int {
    centered_residue(symbol * scaling_factor(modulus_p, modulus_q), modulus_q)
}

/// The plaintext with every symbol encoded.
pub open spec fn encoded_plaintext(plaintext: Seq<i64>, modulus_p: int, modulus_q: int) -> Seq<
    i64,
> {
    Seq::new(
        plaintext.len(),
        |i: int| encoded_symbol(plaintext[i] as int, modulus_p, modulus_q) as i64,
    )
}

/// The words that stand for a sequence of signed values.
pub open spec fn words(values: Seq<i64>) -> Seq<u64> {
    Seq::new(values.len(), |i: int| unsigned_word(values[i] as int) as u64)
}

/// The body of the ciphertext: the inner product of the mask with the
/// secret key, plus the encoded plaintext, plus the error.
pub open spec fn ciphertext_body(
    plaintext: Seq<i64>,
    secret_key: Seq<u64>,
    mask: Seq<i64>,
    error: Seq<i64>,
    modulus_p: int,
    modulus_q: int,
    n: nat,
) -> Seq<u64> {
    wrapping_sum(
        wrapping_sum(
            multisum(words(mask), secret_key, n),
            words(encoded_plaintext(plaintext, modulus_p, modulus_q)),
        ),
        words(error),
    )
}

/// The ciphertext: the polynomials of the mask, followed by the body.
pub open spec fn ciphertext(
    plaintext: Seq<i64>,
    secret_key: Seq<u64>,
    mask: Seq<i64>,
    error: Seq<i64>,
    modulus_p: int,
    modulus_q: int,
    n: nat,
) -> Seq<u64> {
    words(mask) + ciphertext_body(plaintext, secret_key, mask, error, modulus_p, modulus_q, n)
}

/// The mask of a ciphertext: its first `k` polynomials.
pub open spec fn mask_of(ciphertext: Seq<u64>, n: nat, k: nat) -> Seq<u64> {
    ciphertext.subrange(0, (n * k) as int)
}

/// The body of a ciphertext: its last polynomial.
pub open spec fn body_of(ciphertext: Seq<u64>, n: nat, k: nat) -> Seq<u64> {
    ciphertext.subrange((n * k) as int, (n * k + n) as int)
}

/// The symbol that a coefficient of the noisy plaintext decodes to: its
/// signed value, reduced modulo `modulus_q` to a centered residue, divided
/// by the scaling factor and rounded.
pub open spec fn decoded_symbol(noisy: u64, modulus_p: int, modulus_q: int) -> int {
    div_by_delta_spec(
        centered_residue(signed_value(noisy as int), modulus_q),
        scaling_factor(modulus_p, modulus_q),
    )
}

/// The plaintext that a ciphertext of `k + 1` polynomials of `n`
/// coefficients decrypts to under `secret_key`.
pub open spec fn decrypted(
    ciphertext: Seq<u64>,
    secret_key: Seq<u64>,
    modulus_p: int,
    modulus_q: int,
    n: nat,
    k: nat,
) -> Seq<i64> {
    let noisy = wrapping_difference(
        body_of(ciphertext, n, k),
        multisum(mask_of(ciphertext, n, k), secret_key, n),
    );
    Seq::new(n, |i: int| decoded_symbol(noisy[i], modulus_p, modulus_q) as i64)
}

/// The encoding of a symbol is congruent to the scaled symbol modulo the
/// ciphertext modulus, and lies in `(-modulus_q/2, modulus_q/2]`.
pub proof fn lemma_encoding_scale(symbol: int, modulus_p: int, modulus_q: int)
    requires
        modulus_q > 0,
    ensures
        encoded_symbol(symbol, modulus_p, modulus_q) % modulus_q == (symbol * scaling_factor(
            modulus_p,
            modulus_q,
        )) % modulus_q,
        -modulus_q < 2 * encoded_symbol(symbol, modulus_p, modulus_q) <= modulus_q,
{
    lemma_centered_residue(symbol * scaling_factor(modulus_p, modulus_q), modulus_q);
}

/// Where the scaling factor is at least one, the encoding of a symbol in
/// range is the scaled symbol itself.
pub proof fn lemma_encoding_of_symbol_in_range(symbol: int, modulus_p: int, modulus_q: int)
    requires
        scaling_factor(modulus_p, modulus_q) >= 1,
        symbol_in_range(symbol, modulus_p),
    ensures
        encoded_symbol(symbol, modulus_p, modulus_q) == symbol * scaling_factor(
            modulus_p,
            modulus_q,
        ),
{
    let delta = scaling_factor(modulus_p, modulus_q);
    lemma_scaling_factor_bounds(modulus_p, modulus_q);
    assert(-modulus_q < 2 * (symbol * delta) < modulus_q) by (nonlinear_arith)
        requires
            -modulus_p < 2 * symbol < modulus_p,
            delta * modulus_p <= modulus_q,
            delta >= 1,
    ;
    lemma_centered_residue_of_centered(symbol * delta, modulus_q);
}

/// Two integers that are congruent stay congruent when the same integer is
/// taken off both.
proof fn lemma_congruence_minus(a: int, b: int, c: int, modulus: int)
    requires
        modulus > 0,
        a % modulus == b % modulus,
    ensures
        (a - c) % modulus == (b - c) % modulus,
{
    vstd::arithmetic::div_mod::lemma_sub_mod_noop(a, c, modulus);
    vstd::arithmetic::div_mod::lemma_sub_mod_noop(b, c, modulus);
}

/// Two integers that are congruent modulo a multiple of `modulus` are
/// congruent modulo `modulus`.
proof fn lemma_congruence_descends(a: int, b: int, multiple: int, modulus: int)
    requires
        modulus > 0,
        multiple > 0,
        multiple % modulus == 0,
        a % multiple == b % multiple,
    ensures
        a % modulus == b % modulus,
{
    let c = multiple / modulus;
    let r = a % multiple;
    vstd::arithmetic::div_mod::lemma_fundamental_div_mod(multiple, modulus);
    vstd::arithmetic::div_mod::lemma_fundamental_div_mod(a, multiple);
    vstd::arithmetic::div_mod::lemma_fundamental_div_mod(b, multiple);
    let ka = a / multiple;
    let kb = b / multiple;
    assert(a == modulus * (c * ka) + r && b == modulus * (c * kb) + r) by (nonlinear_arith)
        requires
            multiple == modulus * c,
            a == multiple * ka + r,
            b == multiple * kb + r,
    ;
    vstd::arithmetic::div_mod::lemma_mod_multiples_vanish(c * ka, r, modulus);
    vstd::arithmetic::div_mod::lemma_mod_multiples_vanish(c * kb, r, modulus);
}

/// The signed value of a word is congruent to the word modulo `2^64`.
proof fn lemma_signed_value_is_congruent(word: int)
    ensures
        signed_value(word) % word_modulus() == word % word_modulus(),
{
    let w = word_modulus();
    let r = word % w;
    vstd::arithmetic::div_mod::lemma_mod_twice(word, w);
    vstd::arithmetic::div_mod::lemma_mod_sub_multiples_vanish(r, w);
}

/// The body of a coefficient is congruent, modulo `2^64`, to the sum of the
/// inner product, the encoded symbol and the noise.
proof fn lemma_body_is_the_sum(inner: int, encoded: int, noise: int)
    ensures
        ({
            let w = word_modulus();
            let masked = (inner + encoded % w) % w;
            let body = (masked + noise % w) % w;
            body % w == (inner + encoded + noise) % w
        }),
{
    let w = word_modulus();
    let masked = (inner + encoded % w) % w;
    vstd::arithmetic::div_mod::lemma_add_mod_noop_right(inner, encoded, w);
    assert(masked == (inner + encoded) % w);
    vstd::arithmetic::div_mod::lemma_add_mod_noop(inner + encoded, noise, w);
    vstd::arithmetic::div_mod::lemma_mod_twice(inner + encoded + noise, w);
}

/// The coefficient at `i` of the body of a ciphertext, written out.
proof fn lemma_body_coefficient(
    plaintext: Seq<i64>,
    secret_key: Seq<u64>,
    mask: Seq<i64>,
    error: Seq<i64>,
    modulus_p: int,
    modulus_q: int,
    n: nat,
    i: int,
)
    requires
        plaintext.len() == n,
        error.len() == n,
        0 <= i < n,
    ensures
        ({
            let w = word_modulus();
            let inner = multisum(words(mask), secret_key, n)[i] as int;
            let encoded = encoded_symbol(plaintext[i] as int, modulus_p, modulus_q) as i64;
            let body = ciphertext_body(
                plaintext,
                secret_key,
                mask,
                error,
                modulus_p,
                modulus_q,
                n,
            )[i] as int;
            body % w == (inner + encoded + error[i]) % w
        }),
{
    let w = word_modulus();
    let inner = multisum(words(mask), secret_key, n)[i] as int;
    let encoded = encoded_symbol(plaintext[i] as int, modulus_p, modulus_q) as i64;
    let encoded_word = unsigned_word(encoded as int);
    let noise_word = unsigned_word(error[i] as int);
    let masked = (inner + encoded_word) % w;
    let body = (masked + noise_word) % w;
    vstd::arithmetic::div_mod::lemma_mod_bound(encoded as int, w);
    vstd::arithmetic::div_mod::lemma_mod_bound(error[i] as int, w);
    vstd::arithmetic::div_mod::lemma_mod_bound(inner + encoded_word, w);
    vstd::arithmetic::div_mod::lemma_mod_bound(masked + noise_word, w);
    assert(encoded_word as u64 == encoded_word);
    assert(noise_word as u64 == noise_word);
    assert(masked as u64 == masked);
    assert(body as u64 == body);
    let encoded_words = words(encoded_plaintext(plaintext, modulus_p, modulus_q));
    assert(encoded_words[i] == encoded_word);
    assert(words(error)[i] == noise_word);
    let first = wrapping_sum(multisum(words(mask), secret_key, n), encoded_words);
    assert(first[i] == masked);
    assert(ciphertext_body(plaintext, secret_key, mask, error, modulus_p, modulus_q, n)[i]
        == body);
    lemma_body_is_the_sum(inner, encoded as int, error[i] as int);
}

/// What is left of the body when the inner product and the error are taken
/// off again is the encoded plaintext: as a signed value exactly, hence
/// congruent to the scaled symbol modulo the ciphertext modulus. Where the
/// ciphertext modulus divides `2^64`, the congruence holds of the plain
/// difference of the three integers as well.
pub proof fn lemma_body_holds_the_encoding(
    plaintext: Seq<i64>,
    secret_key: Seq<u64>,
    mask: Seq<i64>,
    error: Seq<i64>,
    modulus_p: i64,
    modulus_q: i64,
    n: nat,
    i: int,
)
    requires
        modulus_q > 0,
        plaintext.len() == n,
        error.len() == n,
        0 <= i < n,
    ensures
        ({
            let p = modulus_p as int;
            let q = modulus_q as int;
            let inner = multisum(words(mask), secret_key, n)[i] as int;
            let body = ciphertext_body(plaintext, secret_key, mask, error, p, q, n)[i] as int;
            let rest = body - inner - error[i];
            &&& signed_value(rest) == encoded_symbol(plaintext[i] as int, p, q)
            &&& signed_value(rest) % q == (plaintext[i] * scaling_factor(p, q)) % q
            &&& word_modulus() % q == 0 ==> rest % q == (plaintext[i] * scaling_factor(p, q)) % q
        }),
{
    let w = word_modulus();
    let p = modulus_p as int;
    let q = modulus_q as int;
    let inner = multisum(words(mask), secret_key, n)[i] as int;
    let body = ciphertext_body(plaintext, secret_key, mask, error, p, q, n)[i] as int;
    let encoded = encoded_symbol(plaintext[i] as int, p, q);
    let rest = body - inner - error[i];
    lemma_encoding_scale(plaintext[i] as int, p, q);
    assert(encoded as i64 == encoded);
    lemma_body_coefficient(plaintext, secret_key, mask, error, p, q, n, i);
    lemma_congruence_minus(body, inner + encoded + error[i], inner + error[i], w);
    assert(rest % w == encoded % w);
    lemma_signed_value_of_word(encoded);
    assert(signed_value(rest) == encoded);
    if w % q == 0 {
        lemma_congruence_descends(rest, encoded, w, q);
    }
}

/// What is left of a coefficient of the body when the inner product is
/// taken off again, read as a signed value.
pub open spec fn noisy_value(ciphertext: Seq<u64>, secret_key: Seq<u64>, n: nat, k: nat, i: int) -> int {
    signed_value(
        wrapping_difference(
            body_of(ciphertext, n, k),
            multisum(mask_of(ciphertext, n, k), secret_key, n),
        )[i] as int,
    )
}

/// The noise of a ciphertext is less than half the scaling factor: in
/// every coefficient, the centered residue of what is left of the body when
/// the inner product and the scaled symbol are taken off again.
pub open spec fn noise_in_bounds(
    ciphertext: Seq<u64>,
    secret_key: Seq<u64>,
    plaintext: Seq<i64>,
    modulus_p: int,
    modulus_q: int,
    n: nat,
    k: nat,
) -> bool {
    forall|i: int|
        0 <= i < n ==> {
            let residue = centered_residue(
                #[trigger] noisy_value(ciphertext, secret_key, n, k, i) - plaintext[i]
                    * scaling_factor(modulus_p, modulus_q),
                modulus_q,
            );
            -scaling_factor(modulus_p, modulus_q) < 2 * residue < scaling_factor(
                modulus_p,
                modulus_q,
            )
        }
}

/// In a ciphertext made of a plaintext in range and an error within its
/// bounds, what is left of a coefficient of the body when the inner product
/// is taken off again is the scaled symbol plus the error, exactly.
pub proof fn lemma_noisy_value(
    plaintext: Seq<i64>,
    secret_key: Seq<u64>,
    mask: Seq<i64>,
    error: Seq<i64>,
    modulus_p: i64,
    modulus_q: i64,
    n: nat,
    k: nat,
    i: int,
)
    requires
        scaling_factor(modulus_p as int, modulus_q as int) >= 1,
        plaintext.len() == n,
        plaintext_in_range(plaintext, modulus_p as int),
        mask.len() == n * k,
        error.len() == n,
        error_in_bounds(error, modulus_p as int, modulus_q as int),
        0 <= i < n,
    ensures
        noisy_value(
            ciphertext(
                plaintext,
                secret_key,
                mask,
                error,
                modulus_p as int,
                modulus_q as int,
                n,
            ),
            secret_key,
            n,
            k,
            i,
        ) == plaintext[i] * scaling_factor(modulus_p as int, modulus_q as int) + error[i],
        -modulus_q < 2 * (plaintext[i] * scaling_factor(modulus_p as int, modulus_q as int)
            + error[i]) < modulus_q,
{
    let w = word_modulus();
    let p = modulus_p as int;
    let q = modulus_q as int;
    let delta = scaling_factor(p, q);
    let encrypted = ciphertext(plaintext, secret_key, mask, error, p, q, n);
    let body = ciphertext_body(plaintext, secret_key, mask, error, p, q, n);
    assert(mask_of(encrypted, n, k) =~= words(mask));
    assert(body_of(encrypted, n, k) =~= body);
    let inner = multisum(words(mask), secret_key, n)[i] as int;
    let symbol = plaintext[i] as int;
    assert(symbol_in_range(symbol, p));
    lemma_scaling_factor_bounds(p, q);
    lemma_encoding_of_symbol_in_range(symbol, p, q);
    let value = symbol * delta + error[i];
    assert(-q < 2 * value < q) by (nonlinear_arith)
        requires
            -p < 2 * symbol < p,
            delta * p <= q,
            delta >= 1,
            -delta < 2 * error[i] < delta,
            value == symbol * delta + error[i],
    ;
    lemma_body_coefficient(plaintext, secret_key, mask, error, p, q, n, i);
    let encoded = encoded_symbol(symbol, p, q);
    assert(encoded as i64 == encoded);
    lemma_congruence_minus(body[i] as int, inner + encoded + error[i], inner, w);
    let noisy = (body[i] - inner) % w;
    vstd::arithmetic::div_mod::lemma_mod_bound(body[i] - inner, w);
    assert(noisy as u64 == noisy);
    assert(noisy == value % w);
    lemma_signed_value_of_word(value);
    vstd::arithmetic::div_mod::lemma_mod_twice(value, w);
    assert(signed_value(noisy) == value);
}

/// Decryption inverts encryption: where the scaling factor is at least one,
/// a plaintext in range that is encrypted with an error of less than half
/// the scaling factor in every coefficient decrypts to itself, whatever the
/// key and the mask, and the noise of the ciphertext is within its bounds.
/// This holds in particular of all well-posed parameters.
pub proof fn lemma_decryption_inverts_encryption(
    plaintext: Seq<i64>,
    secret_key: Seq<u64>,
    mask: Seq<i64>,
    error: Seq<i64>,
    modulus_p: i64,
    modulus_q: i64,
    n: nat,
    k: nat,
)
    requires
        scaling_factor(modulus_p as int, modulus_q as int) >= 1,
        plaintext.len() == n,
        plaintext_in_range(plaintext, modulus_p as int),
        secret_key.len() == n * k,
        mask.len() == n * k,
        error.len() == n,
        error_in_bounds(error, modulus_p as int, modulus_q as int),
    ensures
        decrypted(
            ciphertext(
                plaintext,
                secret_key,
                mask,
                error,
                modulus_p as int,
                modulus_q as int,
                n,
            ),
            secret_key,
            modulus_p as int,
            modulus_q as int,
            n,
            k,
        ) == plaintext,
        noise_in_bounds(
            ciphertext(
                plaintext,
                secret_key,
                mask,
                error,
                modulus_p as int,
                modulus_q as int,
                n,
            ),
            secret_key,
            plaintext,
            modulus_p as int,
            modulus_q as int,
            n,
            k,
        ),
{
    let p = modulus_p as int;
    let q = modulus_q as int;
    let delta = scaling_factor(p, q);
    let encrypted = ciphertext(plaintext, secret_key, mask, error, p, q, n);
    let recovered = decrypted(encrypted, secret_key, p, q, n, k);
    assert forall|i: int| 0 <= i < n implies #[trigger] recovered[i] == plaintext[i] by {
        lemma_noisy_value(plaintext, secret_key, mask, error, modulus_p, modulus_q, n, k, i);
        lemma_centered_residue_of_centered(plaintext[i] * delta + error[i], q);
        lemma_round_div_recovers_symbol(plaintext[i] as int, error[i] as int, delta);
    }
    assert(recovered =~= plaintext);
    assert forall|i: int| 0 <= i < n implies {
        let residue = centered_residue(
            #[trigger] noisy_value(encrypted, secret_key, n, k, i) - plaintext[i] * delta,
            q,
        );
        -delta < 2 * residue < delta
    } by {
        lemma_noisy_value(plaintext, secret_key, mask, error, modulus_p, modulus_q, n, k, i);
        assert(symbol_in_range(plaintext[i] as int, p));
        lemma_scaling_factor_bounds(p, q);
        lemma_centered_residue_of_centered(error[i] as int, q);
    }
}

/// Decoding is exact on any body that is congruent, modulo the ciphertext
/// modulus, to the inner product plus the scaled plaintext plus an error
/// of less than half the scaling factor, where the ciphertext modulus
/// divides `2^64`. (Where it does not, a body that wraps around at `2^64`
/// changes its residue modulo the ciphertext modulus.)
pub proof fn lemma_decryption_decodes_congruent_body(
    ciphertext: Seq<u64>,
    secret_key: Seq<u64>,
    plaintext: Seq<i64>,
    error: Seq<i64>,
    modulus_p: i64,
    modulus_q: i64,
    n: nat,
    k: nat,
)
    requires
        scaling_factor(modulus_p as int, modulus_q as int) >= 1,
        word_modulus() % (modulus_q as int) == 0,
        ciphertext.len() == n * (k + 1),
        plaintext.len() == n,
        plaintext_in_range(plaintext, modulus_p as int),
        error.len() == n,
        error_in_bounds(error, modulus_p as int, modulus_q as int),
        forall|i: int|
            0 <= i < n ==> (#[trigger] body_of(ciphertext, n, k)[i] - multisum(
                mask_of(ciphertext, n, k),
                secret_key,
                n,
            )[i]) % (modulus_q as int) == (plaintext[i] * scaling_factor(
                modulus_p as int,
                modulus_q as int,
            ) + error[i]) % (modulus_q as int),
    ensures
        decrypted(ciphertext, secret_key, modulus_p as int, modulus_q as int, n, k) == plaintext,
{
    let w = word_modulus();
    let p = modulus_p as int;
    let q = modulus_q as int;
    let delta = scaling_factor(p, q);
    let body = body_of(ciphertext, n, k);
    let inner = multisum(mask_of(ciphertext, n, k), secret_key, n);
    assert(n * (k + 1) == n * k + n) by (nonlinear_arith);
    let recovered = decrypted(ciphertext, secret_key, p, q, n, k);
    assert forall|i: int| 0 <= i < n implies #[trigger] recovered[i] == plaintext[i] by {
        let symbol = plaintext[i] as int;
        let value = symbol * delta + error[i];
        assert(symbol_in_range(symbol, p));
        lemma_scaling_factor_bounds(p, q);
        assert(-q < 2 * value < q) by (nonlinear_arith)
            requires
                -p < 2 * symbol < p,
                delta * p <= q,
                delta >= 1,
                -delta < 2 * error[i] < delta,
                value == symbol * delta + error[i],
        ;
        let difference = body[i] - inner[i];
        let noisy = difference % w;
        vstd::arithmetic::div_mod::lemma_mod_bound(difference, w);
        assert(noisy as u64 == noisy);
        lemma_signed_value_is_congruent(noisy);
        vstd::arithmetic::div_mod::lemma_mod_twice(difference, w);
        lemma_congruence_descends(signed_value(noisy), difference, w, q);
        assert(body[i] == body_of(ciphertext, n, k)[i]);
        assert(signed_value(noisy) % q == value % q);
        assert(centered_residue(signed_value(noisy), q) == centered_residue(value, q));
        lemma_centered_residue_of_centered(value, q);
        lemma_round_div_recovers_symbol(symbol, error[i] as int, delta);
    }
    assert(recovered =~= plaintext);
}

/// The word that stands for a signed value stands for no other.
proof fn lemma_words_are_distinct(a: i64, b: i64)
    requires
        unsigned_word(a as int) == unsigned_word(b as int),
    ensures
        a == b,
{
    lemma_signed_value_of_word(a as int);
    lemma_signed_value_of_word(b as int);
}

/// Two encryptions that differ in a draw differ: where the masks differ, or
/// the errors differ, the ciphertexts of one plaintext under one key
/// differ.
pub proof fn lemma_different_draws_give_different_ciphertexts(
    plaintext: Seq<i64>,
    secret_key: Seq<u64>,
    mask_1: Seq<i64>,
    error_1: Seq<i64>,
    mask_2: Seq<i64>,
    error_2: Seq<i64>,
    modulus_p: int,
    modulus_q: int,
    n: nat,
)
    requires
        plaintext.len() == n,
        mask_1.len() == mask_2.len(),
        error_1.len() == n,
        error_2.len() == n,
        mask_1 != mask_2 || error_1 != error_2,
    ensures
        ciphertext(plaintext, secret_key, mask_1, error_1, modulus_p, modulus_q, n) != ciphertext(
            plaintext,
            secret_key,
            mask_2,
            error_2,
            modulus_p,
            modulus_q,
            n,
        ),
{
    let w = word_modulus();
    let first = ciphertext(plaintext, secret_key, mask_1, error_1, modulus_p, modulus_q, n);
    let second = ciphertext(plaintext, secret_key, mask_2, error_2, modulus_p, modulus_q, n);
    let length = mask_1.len() as int;
    if first == second {
        assert forall|i: int| 0 <= i < length implies mask_1[i] == mask_2[i] by {
            assert(first[i] == words(mask_1)[i]);
            assert(second[i] == words(mask_2)[i]);
            vstd::arithmetic::div_mod::lemma_mod_bound(mask_1[i] as int, w);
            vstd::arithmetic::div_mod::lemma_mod_bound(mask_2[i] as int, w);
            lemma_words_are_distinct(mask_1[i], mask_2[i]);
        }
        assert(mask_1 =~= mask_2);
        let body_1 = ciphertext_body(
            plaintext,
            secret_key,
            mask_1,
            error_1,
            modulus_p,
            modulus_q,
            n,
        );
        let body_2 = ciphertext_body(
            plaintext,
            secret_key,
            mask_2,
            error_2,
            modulus_p,
            modulus_q,
            n,
        );
        assert forall|i: int| 0 <= i < n implies error_1[i] == error_2[i] by {
            assert(first[length + i] == body_1[i]);
            assert(second[length + i] == body_2[i]);
            let inner = multisum(words(mask_1), secret_key, n)[i] as int;
            let encoded = encoded_symbol(plaintext[i] as int, modulus_p, modulus_q) as i64;
            lemma_body_coefficient(
                plaintext,
                secret_key,
                mask_1,
                error_1,
                modulus_p,
                modulus_q,
                n,
                i,
            );
            lemma_body_coefficient(
                plaintext,
                secret_key,
                mask_2,
                error_2,
                modulus_p,
                modulus_q,
                n,
                i,
            );
            lemma_congruence_minus(
                inner + encoded + error_1[i],
                inner + encoded + error_2[i],
                inner + encoded,
                w,
            );
            lemma_words_are_distinct(error_1[i], error_2[i]);
        }
        assert(error_1 =~= error_2);
    }
}

/// A ciphertext has one polynomial more than the key, whatever the moduli.
pub proof fn lemma_ciphertext_length(
    plaintext: Seq<i64>,
    secret_key: Seq<u64>,
    mask: Seq<i64>,
    error: Seq<i64>,
    modulus_p: int,
    modulus_q: int,
    n: nat,
    k: nat,
)
    requires
        mask.len() == n * k,
    ensures
        ciphertext(plaintext, secret_key, mask, error, modulus_p, modulus_q, n).len() == n * (k
            + 1),
{
    assert(n * k + n == n * (k + 1)) by (nonlinear_arith);
}

} // verus!
