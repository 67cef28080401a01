use tfhe_playground::{
    add_vecs_with_mod_red, assert_vector_eq, convert_Vi64_to_Vu64, convert_Vu64_to_Vi64,
    div_by_delta, modular_red_vec, to_signed, to_unsigned, GlweError,
};

#[test]
fn signed_values_become_words_with_the_same_bits() {
    assert_eq!(
        convert_Vi64_to_Vu64(vec![-1, 0, 1, -8, i64::MIN, i64::MAX]),
        vec![
            u64::MAX,
            0,
            1,
            18446744073709551608,
            9223372036854775808,
            9223372036854775807
        ]
    );
    assert_eq!(convert_Vi64_to_Vu64(Vec::new()), Vec::<u64>::new());
}

#[test]
fn words_become_signed_values_with_the_same_bits() {
    assert_eq!(
        convert_Vu64_to_Vi64(vec![
            u64::MAX,
            0,
            1,
            18446744073709551608,
            9223372036854775808,
            9223372036854775807
        ]),
        vec![-1, 0, 1, -8, i64::MIN, i64::MAX]
    );
    assert_eq!(convert_Vu64_to_Vi64(Vec::new()), Vec::<i64>::new());
}

#[test]
fn conversion_there_and_back_is_the_identity() {
    let values = vec![-5, 17, i64::MIN, i64::MAX, 0, -1];
    assert_eq!(convert_Vu64_to_Vi64(convert_Vi64_to_Vu64(values.clone())), values);
}

#[test]
fn coefficients_are_read_as_centered_residues() {
    assert_eq!(to_signed(5, 32), 5);
    assert_eq!(to_signed(16, 32), 16);
    assert_eq!(to_signed(17, 32), -15);
    assert_eq!(to_signed(20, 32), -12);
    assert_eq!(to_signed(32, 32), 0);
    assert_eq!(to_signed(u64::MAX - 7, 32), -8);
    assert_eq!(to_signed(u64::MAX - 15, 32), 16);
    assert_eq!(to_signed(u64::MAX, 32), -1);
    assert_eq!(to_signed(1 << 63, 32), 0);
    assert_eq!(to_signed(u64::MAX, i64::MAX), -1);
    assert_eq!(to_signed(1 << 63, i64::MAX), -1);
    assert_eq!(to_signed(9223372036854775807, i64::MAX), 0);
    assert_eq!(to_signed(7, 1), 0);
}

#[test]
fn integers_are_stored_as_the_words_of_their_centered_residues() {
    assert_eq!(to_unsigned(5, 32), 5);
    assert_eq!(to_unsigned(16, 32), 16);
    assert_eq!(to_unsigned(-16, 32), 16);
    assert_eq!(to_unsigned(-8, 32), u64::MAX - 7);
    assert_eq!(to_unsigned(24, 32), u64::MAX - 7);
    assert_eq!(to_unsigned(20, 32), u64::MAX - 11);
    assert_eq!(to_unsigned(-1, 32), u64::MAX);
    assert_eq!(to_unsigned(i64::MIN, 32), 0);
    assert_eq!(to_unsigned(i64::MAX, 32), u64::MAX);
    assert_eq!(to_unsigned(i64::MIN, i64::MAX), u64::MAX);
}

#[test]
fn a_stored_integer_reads_back_as_its_centered_residue() {
    for modulus in [1, 2, 5, 32, 4294967296, i64::MAX] {
        for value in [0, 1, -1, 15, 16, 17, -15, -16, -17, 1 << 40, i64::MAX, i64::MIN] {
            let least = modular_red_vec(vec![value], modulus)[0];
            let residue = if least <= modulus - least { least } else { least - modulus };
            assert_eq!(to_signed(to_unsigned(value, modulus), modulus), residue);
            assert_eq!(to_signed(to_unsigned(residue, modulus), modulus), residue);
        }
    }
}

#[test]
fn rounding_division_rounds_to_nearest() {
    assert_eq!(div_by_delta(7, 2), 4);
    assert_eq!(div_by_delta(3, 8), 0);
    assert_eq!(div_by_delta(-3, 8), 0);
    assert_eq!(div_by_delta(5, 8), 1);
    assert_eq!(div_by_delta(-5, 8), -1);
    assert_eq!(div_by_delta(0, 5), 0);
    assert_eq!(div_by_delta(24, 8), 3);
    assert_eq!(div_by_delta(-24, 8), -3);
    assert_eq!(div_by_delta(27, 8), 3);
    assert_eq!(div_by_delta(29, 8), 4);
}

#[test]
fn rounding_division_rounds_halves_away_from_zero() {
    assert_eq!(div_by_delta(4, 8), 1);
    assert_eq!(div_by_delta(-4, 8), -1);
    assert_eq!(div_by_delta(5, 2), 3);
    assert_eq!(div_by_delta(-5, 2), -3);
    assert_eq!(div_by_delta(-7, 2), -4);
    assert_eq!(div_by_delta(12, 8), 2);
    assert_eq!(div_by_delta(-12, 8), -2);
}

#[test]
fn rounding_division_takes_negative_divisors() {
    assert_eq!(div_by_delta(5, -2), -3);
    assert_eq!(div_by_delta(-5, -2), 3);
    assert_eq!(div_by_delta(3, -8), 0);
    assert_eq!(div_by_delta(24, -8), -3);
}

#[test]
fn rounding_division_is_exact_beyond_the_precision_of_floats() {
    assert_eq!(div_by_delta(9007199254740993, 1), 9007199254740993);
    assert_eq!(div_by_delta(-9007199254740993, 1), -9007199254740993);
    assert_eq!(div_by_delta(i64::MAX, 1), i64::MAX);
    assert_eq!(div_by_delta(i64::MIN, 1), i64::MIN);
    assert_eq!(div_by_delta(i64::MAX, 2), 4611686018427387904);
    assert_eq!(div_by_delta(i64::MIN, 2), -4611686018427387904);
    assert_eq!(div_by_delta(i64::MAX, i64::MAX), 1);
    assert_eq!(div_by_delta(i64::MIN, i64::MIN), 1);
    assert_eq!(div_by_delta(i64::MAX, i64::MIN), -1);
}

#[test]
fn rounding_division_saturates_at_the_limits() {
    assert_eq!(div_by_delta(i64::MIN, -1), i64::MAX);
    assert_eq!(div_by_delta(5, 0), i64::MAX);
    assert_eq!(div_by_delta(-5, 0), i64::MIN);
    assert_eq!(div_by_delta(0, 0), 0);
}

#[test]
fn rounding_division_decodes_with_a_large_scaling_factor() {
    let delta: i64 = 1 << 20;
    assert_eq!(div_by_delta(3 * delta + (delta / 2 - 1), delta), 3);
    assert_eq!(div_by_delta(3 * delta - (delta / 2 - 1), delta), 3);
    assert_eq!(div_by_delta(3 * delta + delta / 2, delta), 4);
    assert_eq!(div_by_delta(-3 * delta - delta / 2, delta), -4);
    assert_eq!(div_by_delta(-2047 * delta + 524287, delta), -2047);
}

#[test]
fn modular_reduction_gives_the_residue_below_the_modulus() {
    assert_eq!(
        modular_red_vec(vec![20, -20, 16, -16, 5, 0, 32, -32, 33, -5, 15, -15, 31], 32),
        vec![20, 12, 16, 16, 5, 0, 0, 0, 1, 27, 15, 17, 31]
    );
    assert_eq!(modular_red_vec(vec![3, -3, 4, 2, -2, 1, -1], 5), vec![3, 2, 4, 2, 3, 1, 4]);
    assert_eq!(modular_red_vec(vec![7, -7, 0], 1), vec![0, 0, 0]);
    assert_eq!(modular_red_vec(Vec::new(), 32), Vec::<i64>::new());
}

#[test]
fn modular_reduction_takes_the_extremes() {
    assert_eq!(modular_red_vec(vec![i64::MAX, i64::MIN], 32), vec![31, 0]);
    assert_eq!(
        modular_red_vec(vec![i64::MAX, i64::MIN, -1, 1], i64::MAX),
        vec![0, 9223372036854775806, 9223372036854775806, 1]
    );
}

#[test]
fn vectors_are_added_and_reduced() {
    assert_eq!(add_vecs_with_mod_red(vec![20], vec![0], 32), Ok(vec![20]));
    assert_eq!(add_vecs_with_mod_red(vec![5], vec![6], 4), Ok(vec![3]));
    assert_eq!(add_vecs_with_mod_red(vec![20, -3, 1], vec![1, -30, 2], 32), Ok(vec![21, 31, 3]));
    assert_eq!(add_vecs_with_mod_red(vec![8, 8], vec![8, 9], 32), Ok(vec![16, 17]));
    assert_eq!(add_vecs_with_mod_red(vec![-5], vec![-6], 4), Ok(vec![1]));
    assert_eq!(add_vecs_with_mod_red(Vec::new(), Vec::new(), 32), Ok(Vec::new()));
}

#[test]
fn vector_addition_does_not_overflow() {
    assert_eq!(add_vecs_with_mod_red(vec![i64::MAX], vec![i64::MAX], 32), Ok(vec![30]));
    assert_eq!(add_vecs_with_mod_red(vec![i64::MIN], vec![i64::MIN], 32), Ok(vec![0]));
    assert_eq!(add_vecs_with_mod_red(vec![i64::MIN], vec![-1], 7), Ok(vec![5]));
}

#[test]
fn vector_addition_refuses_different_lengths() {
    assert_eq!(
        add_vecs_with_mod_red(vec![1, 2], vec![1], 32),
        Err(GlweError::DimensionMismatch)
    );
    assert_eq!(
        add_vecs_with_mod_red(Vec::new(), vec![1], 32),
        Err(GlweError::DimensionMismatch)
    );
}

#[test]
fn equal_vectors_are_told_from_different_ones() {
    assert!(assert_vector_eq(vec![1, -2, 3], vec![1, -2, 3]));
    assert!(assert_vector_eq(Vec::new(), Vec::new()));
    assert!(!assert_vector_eq(vec![1, -2, 3], vec![1, -2, 4]));
    assert!(!assert_vector_eq(vec![1, -2, 3], vec![1, -2]));
    assert!(!assert_vector_eq(vec![1, -2], vec![1, -2, 3]));
    assert!(!assert_vector_eq(vec![0], Vec::new()));
}

#[test]
fn errors_describe_themselves() {
    assert_eq!(GlweError::DimensionMismatch.message(), "operand dimensions disagree");
    assert_eq!(GlweError::NotBinary.message(), "not a binary vector");
    assert_eq!(GlweError::DegenerateKey.message(), "secret key is too sparse");
    assert_eq!(GlweError::OutOfRangePlaintext.message(), "plaintext symbol out of range");
}
