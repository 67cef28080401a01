use rand::{thread_rng, Rng};
use tfhe_playground::{assert_vector_eq, decrypt_glwe, encrypt_glwe, GlweError, PolynomialList};

/// Encrypts under fresh keys until one is dense enough to be used.
fn encrypt_with_usable_key(
    plaintext: &Vec<i64>,
    modulus_p: i64,
    modulus_q: i64,
    n: usize,
    k: usize,
) -> (PolynomialList, PolynomialList) {
    loop {
        match encrypt_glwe(plaintext.clone(), modulus_p, modulus_q, n, k) {
            Ok(pair) => return pair,
            Err(GlweError::DegenerateKey) => {}
            Err(other) => panic!("encryption failed: {}", other.message()),
        }
    }
}

//small size parameters
#[test]
pub fn small_entropy_test() {
    //params toy : Note q must be divisible by p
    let modulus_q: i64 = 32;
    let modulus_p: i64 = 4;
    // N>k for problem to be well defined
    let k = 2;
    let n = 4;

    let mut rng = thread_rng();
    let mut input_msg: Vec<i64> = Vec::new();
    for _ in 0..=n - 1 {
        input_msg.push(rng.gen_range(-modulus_p / 2 + 1..modulus_p / 2));
    }
    let (cipher_text_poly, glwe_poly_list) =
        encrypt_with_usable_key(&input_msg, modulus_p, modulus_q, n, k);
    let decrypted_text =
        decrypt_glwe(cipher_text_poly, glwe_poly_list, modulus_p, modulus_q, n, k).unwrap();
    //sanity check
    assert!(assert_vector_eq(input_msg, decrypted_text));
}

///large size parameters
#[test]
pub fn large_entropy_test() {
    let modulus_q: i64 = 4294967296i64; //very large modulus
    //smaller plain text modulus (entries in plain text are modulo p)
    let modulus_p: i64 = 4096i64;
    //number of secret vectors
    let k: usize = 8;
    // Polynomials are m_0 +m_1 X +... + m_{N-1}X^{N-1} and polynomial multiplications are modded by X^N+1
    let n: usize = 16;
    let mut rng = thread_rng();
    let mut input_msg: Vec<i64> = Vec::new();
    for _ in 0..=n - 1 {
        input_msg.push(rng.gen_range(-modulus_p / 2 + 1..modulus_p / 2));
    }
    let (cipher_text_poly, glwe_poly_list) =
        encrypt_with_usable_key(&input_msg, modulus_p, modulus_q, n, k);
    let decrypted_text =
        decrypt_glwe(cipher_text_poly, glwe_poly_list, modulus_p, modulus_q, n, k).unwrap();
    //sanity check
    assert!(assert_vector_eq(input_msg, decrypted_text));
}
