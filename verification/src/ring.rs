//! Polynomials modulo `X^N + 1` whose coefficients are 64-bit words.
//!
//! A polynomial of degree below `N` is the sequence of its `N` coefficients,
//! lowest degree first. Arithmetic on the coefficients wraps around at
//! `2^64`. The arithmetic itself is done by the `tfhe` crate; this module
//! states what it computes and holds the list type that keys and
//! ciphertexts are made of.

use vstd::prelude::*;
use tfhe::core_crypto::algorithms::polynomial_algorithms::{
    polynomial_wrapping_add_assign,
    polynomial_wrapping_add_multisum_assign,
    polynomial_wrapping_sub_assign,
};
use crate::codec::word_modulus;
use crate::error::GlweError;

verus! {

/// The number of coefficients of a polynomial, the `N` of `X^N + 1`.
#[derive(Clone, Copy, Debug, PartialEq, Eq, Structural)]
pub struct PolynomialSize(pub usize);

/// The number of polynomials of a ciphertext: one more than the number of
/// polynomials of the secret key.
#[derive(Clone, Copy, Debug, PartialEq, Eq, Structural)]
pub struct GlweSize(pub usize);

/// A list of polynomials of one size, laid end to end in one vector.
///
/// The size is positive and divides the length of the vector.
#[derive(Debug, PartialEq, Eq)]
pub struct PolynomialList {
    data: Vec<u64>,
    polynomial_size: PolynomialSize,
}

impl View for PolynomialList {
    type V = Seq<u64>;

    /// The coefficients of all the polynomials, in order.
    closed spec fn view(&self) -> Seq<u64> {
        self.data@
    }
}

impl Clone for PolynomialList {
    fn clone(&self) -> (copy: Self)
        ensures
            copy@ == self@,
            copy.spec_polynomial_size() == self.spec_polynomial_size(),
    {
        proof {
            use_type_invariant(self);
        }
        PolynomialList { data: self.data.clone(), polynomial_size: self.polynomial_size }
    }
}

impl PolynomialList {
    #[verifier::type_invariant]
    spec fn well_formed(&self) -> bool {
        self.polynomial_size.0 > 0 && self.data.len() % self.polynomial_size.0 == 0
    }

    /// The number of coefficients of each polynomial.
    pub closed spec fn spec_polynomial_size(&self) -> nat {
        self.polynomial_size.0 as nat
    }

    /// The number of polynomials.
    pub open spec fn spec_polynomial_count(&self) -> nat {
        (self@.len() / self.spec_polynomial_size()) as nat
    }

    /// Makes a list of the polynomials of size `polynomial_size` whose
    /// coefficients `container` holds end to end. The size must be positive
    /// and divide the length of `container`.
    pub fn from_container(container: Vec<u64>, polynomial_size: PolynomialSize) -> (result: Result<
        PolynomialList,
        GlweError,
    >)
        ensures
            polynomial_size.0 > 0 && container.len() % polynomial_size.0 == 0 <==> result is Ok,
            result is Err ==> result == Err::<PolynomialList, GlweError>(
                GlweError::DimensionMismatch,
            ),
            result is Ok ==> result->Ok_0@ == container@ && result->Ok_0.spec_polynomial_size()
                == polynomial_size.0,
    {
        if polynomial_size.0 == 0 || container.len() % polynomial_size.0 != 0 {
            return Err(GlweError::DimensionMismatch);
        }
        Ok(PolynomialList { data: container, polynomial_size })
    }

    /// Gives back the vector of coefficients.
    pub fn into_container(self) -> (container: Vec<u64>)
        ensures
            container@ == self@,
    {
        self.data
    }

    /// The coefficients of all the polynomials, in order.
    pub fn coefficients(&self) -> (container: &Vec<u64>)
        ensures
            container@ == self@,
    {
        &self.data
    }

    /// The number of coefficients of each polynomial.
    pub fn polynomial_size(&self) -> (size: PolynomialSize)
        ensures
            size.0 == self.spec_polynomial_size(),
            size.0 > 0,
            self@.len() % (size.0 as nat) == 0,
    {
        proof {
            use_type_invariant(self);
        }
        self.polynomial_size
    }

    /// The number of polynomials.
    pub fn polynomial_count(&self) -> (count: usize)
        ensures
            count == self.spec_polynomial_count(),
            count * self.spec_polynomial_size() == self@.len(),
    {
        proof {
            use_type_invariant(self);
            vstd::arithmetic::div_mod::lemma_fundamental_div_mod(
                self.data.len() as int,
                self.polynomial_size.0 as int,
            );
            vstd::arithmetic::mul::lemma_mul_is_commutative(
                self.polynomial_size.0 as int,
                self.data.len() as int / self.polynomial_size.0 as int,
            );
        }
        self.data.len() / self.polynomial_size.0
    }
}

/// The coefficient of `X^degree` in `b`, where a degree in `[-N, 0)` stands
/// for the degree `N` higher with the sign changed, since `X^N = -1`.
pub open spec fn negacyclic_coefficient(b: Seq<u64>, degree: int) -> int {
    if degree >= 0 {
        b[degree] as int
    } else {
        -(b[degree + b.len()] as int)
    }
}

/// What the first `terms` coefficients of `a` contribute to the coefficient
/// of `X^degree` in the product `a * b` modulo `X^N + 1`.
pub open spec fn negacyclic_product_partial(a: Seq<u64>, b: Seq<u64>, degree: int, terms: nat) -> int
    decreases terms,
{
    if terms == 0 {
        0
    } else {
        let i = terms - 1;
        negacyclic_product_partial(a, b, degree, i as nat) + a[i] * negacyclic_coefficient(
            b,
            degree - i,
        )
    }
}

/// The coefficient of `X^degree` in the product `a * b` modulo `X^N + 1`,
/// as an integer: `sum over i of a[i] * b[degree - i]`.
pub open spec fn negacyclic_product_coefficient(a: Seq<u64>, b: Seq<u64>, degree: int) -> int {
    negacyclic_product_partial(a, b, degree, a.len())
}

/// The polynomial at position `index` of a list of polynomials laid end to
/// end.
pub open spec fn polynomial_at(list: Seq<u64>, polynomial_size: nat, index: int) -> Seq<u64> {
    list.subrange(index * polynomial_size, (index + 1) * polynomial_size)
}

/// The coefficient of `X^degree` in the sum of the products of the first
/// `count` polynomials of `list_1` with those at the same positions of
/// `list_2`.
pub open spec fn multisum_partial(
    list_1: Seq<u64>,
    list_2: Seq<u64>,
    polynomial_size: nat,
    degree: int,
    count: nat,
) -> int
    decreases count,
{
    if count == 0 {
        0
    } else {
        let j = count - 1;
        multisum_partial(list_1, list_2, polynomial_size, degree, j as nat)
            + negacyclic_product_coefficient(
            polynomial_at(list_1, polynomial_size, j),
            polynomial_at(list_2, polynomial_size, j),
            degree,
        )
    }
}

/// The coefficient of `X^degree` in `sum over j of list_1[j] * list_2[j]`
/// modulo `X^N + 1`, as an integer.
pub open spec fn multisum_coefficient(
    list_1: Seq<u64>,
    list_2: Seq<u64>,
    polynomial_size: nat,
    degree: int,
) -> int {
    multisum_partial(
        list_1,
        list_2,
        polynomial_size,
        degree,
        (list_1.len() / polynomial_size) as nat,
    )
}

/// The polynomial `sum over j of list_1[j] * list_2[j]` modulo `X^N + 1`,
/// each coefficient reduced to a word.
pub open spec fn multisum(list_1: Seq<u64>, list_2: Seq<u64>, polynomial_size: nat) -> Seq<u64> {
    Seq::new(
        polynomial_size,
        |degree: int|
            (multisum_coefficient(list_1, list_2, polynomial_size, degree) % word_modulus()) as u64,
    )
}

/// The product `a * b` modulo `X^N + 1`, each coefficient reduced to a
/// word.
pub open spec fn negacyclic_product(a: Seq<u64>, b: Seq<u64>) -> Seq<u64> {
    Seq::new(
        a.len(),
        |degree: int| (negacyclic_product_coefficient(a, b, degree) % word_modulus()) as u64,
    )
}

/// The sum of two polynomials, each coefficient reduced to a word.
pub open spec fn wrapping_sum(a: Seq<u64>, b: Seq<u64>) -> Seq<u64> {
    Seq::new(a.len(), |degree: int| ((a[degree] + b[degree]) % word_modulus()) as u64)
}

/// The difference of two polynomials, each coefficient reduced to a word.
pub open spec fn wrapping_difference(a: Seq<u64>, b: Seq<u64>) -> Seq<u64> {
    Seq::new(a.len(), |degree: int| ((a[degree] - b[degree]) % word_modulus()) as u64)
}

/// Adds `rhs` to `lhs` with `tfhe`'s `polynomial_wrapping_add_assign`.
///
/// Trusted: each coefficient of the result is the sum of the two
/// coefficients of that degree, wrapped around at `2^64`. The outside
/// function refuses polynomials of different or zero size.
#[verifier::external_body]
fn ring_add_assign(lhs: &mut Vec<u64>, rhs: &Vec<u64>)
    requires
        old(lhs).len() == rhs.len(),
        rhs.len() > 0,
    ensures
        final(lhs)@ == wrapping_sum(old(lhs)@, rhs@),
{
    let mut sum = tfhe::core_crypto::entities::Polynomial::from_container(lhs.as_mut_slice());
    let addend = tfhe::core_crypto::entities::Polynomial::from_container(rhs.as_slice());
    polynomial_wrapping_add_assign(&mut sum, &addend);
}

/// Subtracts `rhs` from `lhs` with `tfhe`'s
/// `polynomial_wrapping_sub_assign`.
///
/// Trusted: each coefficient of the result is the difference of the two
/// coefficients of that degree, wrapped around at `2^64`. The outside
/// function refuses polynomials of different or zero size.
#[verifier::external_body]
fn ring_sub_assign(lhs: &mut Vec<u64>, rhs: &Vec<u64>)
    requires
        old(lhs).len() == rhs.len(),
        rhs.len() > 0,
    ensures
        final(lhs)@ == wrapping_difference(old(lhs)@, rhs@),
{
    let mut difference = tfhe::core_crypto::entities::Polynomial::from_container(
        lhs.as_mut_slice(),
    );
    let subtrahend = tfhe::core_crypto::entities::Polynomial::from_container(rhs.as_slice());
    polynomial_wrapping_sub_assign(&mut difference, &subtrahend);
}

/// Adds to `output` the sum of the products of the polynomials of `list_1`
/// with those at the same positions of `list_2`, with `tfhe`'s
/// `polynomial_wrapping_add_multisum_assign`.
///
/// Trusted: the products are taken modulo `X^N + 1`, and every coefficient
/// wraps around at `2^64`. The outside function refuses a list whose length
/// is no multiple of the polynomial size, lists of different polynomial
/// counts, and polynomials of a size other than that of `output`.
#[verifier::external_body]
fn ring_add_multisum_assign(
    output: &mut Vec<u64>,
    list_1: &Vec<u64>,
    list_2: &Vec<u64>,
    polynomial_size: usize,
)
    requires
        polynomial_size > 0,
        old(output).len() == polynomial_size,
        list_1.len() % polynomial_size == 0,
        list_1.len() == list_2.len(),
    ensures
        final(output)@ == wrapping_sum(
            old(output)@,
            multisum(list_1@, list_2@, polynomial_size as nat),
        ),
{
    let mut sum = tfhe::core_crypto::entities::Polynomial::from_container(output.as_mut_slice());
    let size = tfhe::core_crypto::commons::parameters::PolynomialSize(polynomial_size);
    let first = tfhe::core_crypto::entities::PolynomialList::from_container(
        list_1.as_slice(),
        size,
    );
    let second = tfhe::core_crypto::entities::PolynomialList::from_container(
        list_2.as_slice(),
        size,
    );
    polynomial_wrapping_add_multisum_assign(&mut sum, &first, &second);
}

/// Adding to the zero polynomial gives the addend.
proof fn lemma_wrapping_sum_with_zero(zero: Seq<u64>, polynomial: Seq<u64>)
    requires
        zero.len() == polynomial.len(),
        forall|i: int| 0 <= i < zero.len() ==> zero[i] == 0,
    ensures
        wrapping_sum(zero, polynomial) == polynomial,
{
    assert(wrapping_sum(zero, polynomial) =~= polynomial);
}

/// A list of a single polynomial has that polynomial's product as its
/// multisum.
proof fn lemma_multisum_of_one(a: Seq<u64>, b: Seq<u64>)
    requires
        a.len() > 0,
        a.len() == b.len(),
    ensures
        multisum(a, b, a.len()) == negacyclic_product(a, b),
{
    let n = a.len();
    assert(n / n == 1) by (nonlinear_arith)
        requires
            n > 0,
    ;
    assert(polynomial_at(a, n, 0) =~= a);
    assert(polynomial_at(b, n, 0) =~= b);
    assert forall|degree: int| 0 <= degree < n implies multisum_coefficient(a, b, n, degree)
        == negacyclic_product_coefficient(a, b, degree) by {
        reveal_with_fuel(multisum_partial, 2);
    }
    assert(multisum(a, b, n) =~= negacyclic_product(a, b));
}

/// Adds two polynomials coefficient by coefficient; each sum wraps around
/// at `2^64`. Polynomials of different sizes are refused.
pub fn polynomial_add(lhs: &Vec<u64>, rhs: &Vec<u64>) -> (result: Result<Vec<u64>, GlweError>)
    ensures
        lhs.len() == rhs.len() <==> result is Ok,
        result is Err ==> result == Err::<Vec<u64>, GlweError>(GlweError::DimensionMismatch),
        result is Ok ==> result->Ok_0@ == wrapping_sum(lhs@, rhs@),
{
    if lhs.len() != rhs.len() {
        return Err(GlweError::DimensionMismatch);
    }
    let mut sum = lhs.clone();
    if rhs.len() > 0 {
        ring_add_assign(&mut sum, rhs);
    } else {
        assert(sum@ =~= wrapping_sum(lhs@, rhs@));
    }
    Ok(sum)
}

/// Subtracts `rhs` from `lhs` coefficient by coefficient; each difference
/// wraps around at `2^64`. Polynomials of different sizes are refused.
pub fn polynomial_subtract(lhs: &Vec<u64>, rhs: &Vec<u64>) -> (result: Result<Vec<u64>, GlweError>)
    ensures
        lhs.len() == rhs.len() <==> result is Ok,
        result is Err ==> result == Err::<Vec<u64>, GlweError>(GlweError::DimensionMismatch),
        result is Ok ==> result->Ok_0@ == wrapping_difference(lhs@, rhs@),
{
    if lhs.len() != rhs.len() {
        return Err(GlweError::DimensionMismatch);
    }
    let mut difference = lhs.clone();
    if rhs.len() > 0 {
        ring_sub_assign(&mut difference, rhs);
    } else {
        assert(difference@ =~= wrapping_difference(lhs@, rhs@));
    }
    Ok(difference)
}

/// Multiplies two polynomials modulo `X^N + 1`, where `N` is their size;
/// each coefficient wraps around at `2^64`. Polynomials of different sizes
/// are refused.
pub fn negacyclic_multiply(lhs: &Vec<u64>, rhs: &Vec<u64>) -> (result: Result<Vec<u64>, GlweError>)
    ensures
        lhs.len() == rhs.len() <==> result is Ok,
        result is Err ==> result == Err::<Vec<u64>, GlweError>(GlweError::DimensionMismatch),
        result is Ok ==> result->Ok_0@ == negacyclic_product(lhs@, rhs@),
{
    if lhs.len() != rhs.len() {
        return Err(GlweError::DimensionMismatch);
    }
    let size = lhs.len();
    let mut product: Vec<u64> = vec![0u64; size];
    if size > 0 {
        proof {
            lemma_wrapping_sum_with_zero(product@, multisum(lhs@, rhs@, size as nat));
            lemma_multisum_of_one(lhs@, rhs@);
        }
        ring_add_multisum_assign(&mut product, lhs, rhs, size);
    } else {
        assert(product@ =~= negacyclic_product(lhs@, rhs@));
    }
    Ok(product)
}

/// Sums the products modulo `X^N + 1` of the polynomials of `list_a` with
/// those at the same positions of `list_b`, starting from zero. Lists of
/// different polynomial sizes or counts are refused.
pub fn multiply_accumulate(list_a: &PolynomialList, list_b: &PolynomialList) -> (result: Result<
    Vec<u64>,
    GlweError,
>)
    ensures
        list_a.spec_polynomial_size() == list_b.spec_polynomial_size() && list_a@.len()
            == list_b@.len() <==> result is Ok,
        result is Err ==> result == Err::<Vec<u64>, GlweError>(GlweError::DimensionMismatch),
        result is Ok ==> result->Ok_0@ == multisum(list_a@, list_b@, list_a.spec_polynomial_size()),
{
    let size = list_a.polynomial_size();
    if size.0 != list_b.polynomial_size().0 || list_a.coefficients().len()
        != list_b.coefficients().len() {
        return Err(GlweError::DimensionMismatch);
    }
    let mut sum: Vec<u64> = vec![0u64; size.0];
    proof {
        lemma_wrapping_sum_with_zero(
            sum@,
            multisum(list_a@, list_b@, list_a.spec_polynomial_size()),
        );
    }
    ring_add_multisum_assign(&mut sum, list_a.coefficients(), list_b.coefficients(), size.0);
    Ok(sum)
}

} // verus!
