//! Polynomials built from the points of an interpolation domain.

use crate::algebra::{
    add_total, is_difference, is_made_from, is_negation, mul_total, neg_total, sub_total,
};
use crate::polynomial::univariant::{
    is_poly_product, lemma_poly_product_unique, poly_product, product_defined, UnivariantPolynomial,
};
use core::ops::{Add, Mul, Neg, Sub};
use vstd::prelude::*;
use vstd::std_specs::convert::FromSpec;
use vstd::std_specs::ops::{AddSpec, MulSpec, NegSpec, SubSpec};

verus! {

/// The largest position below `upto` other than `i`, or a negative number
/// if there is none.
pub open spec fn last_other(i: int, upto: int) -> int {
    if upto - 1 != i {
        upto - 1
    } else {
        upto - 2
    }
}

/// The linear polynomial that vanishes at `domain[j]`, multiplied by the
/// negated difference `-(domain[i] - domain[j])`.
pub open spec fn scaled_factor<F>(domain: Seq<F>, i: int, j: int) -> Seq<F>
    where F: From<u64> + Neg<Output = F> + Sub<Output = F> + Add<Output = F> + Mul<Output = F>
{
    poly_product(
        seq![domain[j].neg_spec(), F::from_spec(1u64)],
        seq![domain[i].sub_spec(domain[j]).neg_spec()],
    )
}

/// What the basis holds for the point `i` once the positions below `upto`
/// have been gone through: the scaled factor of the last other position, or
/// the polynomial without coefficients if there was none.
pub open spec fn basis_factor<F>(domain: Seq<F>, i: int, upto: int) -> Seq<F>
    where F: From<u64> + Neg<Output = F> + Sub<Output = F> + Add<Output = F> + Mul<Output = F>
{
    if last_other(i, upto) < 0 {
        Seq::empty()
    } else {
        scaled_factor(domain, i, last_other(i, upto))
    }
}

/// The polynomial of the basis for the point `i`: its factor multiplied by
/// the value `y_s[i]`.
pub open spec fn basis_entry<F>(domain: Seq<F>, y_s: Seq<F>, i: int) -> Seq<F>
    where F: From<u64> + Neg<Output = F> + Sub<Output = F> + Add<Output = F> + Mul<Output = F>
{
    poly_product(basis_factor(domain, i, domain.len() as int), seq![y_s[i]])
}

/// `numerator` holds what the operations of `F` return for the coefficients
/// of the linear polynomial that vanishes at `root`.
pub open spec fn is_numerator<F: From<u64> + Neg<Output = F>>(root: F, numerator: Seq<F>) -> bool {
    &&& numerator.len() == 2
    &&& is_negation(root, numerator[0])
    &&& is_made_from(1u64, numerator[1])
}

/// `scale` holds what the operations of `F` return for the negated
/// difference `-(a - b)`, as a constant polynomial.
pub open spec fn is_negated_difference<F: Neg<Output = F> + Sub<Output = F>>(
    a: F,
    b: F,
    scale: Seq<F>,
) -> bool {
    &&& scale.len() == 1
    &&& exists|difference: F| is_difference(a, b, difference) && #[trigger] is_negation(
        difference,
        scale[0],
    )
}

/// `factor` holds what the operations of `F` return for the scaled factor
/// of the position `j` for the point `i`.
pub open spec fn is_scaled_factor<F>(domain: Seq<F>, i: int, j: int, factor: Seq<F>) -> bool
    where F: From<u64> + Neg<Output = F> + Sub<Output = F> + Add<Output = F> + Mul<Output = F>
{
    exists|numerator: Seq<F>, scale: Seq<F>|
        is_numerator(domain[j], numerator) && is_negated_difference(domain[i], domain[j], scale)
            && #[trigger] is_poly_product(numerator, scale, factor)
}

/// `factor` holds what the operations of `F` return for what the basis
/// holds for the point `i` once the positions below `upto` have been gone
/// through.
pub open spec fn is_basis_factor<F>(domain: Seq<F>, i: int, upto: int, factor: Seq<F>) -> bool
    where F: From<u64> + Neg<Output = F> + Sub<Output = F> + Add<Output = F> + Mul<Output = F>
{
    if last_other(i, upto) < 0 {
        factor.len() == 0
    } else {
        is_scaled_factor(domain, i, last_other(i, upto), factor)
    }
}

/// `entry` holds what the operations of `F` return for the polynomial of
/// the basis for the point `i`.
pub open spec fn is_basis_entry<F>(domain: Seq<F>, y_s: Seq<F>, i: int, entry: Seq<F>) -> bool
    where F: From<u64> + Neg<Output = F> + Sub<Output = F> + Add<Output = F> + Mul<Output = F>
{
    exists|factor: Seq<F>, value: Seq<F>|
        is_basis_factor(domain, i, domain.len() as int, factor) && value.len() == 1 && value[0]
            == y_s[i] && #[trigger] is_poly_product(factor, value, entry)
}

/// Where the operations of `F` are as `vstd` specifies them, the basis has
/// one polynomial only for a point.
pub proof fn lemma_basis_entry_unique<F>(domain: Seq<F>, y_s: Seq<F>, i: int, entry: Seq<F>)
    where F: From<u64> + Neg<Output = F> + Sub<Output = F> + Add<Output = F> + Mul<Output = F>
    requires
        F::obeys_from_spec(),
        F::obeys_neg_spec(),
        F::obeys_sub_spec(),
        F::obeys_add_spec(),
        F::obeys_mul_spec(),
        is_basis_entry(domain, y_s, i, entry),
    ensures
        entry == basis_entry(domain, y_s, i),
{
    let (factor, value) = choose|factor: Seq<F>, value: Seq<F>|
        is_basis_factor(domain, i, domain.len() as int, factor) && value.len() == 1 && value[0]
            == y_s[i] && #[trigger] is_poly_product(factor, value, entry);
    let j = last_other(i, domain.len() as int);
    if j >= 0 {
        let (numerator, scale) = choose|numerator: Seq<F>, scale: Seq<F>|
            is_numerator(domain[j], numerator) && is_negated_difference(domain[i], domain[j], scale)
                && #[trigger] is_poly_product(numerator, scale, factor);
        lemma_poly_product_unique(numerator, scale, factor);
    }
    lemma_poly_product_unique(factor, value, entry);
}

/// Building the scaled factor of the position `j` for the point `i`
/// performs defined operations only.
pub open spec fn scaled_factor_defined<F>(domain: Seq<F>, i: int, j: int) -> bool
    where F: From<u64> + Neg<Output = F> + Sub<Output = F> + Add<Output = F> + Mul<Output = F>
{
    &&& domain[j].neg_req()
    &&& domain[i].sub_req(domain[j])
    &&& domain[i].sub_spec(domain[j]).neg_req()
    &&& product_defined(
        seq![domain[j].neg_spec(), F::from_spec(1u64)],
        seq![domain[i].sub_spec(domain[j]).neg_spec()],
    )
}

/// Building the polynomial of the basis for the point `i` performs defined
/// operations only: the scaled factor of every other position is built, and
/// the last of them is multiplied by the value of the point.
pub open spec fn basis_entry_defined<F>(domain: Seq<F>, y_s: Seq<F>, i: int) -> bool
    where F: From<u64> + Neg<Output = F> + Sub<Output = F> + Add<Output = F> + Mul<Output = F>
{
    &&& forall|j: int|
        0 <= j < domain.len() && j != i ==> #[trigger] scaled_factor_defined(domain, i, j)
    &&& product_defined(basis_factor(domain, i, domain.len() as int), seq![y_s[i]])
}

/// Every operation that the construction of the basis performs is defined.
pub open spec fn basis_computable<F>(domain: Seq<F>, y_s: Seq<F>) -> bool
    where F: From<u64> + Neg<Output = F> + Sub<Output = F> + Add<Output = F> + Mul<Output = F>
{
    ||| add_total::<F>() && sub_total::<F>() && mul_total::<F>() && neg_total::<F>()
    ||| {
        &&& F::obeys_from_spec()
        &&& F::obeys_neg_spec()
        &&& F::obeys_sub_spec()
        &&& F::obeys_add_spec()
        &&& F::obeys_mul_spec()
        &&& forall|i: int| 0 <= i < domain.len() ==> #[trigger] basis_entry_defined(domain, y_s, i)
    }
}

/// One polynomial for each point of `domain`: the linear polynomial that
/// vanishes at the last other point of the domain, multiplied by the negated
/// difference of the two points and by the value `y_s[i]` of the point. A
/// domain of a single point gives the polynomial without coefficients.
pub fn get_langrange_basis<F>(domain: &Vec<F>, y_s: &Vec<F>) -> (basis: Vec<UnivariantPolynomial<F>>)
    where
        F: From<u64> + Neg<Output = F> + Sub<Output = F> + Add<Output = F> + Mul<Output = F> + Copy,
    requires
        domain@.len() <= y_s@.len(),
        basis_computable(domain@, y_s@),
    ensures
        basis@.len() == domain@.len(),
        forall|i: int|
            0 <= i < basis@.len() ==> is_basis_entry(domain@, y_s@, i, (#[trigger] basis@[i])@),
        F::obeys_from_spec() && F::obeys_neg_spec() && F::obeys_sub_spec() && F::obeys_add_spec()
            && F::obeys_mul_spec() ==> forall|i: int|
            0 <= i < basis@.len() ==> (#[trigger] basis@[i])@ == basis_entry(domain@, y_s@, i),
{
    let n = domain.len();
    let mut basis: Vec<UnivariantPolynomial<F>> = Vec::new();
    let mut i: usize = 0;
    while i < n
        invariant
            n == domain@.len(),
            n <= y_s@.len(),
            i <= n,
            basis@.len() == i,
            basis_computable(domain@, y_s@),
            forall|k: int|
                0 <= k < i ==> is_basis_entry(domain@, y_s@, k, (#[trigger] basis@[k])@),
            F::obeys_from_spec() && F::obeys_neg_spec() && F::obeys_sub_spec()
                && F::obeys_add_spec() && F::obeys_mul_spec() ==> forall|k: int|
                0 <= k < i ==> (#[trigger] basis@[k])@ == basis_entry(domain@, y_s@, k),
        decreases n - i,
    {
        let mut basis_element: UnivariantPolynomial<F> = UnivariantPolynomial::from_coefficients_vec(
            Vec::new(),
        );
        let mut j: usize = 0;
        while j < n
            invariant
                n == domain@.len(),
                i < n,
                j <= n,
                basis_computable(domain@, y_s@),
                basis_element@.len() <= 2,
                is_basis_factor(domain@, i as int, j as int, basis_element@),
                F::obeys_from_spec() && F::obeys_neg_spec() && F::obeys_sub_spec()
                    && F::obeys_add_spec() && F::obeys_mul_spec() ==> basis_element@
                    == basis_factor(domain@, i as int, j as int),
            decreases n - j,
        {
            if i != j {
                proof {
                    let total = add_total::<F>() && sub_total::<F>() && mul_total::<F>()
                        && neg_total::<F>();
                    if !total {
                        assert(basis_entry_defined(domain@, y_s@, i as int));
                        assert(scaled_factor_defined(domain@, i as int, j as int));
                    }
                }
                let root = domain[j];
                let negated_root = root.neg();
                let one = F::from(1u64);
                let numerator = UnivariantPolynomial::from_coefficients_vec(
                    vec![negated_root, one],
                );
                let difference = domain[i] - domain[j];
                let denominator = difference.neg();
                let scale = UnivariantPolynomial::from_coefficients_vec(vec![denominator]);
                proof {
                    if F::obeys_from_spec() && F::obeys_neg_spec() && F::obeys_sub_spec() {
                        assert(scale@ =~= seq![
                            domain@[i as int].sub_spec(domain@[j as int]).neg_spec(),
                        ]);
                    }
                }
                proof {
                    assert(is_negation(difference, scale@[0]));
                }
                basis_element = numerator * scale;
            }
            j = j + 1;
        }
        let value = UnivariantPolynomial::from_coefficients_vec(vec![y_s[i]]);
        proof {
            assert(value@ =~= seq![y_s@[i as int]]);
            let total = add_total::<F>() && sub_total::<F>() && mul_total::<F>() && neg_total::<F>();
            if !total {
                assert(basis_entry_defined(domain@, y_s@, i as int));
            }
        }
        let entry = basis_element * value;
        basis.push(entry);
        i = i + 1;
    }
    basis
}

} // verus!
