use ark_test_curves::bls12_381::Fr;
use std::num::Wrapping;
use zk_circuits::polynomial::composed::multilinear::ComposedMultilinear;
use zk_circuits::polynomial::multilinear::{hypercube_size, Multilinear};
use zk_circuits::polynomial::univariant::UnivariantPolynomial;
use zk_circuits::polynomial::utils::get_langrange_basis;

fn wrapping(values: &[u64]) -> Vec<Wrapping<u64>> {
    values.iter().map(|v| Wrapping(*v)).collect()
}

#[test]
fn test_evaluation() {
    let poly1 = Multilinear::new(
        vec![Fr::from(0), Fr::from(1), Fr::from(2), Fr::from(3)],
        2,
    );
    let poly2 = Multilinear::new(
        vec![Fr::from(0), Fr::from(0), Fr::from(0), Fr::from(1)],
        2,
    );

    let composed = ComposedMultilinear::new(vec![poly1, poly2]);

    let eval = composed.evaluate(&vec![Fr::from(2), Fr::from(3)]);
    assert_eq!(eval, Some(Fr::from(42)));
}

#[test]
fn composed_num_vars_is_that_of_its_polynomials() {
    let poly1 = Multilinear::new(vec![Fr::from(0), Fr::from(1)], 1);
    let poly2 = Multilinear::new(vec![Fr::from(4), Fr::from(5)], 1);
    let composed = ComposedMultilinear::new(vec![poly1, poly2]);
    assert_eq!(composed.num_vars(), 1);
}

#[test]
fn composed_evaluation_needs_a_point_of_the_right_length() {
    let poly1 = Multilinear::new(vec![Fr::from(0), Fr::from(1)], 1);
    let composed = ComposedMultilinear::new(vec![poly1]);
    assert_eq!(composed.evaluate(&vec![Fr::from(2), Fr::from(3)]), None);
    assert_eq!(composed.evaluate(&vec![Fr::from(7)]), Some(Fr::from(7)));
}

#[test]
fn hypercube_size_is_a_power_of_two() {
    assert_eq!(hypercube_size(0), Some(1));
    assert_eq!(hypercube_size(1), Some(2));
    assert_eq!(hypercube_size(10), Some(1024));
    assert_eq!(
        hypercube_size(usize::BITS as usize - 1),
        Some(1usize << (usize::BITS - 1))
    );
    assert_eq!(hypercube_size(usize::BITS as usize), None);
    assert_eq!(hypercube_size(usize::MAX), None);
}

#[test]
fn multilinear_evaluation_interpolates_the_table() {
    // f(a, b) = 2a + b
    let poly = Multilinear::new(
        vec![Fr::from(0), Fr::from(1), Fr::from(2), Fr::from(3)],
        2,
    );
    assert_eq!(poly.num_vars(), 2);
    assert_eq!(poly.evaluate(&vec![Fr::from(2), Fr::from(3)]), Some(Fr::from(7)));
    assert_eq!(poly.evaluate(&vec![Fr::from(0), Fr::from(0)]), Some(Fr::from(0)));
    assert_eq!(poly.evaluate(&vec![Fr::from(0), Fr::from(1)]), Some(Fr::from(1)));
    assert_eq!(poly.evaluate(&vec![Fr::from(1), Fr::from(0)]), Some(Fr::from(2)));
    assert_eq!(poly.evaluate(&vec![Fr::from(1), Fr::from(1)]), Some(Fr::from(3)));
}

#[test]
fn multilinear_evaluation_over_wrapping_integers() {
    // f(a, b, c) = 1 + 4a + 2b + c
    let poly = Multilinear::new(wrapping(&[1, 2, 3, 4, 5, 6, 7, 8]), 3);
    assert_eq!(
        poly.evaluate(&wrapping(&[2, 3, 5])),
        Some(Wrapping(1 + 8 + 6 + 5))
    );
    // f(a, b) = 9 - 4a - 3b + 8ab
    let poly = Multilinear::new(wrapping(&[9, 6, 5, 10]), 2);
    assert_eq!(poly.evaluate(&wrapping(&[1, 1])), Some(Wrapping(10)));
    assert_eq!(poly.evaluate(&wrapping(&[2, 3])), Some(Wrapping(40)));
}

#[test]
fn multilinear_of_no_variables_is_its_only_value() {
    let poly = Multilinear::new(vec![Fr::from(9)], 0);
    assert_eq!(poly.evaluate(&vec![]), Some(Fr::from(9)));
}

#[test]
fn multilinear_evaluation_rejects_malformed_input() {
    let poly = Multilinear::new(
        vec![Fr::from(0), Fr::from(1), Fr::from(2), Fr::from(3)],
        2,
    );
    assert_eq!(poly.evaluate(&vec![Fr::from(2)]), None);
    assert_eq!(
        poly.evaluate(&vec![Fr::from(2), Fr::from(3), Fr::from(4)]),
        None
    );
    let malformed = Multilinear {
        evaluations: vec![Fr::from(0), Fr::from(1), Fr::from(2)],
        num_vars: 2,
    };
    assert_eq!(malformed.evaluate(&vec![Fr::from(2), Fr::from(3)]), None);
}

#[test]
fn univariate_evaluation_follows_horner() {
    // 1 + 3x + 2x^2 at x = 5
    let poly = UnivariantPolynomial::from_coefficients_vec(vec![
        Fr::from(1),
        Fr::from(3),
        Fr::from(2),
    ]);
    assert_eq!(poly.evaluate(&Fr::from(5u64)), Fr::from(66));
    let empty = UnivariantPolynomial::<Fr>::from_coefficients_vec(vec![]);
    assert_eq!(empty.evaluate(&Fr::from(5u64)), Fr::from(0));
    let constant = UnivariantPolynomial::from_coefficients_vec(vec![Fr::from(4)]);
    assert_eq!(constant.evaluate(&Fr::from(3u64)), Fr::from(4));
}

#[test]
fn univariate_sum_keeps_the_longer_tail() {
    let a = UnivariantPolynomial::from_coefficients_vec(wrapping(&[1, 2, 3]));
    let b = UnivariantPolynomial::from_coefficients_vec(wrapping(&[10, 20]));
    assert_eq!((a.clone() + b.clone()).coefficients, wrapping(&[11, 22, 3]));
    assert_eq!((b + a).coefficients, wrapping(&[11, 22, 3]));
}

#[test]
fn univariate_product_is_the_convolution() {
    // (1 + 2x)(3 + 4x + 5x^2) = 3 + 10x + 13x^2 + 10x^3
    let a = UnivariantPolynomial::from_coefficients_vec(wrapping(&[1, 2]));
    let b = UnivariantPolynomial::from_coefficients_vec(wrapping(&[3, 4, 5]));
    assert_eq!((a.clone() * b.clone()).coefficients, wrapping(&[3, 10, 13, 10]));
    assert_eq!((b * a.clone()).coefficients, wrapping(&[3, 10, 13, 10]));
    let empty = UnivariantPolynomial::from_coefficients_vec(wrapping(&[]));
    assert_eq!((a * empty).coefficients, wrapping(&[]));
}

#[test]
fn univariate_scaling_multiplies_every_coefficient() {
    let a = UnivariantPolynomial::from_coefficients_vec(wrapping(&[1, 2, 3]));
    assert_eq!((a * Wrapping(7u64)).coefficients, wrapping(&[7, 14, 21]));
}

#[test]
fn langrange_basis_scales_the_last_other_factor() {
    let domain = vec![Fr::from(1), Fr::from(2), Fr::from(4)];
    let y_s = vec![Fr::from(3), Fr::from(5), Fr::from(7)];
    let basis = get_langrange_basis(&domain, &y_s);
    assert_eq!(basis.len(), 3);
    // i = 0, last other point 4: (x - 4) * -(1 - 4) * 3 = 9x - 36
    assert_eq!(basis[0].coefficients, vec![Fr::from(-36), Fr::from(9)]);
    // i = 1, last other point 4: (x - 4) * -(2 - 4) * 5 = 10x - 40
    assert_eq!(basis[1].coefficients, vec![Fr::from(-40), Fr::from(10)]);
    // i = 2, last other point 2: (x - 2) * -(4 - 2) * 7 = -14x + 28
    assert_eq!(basis[2].coefficients, vec![Fr::from(28), Fr::from(-14)]);
}

#[test]
fn langrange_basis_of_a_single_point_has_no_coefficients() {
    let basis = get_langrange_basis(&vec![Fr::from(1)], &vec![Fr::from(3)]);
    assert_eq!(basis.len(), 1);
    assert_eq!(basis[0].coefficients, Vec::<Fr>::new());
    let none = get_langrange_basis::<Fr>(&vec![], &vec![]);
    assert_eq!(none.len(), 0);
}
