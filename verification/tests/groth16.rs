use ark_ec::{AffineRepr, Group};
use ark_ff::PrimeField;
use ark_test_curves::bls12_381::{Fr, G1Projective, G2Projective};
use std::num::Wrapping;
use zk_circuits::groth16::utils::{
    compute_l_i_of_tau_g1, generate_powers_of_tau_g1, generate_powers_of_tau_g1_alpha_or_beta,
    generate_powers_of_tau_g2, generate_t_poly, linear_combination_from,
    linear_combination_homomorphic_poly_eval_g1,
};
use zk_circuits::polynomial::univariant::UnivariantPolynomial;

#[test]
fn test_generate_t_poly() {
    // t(x) = (x-1)(x-2)
    let number_of_constraints = 2;
    let t = generate_t_poly::<Fr>(number_of_constraints);

    let expected_t = UnivariantPolynomial::from_coefficients_vec(vec![
        Fr::from(2),
        Fr::from(-3),
        Fr::from(1),
    ]);

    assert_eq!(t, expected_t);
}

#[test]
fn test_generate_t_poly_0() {
    // t(x) = (x-1)(x-2)(x-3)
    let number_of_constraints = 3;
    let t = generate_t_poly::<Fr>(number_of_constraints);

    let expected_t = UnivariantPolynomial::from_coefficients_vec(vec![
        Fr::from(-6),
        Fr::from(11),
        Fr::from(-6),
        Fr::from(1),
    ]);

    assert_eq!(t, expected_t);
}

#[test]
fn test_linear_combination_homomorphic_poly_eval_g1() {
    let powers_of_tau_g1 =
        generate_powers_of_tau_g1::<Fr, G1Projective>(Fr::from(5u64), 3, G1Projective::generator());
    // f(tau).G1 when tau = 5 is know and f(x) = 2x^2 + 3x + 1
    let poly = UnivariantPolynomial::from_coefficients_vec(vec![
        Fr::from(1),
        Fr::from(3),
        Fr::from(2),
    ]);
    let res = linear_combination_homomorphic_poly_eval_g1::<Fr, G1Projective>(
        &poly,
        powers_of_tau_g1,
    );

    let generator = ark_test_curves::bls12_381::g1::G1Affine::generator();
    let poly_at_tau = poly.evaluate(&Fr::from(5u64));
    let expected_res = generator.mul_bigint(poly_at_tau.into_bigint());

    assert_eq!(res, expected_res);
}

#[test]
fn test_compute_l_i_of_tau_g1() {
    let a_i = UnivariantPolynomial::from_coefficients_vec(vec![Fr::from(1), Fr::from(2)]);
    let b_i = UnivariantPolynomial::from_coefficients_vec(vec![Fr::from(3), Fr::from(4)]);
    let c_i = UnivariantPolynomial::from_coefficients_vec(vec![Fr::from(5), Fr::from(6)]);

    let alpha = Fr::from(5);
    let beta = Fr::from(7);
    let tau = Fr::from(4);

    let g = G1Projective::generator();
    let alpha_t_g1 = generate_powers_of_tau_g1_alpha_or_beta::<Fr, G1Projective>(tau, alpha, 3, g);
    let beta_t_g1 = generate_powers_of_tau_g1_alpha_or_beta::<Fr, G1Projective>(tau, beta, 3, g);
    let t_g1 = generate_powers_of_tau_g1::<Fr, G1Projective>(tau, 3, g);

    let l_of_i = (a_i.clone() * beta) + (b_i.clone() * alpha) + c_i.clone();
    let l_of_i_at_tau = l_of_i.evaluate(&tau);

    let generator_1 = ark_test_curves::bls12_381::g1::G1Affine::generator();

    let expected_res = generator_1.mul_bigint(l_of_i_at_tau.into_bigint());

    let res = compute_l_i_of_tau_g1::<Fr, G1Projective>(
        &a_i, &b_i, &c_i, alpha_t_g1, beta_t_g1, t_g1,
    );

    assert_eq!(res, expected_res);
}

#[test]
fn t_poly_of_no_constraints_is_one() {
    let t = generate_t_poly::<Fr>(0);
    assert_eq!(t.coefficients, vec![Fr::from(1)]);
    let t = generate_t_poly::<Fr>(1);
    assert_eq!(t.coefficients, vec![Fr::from(-1), Fr::from(1)]);
}

#[test]
fn powers_of_tau_are_the_generator_times_each_power() {
    let g = G1Projective::generator();
    let tau = Fr::from(5u64);
    let powers = generate_powers_of_tau_g1::<Fr, G1Projective>(tau, 4, g);
    assert_eq!(powers.len(), 4);
    assert_eq!(powers[0], g);
    assert_eq!(powers[1], g.mul_bigint(Fr::from(5u64).into_bigint()));
    assert_eq!(powers[2], g.mul_bigint(Fr::from(25u64).into_bigint()));
    assert_eq!(powers[3], g.mul_bigint(Fr::from(125u64).into_bigint()));
}

#[test]
fn powers_of_tau_always_hold_the_generator() {
    let g = G1Projective::generator();
    let powers = generate_powers_of_tau_g1::<Fr, G1Projective>(Fr::from(5u64), 0, g);
    assert_eq!(powers, vec![g]);
    let powers = generate_powers_of_tau_g1::<Fr, G1Projective>(Fr::from(5u64), 1, g);
    assert_eq!(powers, vec![g]);
}

#[test]
fn powers_of_tau_in_the_second_group() {
    let g = G2Projective::generator();
    let powers = generate_powers_of_tau_g2::<Fr, G2Projective>(Fr::from(3u64), 3, g);
    assert_eq!(powers.len(), 3);
    assert_eq!(powers[0], g);
    assert_eq!(powers[1], g.mul_bigint(Fr::from(3u64).into_bigint()));
    assert_eq!(powers[2], g.mul_bigint(Fr::from(9u64).into_bigint()));
}

#[test]
fn powers_of_tau_times_alpha() {
    let g = G1Projective::generator();
    let tau = Fr::from(4u64);
    let alpha = Fr::from(5u64);
    let powers = generate_powers_of_tau_g1_alpha_or_beta::<Fr, G1Projective>(tau, alpha, 3, g);
    assert_eq!(powers.len(), 3);
    assert_eq!(powers[0], g.mul_bigint(Fr::from(5u64).into_bigint()));
    assert_eq!(powers[1], g.mul_bigint(Fr::from(20u64).into_bigint()));
    assert_eq!(powers[2], g.mul_bigint(Fr::from(80u64).into_bigint()));
    let single = generate_powers_of_tau_g1_alpha_or_beta::<Fr, G1Projective>(tau, alpha, 0, g);
    assert_eq!(single, vec![g.mul_bigint(Fr::from(5u64).into_bigint())]);
}

#[test]
fn linear_combination_over_wrapping_integers() {
    // 100 + 2 * 3 + 5 * 4 + 7 * 1
    let poly =
        UnivariantPolynomial::from_coefficients_vec(vec![Wrapping(3u64), Wrapping(4), Wrapping(1)]);
    let powers = vec![Wrapping(2u64), Wrapping(5), Wrapping(7), Wrapping(11)];
    let sum = linear_combination_from(Wrapping(100u64), &poly, &powers);
    assert_eq!(sum, Wrapping(133));
    let sum = linear_combination_homomorphic_poly_eval_g1(&poly, powers);
    assert_eq!(sum, Wrapping(33));
}
