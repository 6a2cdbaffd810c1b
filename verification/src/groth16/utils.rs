//! Powers of the setup secret in a group, and polynomials evaluated "in the
//! exponent" over them.

use crate::algebra::{
    add_total, is_default, is_made_from, is_negation, is_product, is_scaled, is_sum, mul_total,
    neg_total, scaling_total,
};
use crate::polynomial::univariant::{
    is_poly_product, lemma_poly_product_unique, poly_product, product_defined, UnivariantPolynomial,
};
use core::ops::{Add, Mul, Neg};
use vstd::prelude::*;
use vstd::std_specs::convert::FromSpec;
use vstd::std_specs::ops::{AddSpec, MulSpec, NegSpec};

verus! {

/// The sum of `powers[i] * coefficients[i]` over the first `count`
/// coefficients, added one after the other onto `start`.
pub open spec fn combination<F, G: Add<Output = G> + Mul<F, Output = G>>(
    start: G,
    coefficients: Seq<F>,
    powers: Seq<G>,
    count: nat,
) -> G
    decreases count,
{
    if count == 0 {
        start
    } else {
        combination(start, coefficients, powers, (count - 1) as nat).add_spec(
            powers[count - 1].mul_spec(coefficients[count - 1]),
        )
    }
}

/// `sum` is what the operations of `G` return for the sum of
/// `powers[i] * coefficients[i]` over the first `count` coefficients, added
/// one after the other onto `start`.
pub open spec fn is_combination_from<F, G: Add<Output = G> + Mul<F, Output = G>>(
    start: G,
    coefficients: Seq<F>,
    powers: Seq<G>,
    count: nat,
    sum: G,
) -> bool
    decreases count,
{
    if count == 0 {
        sum == start
    } else {
        exists|before: G, term: G|
            is_combination_from(start, coefficients, powers, (count - 1) as nat, before)
                && is_scaled(powers[count - 1], coefficients[count - 1], term) && #[trigger] is_sum(
                before,
                term,
                sum,
            )
    }
}

/// Where the operations of `G` are as `vstd` specifies them, a combination
/// has one value only.
pub proof fn lemma_combination_unique<F, G: Add<Output = G> + Mul<F, Output = G>>(
    start: G,
    coefficients: Seq<F>,
    powers: Seq<G>,
    count: nat,
    sum: G,
)
    requires
        G::obeys_add_spec(),
        <G as MulSpec<F>>::obeys_mul_spec(),
        is_combination_from(start, coefficients, powers, count, sum),
    ensures
        sum == combination(start, coefficients, powers, count),
    decreases count,
{
    if count > 0 {
        let (before, term) = choose|before: G, term: G|
            is_combination_from(start, coefficients, powers, (count - 1) as nat, before)
                && is_scaled(powers[count - 1], coefficients[count - 1], term) && #[trigger] is_sum(
                before,
                term,
                sum,
            );
        lemma_combination_unique(start, coefficients, powers, (count - 1) as nat, before);
    }
}

/// Adding up the first `count` terms of the combination onto `start`
/// performs defined operations only.
pub open spec fn combination_defined<F, G: Add<Output = G> + Mul<F, Output = G>>(
    start: G,
    coefficients: Seq<F>,
    powers: Seq<G>,
    count: nat,
) -> bool
    decreases count,
{
    count > 0 ==> {
        &&& combination_defined(start, coefficients, powers, (count - 1) as nat)
        &&& powers[count - 1].mul_req(coefficients[count - 1])
        &&& combination(start, coefficients, powers, (count - 1) as nat).add_req(
            powers[count - 1].mul_spec(coefficients[count - 1]),
        )
    }
}

/// Every operation that the combination performs is defined: either the
/// operations of the group are defined on all values, or they are as `vstd`
/// specifies them and defined on the values that the combination meets.
pub open spec fn combination_computable<F, G: Add<Output = G> + Mul<F, Output = G>>(
    start: G,
    coefficients: Seq<F>,
    powers: Seq<G>,
) -> bool {
    ||| add_total::<G>() && scaling_total::<F, G>()
    ||| G::obeys_add_spec() && <G as MulSpec<F>>::obeys_mul_spec() && combination_defined(
        start,
        coefficients,
        powers,
        coefficients.len(),
    )
}

/// `sum` is what the operations of `G` return for the combination of
/// `powers` with the coefficients of a polynomial, added onto a default
/// value of `G`.
pub open spec fn is_combination<F, G: Default + Add<Output = G> + Mul<F, Output = G>>(
    sum: G,
    coefficients: Seq<F>,
    powers: Seq<G>,
) -> bool {
    exists|start: G|
        is_default(start) && #[trigger] is_combination_from(
            start,
            coefficients,
            powers,
            coefficients.len(),
            sum,
        )
}

/// Where the operations of `G` are as `vstd` specifies them, a combination
/// onto a default value of `G` is the one that they specify.
pub proof fn lemma_combination_value<F, G: Default + Add<Output = G> + Mul<F, Output = G>>(
    sum: G,
    coefficients: Seq<F>,
    powers: Seq<G>,
)
    requires
        G::obeys_add_spec(),
        <G as MulSpec<F>>::obeys_mul_spec(),
        is_combination(sum, coefficients, powers),
    ensures
        exists|start: G|
            is_default(start) && sum == #[trigger] combination(
                start,
                coefficients,
                powers,
                coefficients.len(),
            ),
{
    let start = choose|start: G|
        is_default(start) && #[trigger] is_combination_from(
            start,
            coefficients,
            powers,
            coefficients.len(),
            sum,
        );
    lemma_combination_unique(start, coefficients, powers, coefficients.len(), sum);
}

/// The combination is computable from whatever `G` gives as its default
/// value.
pub open spec fn default_combination_computable<
    F,
    G: Default + Add<Output = G> + Mul<F, Output = G>,
>(coefficients: Seq<F>, powers: Seq<G>) -> bool {
    forall|start: G| #[trigger]
        is_default(start) ==> combination_computable(start, coefficients, powers)
}

proof fn lemma_combination_defined_prefix<F, G: Add<Output = G> + Mul<F, Output = G>>(
    start: G,
    coefficients: Seq<F>,
    powers: Seq<G>,
    count: nat,
    upto: nat,
)
    requires
        upto <= count,
        combination_defined(start, coefficients, powers, count),
    ensures
        combination_defined(start, coefficients, powers, upto),
    decreases count,
{
    if upto < count {
        lemma_combination_defined_prefix(start, coefficients, powers, (count - 1) as nat, upto);
    }
}

/// The combination of `powers` with the coefficients of `poly`, added onto
/// `start`.
pub fn linear_combination_from<F, G>(
    start: G,
    poly: &UnivariantPolynomial<F>,
    powers: &Vec<G>,
) -> (sum: G)
    where F: Copy, G: Add<Output = G> + Mul<F, Output = G> + Copy
    requires
        poly@.len() <= powers@.len(),
        combination_computable(start, poly@, powers@),
    ensures
        is_combination_from(start, poly@, powers@, poly@.len(), sum),
        G::obeys_add_spec() && <G as MulSpec<F>>::obeys_mul_spec() ==> sum == combination(
            start,
            poly@,
            powers@,
            poly@.len(),
        ),
{
    let n = poly.coefficients.len();
    let mut acc = start;
    let mut index: usize = 0;
    while index < n
        invariant
            n == poly@.len(),
            n <= powers@.len(),
            index <= n,
            combination_computable(start, poly@, powers@),
            is_combination_from(start, poly@, powers@, index as nat, acc),
            G::obeys_add_spec() && <G as MulSpec<F>>::obeys_mul_spec() ==> acc == combination(
                start,
                poly@,
                powers@,
                index as nat,
            ),
        decreases n - index,
    {
        proof {
            if !(add_total::<G>() && scaling_total::<F, G>()) {
                lemma_combination_defined_prefix(
                    start,
                    poly@,
                    powers@,
                    n as nat,
                    (index + 1) as nat,
                );
            }
        }
        let ghost before = acc;
        let res = powers[index] * poly.coefficients[index];
        acc = acc + res;
        proof {
            assert(is_sum(before, res, acc));
        }
        index = index + 1;
    }
    acc
}

/// The value of `poly` at the setup secret, in the group: the sum of
/// `powers_of_secret_gx[i]` times the `i`-th coefficient of `poly`.
pub fn linear_combination_homomorphic_poly_eval_g1<F, G>(
    poly: &UnivariantPolynomial<F>,
    powers_of_secret_gx: Vec<G>,
) -> (sum: G)
    where F: Copy, G: Default + Add<Output = G> + Mul<F, Output = G> + Copy
    requires
        poly@.len() <= powers_of_secret_gx@.len(),
        default_combination_computable::<F, G>(poly@, powers_of_secret_gx@),
    ensures
        is_combination(sum, poly@, powers_of_secret_gx@),
{
    let start = G::default();
    proof {
        assert(is_default(start));
    }
    linear_combination_from(start, poly, &powers_of_secret_gx)
}

/// The linear polynomial `x - i`, written with the one of `F`: the values
/// that `F` makes of the integers `i` and 1.
pub open spec fn root_factor<F: From<u64> + Neg<Output = F>>(i: nat) -> Seq<F> {
    seq![F::from_spec(i as u64).neg_spec(), F::from_spec(1u64)]
}

/// The coefficients of `(x - 1)(x - 2) ... (x - n)`, multiplied out from the
/// left starting with the constant polynomial one.
pub open spec fn t_poly<F: From<u64> + Neg<Output = F> + Add<Output = F> + Mul<Output = F>>(
    n: nat,
) -> Seq<F>
    decreases n,
{
    if n == 0 {
        seq![F::from_spec(1u64)]
    } else {
        poly_product(t_poly::<F>((n - 1) as nat), root_factor::<F>(n))
    }
}

/// `factor` holds what the operations of `F` return for the coefficients
/// of the linear polynomial `x - i`.
pub open spec fn is_root_factor<F: From<u64> + Neg<Output = F>>(i: nat, factor: Seq<F>) -> bool {
    &&& factor.len() == 2
    &&& exists|root: F| is_made_from(i as u64, root) && #[trigger] is_negation(root, factor[0])
    &&& is_made_from(1u64, factor[1])
}

/// `t` holds what the operations of `F` return for the coefficients of
/// `(x - 1)(x - 2) ... (x - n)`, multiplied out from the left starting with
/// the constant polynomial one.
pub open spec fn is_t_poly<F: From<u64> + Neg<Output = F> + Add<Output = F> + Mul<Output = F>>(
    n: nat,
    t: Seq<F>,
) -> bool
    decreases n,
{
    if n == 0 {
        t.len() == 1 && is_made_from(1u64, t[0])
    } else {
        exists|before: Seq<F>, factor: Seq<F>|
            is_t_poly((n - 1) as nat, before) && is_root_factor(n, factor)
                && #[trigger] is_poly_product(before, factor, t)
    }
}

/// Where the operations of `F` are as `vstd` specifies them, the polynomial
/// has the coefficients that they specify.
pub proof fn lemma_t_poly_unique<F: From<u64> + Neg<Output = F> + Add<Output = F> + Mul<Output = F>>(
    n: nat,
    t: Seq<F>,
)
    requires
        F::obeys_from_spec(),
        F::obeys_neg_spec(),
        F::obeys_add_spec(),
        F::obeys_mul_spec(),
        is_t_poly(n, t),
    ensures
        t == t_poly::<F>(n),
    decreases n,
{
    if n > 0 {
        let (before, factor) = choose|before: Seq<F>, factor: Seq<F>|
            is_t_poly((n - 1) as nat, before) && is_root_factor(n, factor)
                && #[trigger] is_poly_product(before, factor, t);
        lemma_t_poly_unique((n - 1) as nat, before);
        assert(factor =~= root_factor::<F>(n));
        lemma_poly_product_unique(before, factor, t);
    }
}

/// Multiplying out `(x - 1)(x - 2) ... (x - n)` performs defined operations
/// only.
pub open spec fn t_poly_defined<F: From<u64> + Neg<Output = F> + Add<Output = F> + Mul<Output = F>>(
    n: nat,
) -> bool
    decreases n,
{
    n > 0 ==> {
        &&& t_poly_defined::<F>((n - 1) as nat)
        &&& F::from_spec(n as u64).neg_req()
        &&& product_defined(t_poly::<F>((n - 1) as nat), root_factor::<F>(n))
    }
}

/// Every operation that the construction of the polynomial performs is
/// defined.
pub open spec fn t_poly_computable<
    F: From<u64> + Neg<Output = F> + Add<Output = F> + Mul<Output = F>,
>(n: nat) -> bool {
    ||| add_total::<F>() && mul_total::<F>() && neg_total::<F>()
    ||| F::obeys_from_spec() && F::obeys_neg_spec() && F::obeys_add_spec() && F::obeys_mul_spec()
        && t_poly_defined::<F>(n)
}

/// `t_poly(n)` has `n + 1` coefficients.
pub proof fn lemma_t_poly_len<F: From<u64> + Neg<Output = F> + Add<Output = F> + Mul<Output = F>>(
    n: nat,
)
    ensures
        t_poly::<F>(n).len() == n + 1,
    decreases n,
{
    if n > 0 {
        lemma_t_poly_len::<F>((n - 1) as nat);
    }
}

proof fn lemma_t_poly_defined_prefix<
    F: From<u64> + Neg<Output = F> + Add<Output = F> + Mul<Output = F>,
>(n: nat, upto: nat)
    requires
        upto <= n,
        t_poly_defined::<F>(n),
    ensures
        t_poly_defined::<F>(upto),
    decreases n,
{
    if upto < n {
        lemma_t_poly_defined_prefix::<F>((n - 1) as nat, upto);
    }
}

/// The polynomial that vanishes at the constraints `1, 2, ...,
/// number_of_constraints`: `t(x) = (x - 1)(x - 2) ... (x - n)`.
pub fn generate_t_poly<F>(number_of_constraints: usize) -> (t: UnivariantPolynomial<F>)
    where F: From<u64> + Neg<Output = F> + Add<Output = F> + Mul<Output = F> + Copy
    requires
        number_of_constraints < usize::MAX,
        t_poly_computable::<F>(number_of_constraints as nat),
    ensures
        t@.len() == number_of_constraints + 1,
        is_t_poly(number_of_constraints as nat, t@),
        F::obeys_from_spec() && F::obeys_neg_spec() && F::obeys_add_spec() && F::obeys_mul_spec()
            ==> t@ == t_poly::<F>(number_of_constraints as nat),
{
    let one = F::from(1u64);
    let mut t = UnivariantPolynomial::from_coefficients_vec(vec![one]);
    let mut i: usize = 1;
    while i < number_of_constraints + 1
        invariant
            1 <= i <= number_of_constraints + 1,
            number_of_constraints < usize::MAX,
            t_poly_computable::<F>(number_of_constraints as nat),
            t@.len() == i,
            is_t_poly((i - 1) as nat, t@),
            F::obeys_from_spec() && F::obeys_neg_spec() && F::obeys_add_spec()
                && F::obeys_mul_spec() ==> t@ == t_poly::<F>((i - 1) as nat),
        decreases number_of_constraints + 1 - i,
    {
        proof {
            if !(add_total::<F>() && mul_total::<F>() && neg_total::<F>()) {
                lemma_t_poly_defined_prefix::<F>(number_of_constraints as nat, i as nat);
            }
        }
        let root = F::from(i as u64);
        let negated_root = root.neg();
        let one = F::from(1u64);
        let factor = UnivariantPolynomial::from_coefficients_vec(vec![negated_root, one]);
        t = t * factor;
        proof {
            assert(is_negation(root, factor@[0]));
        }
        i = i + 1;
    }
    t
}

/// The `exponent`-th power of `tau`, multiplied up from `tau` itself.
pub open spec fn power<F: Mul<Output = F>>(tau: F, exponent: nat) -> F
    decreases exponent,
{
    if exponent <= 1 {
        tau
    } else {
        power(tau, (exponent - 1) as nat).mul_spec(tau)
    }
}

/// `value` is what the multiplication of `F` returns for the `exponent`-th
/// power of `tau`, multiplied up from `tau` itself.
pub open spec fn is_power<F: Mul<Output = F>>(tau: F, exponent: nat, value: F) -> bool
    decreases exponent,
{
    if exponent <= 1 {
        value == tau
    } else {
        exists|before: F|
            is_power(tau, (exponent - 1) as nat, before) && #[trigger] is_product(
                before,
                tau,
                value,
            )
    }
}

/// `element` is what the operations return for `generator` times the
/// `exponent`-th power of `tau`.
pub open spec fn is_power_in_group<F: Mul<Output = F>, G: Mul<F, Output = G>>(
    tau: F,
    generator: G,
    exponent: nat,
    element: G,
) -> bool {
    exists|tau_power: F| #[trigger]
        is_power(tau, exponent, tau_power) && is_scaled(generator, tau_power, element)
}

/// `element` is what the operations return for `generator` times the
/// `exponent`-th power of `tau`, times `alpha_or_beta`.
pub open spec fn is_scaled_power_in_group<F: Mul<Output = F>, G: Mul<F, Output = G>>(
    tau: F,
    alpha_or_beta: F,
    generator: G,
    exponent: nat,
    element: G,
) -> bool {
    exists|unscaled: G| #[trigger]
        is_power_in_group(tau, generator, exponent, unscaled) && is_scaled(
            unscaled,
            alpha_or_beta,
            element,
        )
}

/// Where the multiplication of `F` is as `vstd` specifies it, a power has
/// one value only.
pub proof fn lemma_power_unique<F: Mul<Output = F>>(tau: F, exponent: nat, value: F)
    requires
        F::obeys_mul_spec(),
        is_power(tau, exponent, value),
    ensures
        value == power(tau, exponent),
    decreases exponent,
{
    if exponent > 1 {
        let before = choose|before: F|
            is_power(tau, (exponent - 1) as nat, before) && #[trigger] is_product(
                before,
                tau,
                value,
            );
        lemma_power_unique(tau, (exponent - 1) as nat, before);
    }
}

/// How many group elements the setup makes for `n` powers: the first is made
/// even when `n` is 0.
pub open spec fn powers_count(n: usize) -> int {
    if n == 0 {
        1
    } else {
        n as int
    }
}

/// Every operation that the construction of `n` powers of `tau` over
/// `generator` performs is defined: each power of `tau` below the `n`-th can
/// be multiplied onto the generator and by `tau`.
pub open spec fn powers_computable<F: Mul<Output = F>, G: Mul<F, Output = G>>(
    tau: F,
    n: usize,
    generator: G,
) -> bool {
    ||| mul_total::<F>() && scaling_total::<F, G>()
    ||| F::obeys_mul_spec() && forall|i: nat|
        1 <= i < n ==> generator.mul_req(#[trigger] power(tau, i)) && power(tau, i).mul_req(tau)
}

/// The powers of `tau` in the group generated by `generator`: the generator
/// itself, then the generator times `tau`, `tau^2`, ..., `tau^(n - 1)`. The
/// generator is always there, also when `n` is 0.
pub fn generate_powers_of_tau_g1<F, G>(tau: F, n: usize, generator: G) -> (powers: Vec<G>)
    where F: Mul<Output = F> + Copy, G: Mul<F, Output = G> + Copy
    requires
        powers_computable(tau, n, generator),
    ensures
        powers@.len() == powers_count(n),
        powers@[0] == generator,
        forall|i: int|
            1 <= i < powers@.len() ==> is_power_in_group(
                tau,
                generator,
                i as nat,
                #[trigger] powers@[i],
            ),
        F::obeys_mul_spec() && <G as MulSpec<F>>::obeys_mul_spec() ==> forall|i: int|
            1 <= i < powers@.len() ==> #[trigger] powers@[i] == generator.mul_spec(
                power(tau, i as nat),
            ),
{
    let mut powers_of_tau: Vec<G> = Vec::with_capacity(n);
    let mut tau_power = tau;
    powers_of_tau.push(generator);
    let mut i: usize = 1;
    while i < n
        invariant
            1 <= i,
            n == 0 ==> i == 1,
            n > 0 ==> i <= n,
            powers_computable(tau, n, generator),
            powers_of_tau@.len() == i,
            powers_of_tau@[0] == generator,
            is_power(tau, i as nat, tau_power),
            F::obeys_mul_spec() ==> tau_power == power(tau, i as nat),
            forall|j: int|
                1 <= j < i ==> is_power_in_group(
                    tau,
                    generator,
                    j as nat,
                    #[trigger] powers_of_tau@[j],
                ),
            F::obeys_mul_spec() && <G as MulSpec<F>>::obeys_mul_spec() ==> forall|j: int|
                1 <= j < i ==> #[trigger] powers_of_tau@[j] == generator.mul_spec(
                    power(tau, j as nat),
                ),
        decreases n - i,
    {
        let element = generator * tau_power;
        powers_of_tau.push(element);
        let ghost before = tau_power;
        tau_power = tau_power * tau;
        proof {
            assert(is_product(before, tau, tau_power));
        }
        i = i + 1;
    }
    powers_of_tau
}

/// The powers of `tau` in a second group: as `generate_powers_of_tau_g1`,
/// over the generator of that group.
pub fn generate_powers_of_tau_g2<F, G>(tau: F, n: usize, generator: G) -> (powers: Vec<G>)
    where F: Mul<Output = F> + Copy, G: Mul<F, Output = G> + Copy
    requires
        powers_computable(tau, n, generator),
    ensures
        powers@.len() == powers_count(n),
        powers@[0] == generator,
        forall|i: int|
            1 <= i < powers@.len() ==> is_power_in_group(
                tau,
                generator,
                i as nat,
                #[trigger] powers@[i],
            ),
        F::obeys_mul_spec() && <G as MulSpec<F>>::obeys_mul_spec() ==> forall|i: int|
            1 <= i < powers@.len() ==> #[trigger] powers@[i] == generator.mul_spec(
                power(tau, i as nat),
            ),
{
    generate_powers_of_tau_g1(tau, n, generator)
}

/// Every operation that the construction of `n` powers of `tau` over
/// `generator`, each multiplied by `alpha_or_beta`, performs is defined.
pub open spec fn scaled_powers_computable<F: Mul<Output = F>, G: Mul<F, Output = G>>(
    tau: F,
    alpha_or_beta: F,
    n: usize,
    generator: G,
) -> bool {
    ||| mul_total::<F>() && scaling_total::<F, G>()
    ||| {
        &&& F::obeys_mul_spec()
        &&& <G as MulSpec<F>>::obeys_mul_spec()
        &&& generator.mul_req(alpha_or_beta)
        &&& forall|i: nat|
            1 <= i < n ==> {
                &&& generator.mul_req(#[trigger] power(tau, i))
                &&& generator.mul_spec(power(tau, i)).mul_req(alpha_or_beta)
                &&& power(tau, i).mul_req(tau)
            }
    }
}

/// The powers of `tau` in the group, each multiplied by `alpha_or_beta`: the
/// generator times `alpha_or_beta`, then the generator times `tau^i` times
/// `alpha_or_beta` for `i` from 1 to `n - 1`. The first is always there.
pub fn generate_powers_of_tau_g1_alpha_or_beta<F, G>(
    tau: F,
    alpha_or_beta: F,
    n: usize,
    generator: G,
) -> (powers: Vec<G>)
    where F: Mul<Output = F> + Copy, G: Mul<F, Output = G> + Copy
    requires
        scaled_powers_computable(tau, alpha_or_beta, n, generator),
    ensures
        powers@.len() == powers_count(n),
        is_scaled(generator, alpha_or_beta, powers@[0]),
        forall|i: int|
            1 <= i < powers@.len() ==> is_scaled_power_in_group(
                tau,
                alpha_or_beta,
                generator,
                i as nat,
                #[trigger] powers@[i],
            ),
        <G as MulSpec<F>>::obeys_mul_spec() ==> powers@[0] == generator.mul_spec(alpha_or_beta),
        F::obeys_mul_spec() && <G as MulSpec<F>>::obeys_mul_spec() ==> forall|i: int|
            1 <= i < powers@.len() ==> #[trigger] powers@[i] == generator.mul_spec(
                power(tau, i as nat),
            ).mul_spec(alpha_or_beta),
{
    let mut powers: Vec<G> = Vec::with_capacity(n);
    let mut tau_power = tau;
    powers.push(generator * alpha_or_beta);
    let mut i: usize = 1;
    while i < n
        invariant
            1 <= i,
            n == 0 ==> i == 1,
            n > 0 ==> i <= n,
            scaled_powers_computable(tau, alpha_or_beta, n, generator),
            powers@.len() == i,
            is_scaled(generator, alpha_or_beta, powers@[0]),
            is_power(tau, i as nat, tau_power),
            forall|j: int|
                1 <= j < i ==> is_scaled_power_in_group(
                    tau,
                    alpha_or_beta,
                    generator,
                    j as nat,
                    #[trigger] powers@[j],
                ),
            <G as MulSpec<F>>::obeys_mul_spec() ==> powers@[0] == generator.mul_spec(alpha_or_beta),
            F::obeys_mul_spec() ==> tau_power == power(tau, i as nat),
            F::obeys_mul_spec() && <G as MulSpec<F>>::obeys_mul_spec() ==> forall|j: int|
                1 <= j < i ==> #[trigger] powers@[j] == generator.mul_spec(
                    power(tau, j as nat),
                ).mul_spec(alpha_or_beta),
        decreases n - i,
    {
        let g1_p_of_tau = generator * tau_power;
        let element = g1_p_of_tau * alpha_or_beta;
        proof {
            assert(is_power_in_group(tau, generator, i as nat, g1_p_of_tau));
        }
        powers.push(element);
        let ghost before = tau_power;
        tau_power = tau_power * tau;
        proof {
            assert(is_product(before, tau, tau_power));
        }
        i = i + 1;
    }
    powers
}

/// `l_i` is what the addition of `G` returns for the sum of the three
/// combinations: of `beta_powers` with `a`, of `alpha_powers` with `b` and
/// of `powers` with `c`.
pub open spec fn is_l_i<F, G: Default + Add<Output = G> + Mul<F, Output = G>>(
    a: Seq<F>,
    b: Seq<F>,
    c: Seq<F>,
    alpha_powers: Seq<G>,
    beta_powers: Seq<G>,
    powers: Seq<G>,
    l_i: G,
) -> bool {
    exists|beta_a: G, alpha_b: G, c_sum: G, partial: G|
        #![trigger is_sum(beta_a, alpha_b, partial), is_sum(partial, c_sum, l_i)]
        {
            &&& is_combination(beta_a, a, beta_powers)
            &&& is_combination(alpha_b, b, alpha_powers)
            &&& is_combination(c_sum, c, powers)
            &&& is_sum(beta_a, alpha_b, partial)
            &&& is_sum(partial, c_sum, l_i)
        }
}

/// Every operation that the computation of the group element of one public
/// input performs is defined: the three combinations are computable from
/// whatever `G` gives as its default value, and their results can be added.
pub open spec fn l_i_computable<F, G: Default + Add<Output = G> + Mul<F, Output = G>>(
    a: Seq<F>,
    b: Seq<F>,
    c: Seq<F>,
    alpha_powers: Seq<G>,
    beta_powers: Seq<G>,
    powers: Seq<G>,
) -> bool {
    ||| add_total::<G>() && scaling_total::<F, G>()
    ||| {
        &&& G::obeys_add_spec()
        &&& <G as MulSpec<F>>::obeys_mul_spec()
        &&& default_combination_computable::<F, G>(a, beta_powers)
        &&& default_combination_computable::<F, G>(b, alpha_powers)
        &&& default_combination_computable::<F, G>(c, powers)
        &&& forall|beta_a: G, alpha_b: G, c_sum: G|
            #[trigger] is_combination(beta_a, a, beta_powers) && #[trigger] is_combination(
                alpha_b,
                b,
                alpha_powers,
            ) && #[trigger] is_combination(c_sum, c, powers) ==> beta_a.add_req(alpha_b)
                && beta_a.add_spec(alpha_b).add_req(c_sum)
    }
}

/// The group element of the `i`-th public input: the value of
/// `beta * a_i + alpha * b_i + c_i` at the setup secret, in the group, from
/// the powers of the secret multiplied by `beta`, by `alpha` and by nothing.
pub fn compute_l_i_of_tau_g1<F, G>(
    a_poly_i: &UnivariantPolynomial<F>,
    b_poly_i: &UnivariantPolynomial<F>,
    c_poly_i: &UnivariantPolynomial<F>,
    alpha_t_g1: Vec<G>,
    beta_t_g1: Vec<G>,
    t_g1: Vec<G>,
) -> (l_i: G)
    where F: Copy, G: Default + Add<Output = G> + Mul<F, Output = G> + Copy
    requires
        a_poly_i@.len() <= beta_t_g1@.len(),
        b_poly_i@.len() <= alpha_t_g1@.len(),
        c_poly_i@.len() <= t_g1@.len(),
        l_i_computable(a_poly_i@, b_poly_i@, c_poly_i@, alpha_t_g1@, beta_t_g1@, t_g1@),
    ensures
        is_l_i(a_poly_i@, b_poly_i@, c_poly_i@, alpha_t_g1@, beta_t_g1@, t_g1@, l_i),
{
    let beta_a_i_of_tau = linear_combination_homomorphic_poly_eval_g1(a_poly_i, beta_t_g1);
    let alpha_b_i_of_tau = linear_combination_homomorphic_poly_eval_g1(b_poly_i, alpha_t_g1);
    let c_i_of_tau = linear_combination_homomorphic_poly_eval_g1(c_poly_i, t_g1);
    let partial = beta_a_i_of_tau + alpha_b_i_of_tau;
    let l_i = partial + c_i_of_tau;
    proof {
        assert(is_sum(beta_a_i_of_tau, alpha_b_i_of_tau, partial));
        assert(is_sum(partial, c_i_of_tau, l_i));
    }
    l_i
}

} // verus!
