//! Univariate polynomials given by their coefficients.

use crate::algebra::{add_total, is_made_from, is_product, is_sum, mul_total};
use core::ops::{Add, Mul};
use vstd::prelude::*;
use vstd::std_specs::convert::FromSpec;
use vstd::std_specs::ops::{AddSpec, AddSpecImpl, MulSpec, MulSpecImpl};

verus! {

/// A polynomial in one variable: `coefficients[i]` is the coefficient of the
/// `i`-th power of the variable.
#[derive(Clone, Debug, Default, PartialEq, Eq)]
pub struct UnivariantPolynomial<F> {
    pub coefficients: Vec<F>,
}

impl<F> View for UnivariantPolynomial<F> {
    type V = Seq<F>;

    open spec fn view(&self) -> Seq<F> {
        self.coefficients@
    }
}

/// The value at `x` of the polynomial with the coefficients `coefficients`,
/// by Horner's rule from the highest coefficient down; the polynomial
/// without coefficients has the value that `F` makes of 0.
pub open spec fn univariate_value<F: From<u64> + Add<Output = F> + Mul<Output = F>>(
    coefficients: Seq<F>,
    x: F,
) -> F
    decreases coefficients.len(),
{
    if coefficients.len() == 0 {
        F::from_spec(0u64)
    } else if coefficients.len() == 1 {
        coefficients[0]
    } else {
        univariate_value(coefficients.drop_first(), x).mul_spec(x).add_spec(coefficients[0])
    }
}

/// The coefficients of `factor` times the polynomial.
pub open spec fn scaled<F: Mul<Output = F>>(coefficients: Seq<F>, factor: F) -> Seq<F> {
    Seq::new(coefficients.len(), |i: int| coefficients[i].mul_spec(factor))
}

/// The coefficients of the sum of two polynomials: where only one of the two
/// has a coefficient, that coefficient is kept.
pub open spec fn poly_sum<F: Add<Output = F>>(a: Seq<F>, b: Seq<F>) -> Seq<F> {
    Seq::new(
        if a.len() >= b.len() {
            a.len()
        } else {
            b.len()
        },
        |i: int|
            if i < a.len() && i < b.len() {
                a[i].add_spec(b[i])
            } else if i < a.len() {
                a[i]
            } else {
                b[i]
            },
    )
}

/// The sum of the products `a[i] * b[k - i]` for `i` from `first` to `last`,
/// added in that order.
pub open spec fn product_terms<F: Add<Output = F> + Mul<Output = F>>(
    a: Seq<F>,
    b: Seq<F>,
    k: int,
    first: int,
    last: int,
) -> F
    decreases last - first,
{
    if last <= first {
        a[first].mul_spec(b[k - first])
    } else {
        product_terms(a, b, k, first, last - 1).add_spec(a[last].mul_spec(b[k - last]))
    }
}

/// The first `i` for which both `a[i]` and `b[k - i]` exist.
pub open spec fn first_term(b_len: int, k: int) -> int {
    if k < b_len {
        0
    } else {
        k - b_len + 1
    }
}

/// The last `i` for which both `a[i]` and `b[k - i]` exist.
pub open spec fn last_term(a_len: int, k: int) -> int {
    if k < a_len {
        k
    } else {
        a_len - 1
    }
}

/// The coefficients of the product of two polynomials; the product with a
/// polynomial without coefficients has none.
pub open spec fn poly_product<F: Add<Output = F> + Mul<Output = F>>(a: Seq<F>, b: Seq<F>) -> Seq<F> {
    if a.len() == 0 || b.len() == 0 {
        Seq::empty()
    } else {
        Seq::new(
            (a.len() + b.len() - 1) as nat,
            |k: int|
                product_terms(a, b, k, first_term(b.len() as int, k), last_term(a.len() as int, k)),
        )
    }
}

/// `value` is what the operations of `F` return for the value at `x` of the
/// polynomial with the coefficients `coefficients`, by Horner's rule.
pub open spec fn is_univariate_value<F: From<u64> + Add<Output = F> + Mul<Output = F>>(
    coefficients: Seq<F>,
    x: F,
    value: F,
) -> bool
    decreases coefficients.len(),
{
    if coefficients.len() == 0 {
        is_made_from(0u64, value)
    } else if coefficients.len() == 1 {
        value == coefficients[0]
    } else {
        exists|higher: F, raised: F|
            is_univariate_value(coefficients.drop_first(), x, higher) && #[trigger] is_product(
                higher,
                x,
                raised,
            ) && is_sum(raised, coefficients[0], value)
    }
}

/// `result` holds what the multiplication of `F` returns for each
/// coefficient and `factor`.
pub open spec fn is_scaling<F: Mul<Output = F>>(
    coefficients: Seq<F>,
    factor: F,
    result: Seq<F>,
) -> bool {
    &&& result.len() == coefficients.len()
    &&& forall|i: int|
        0 <= i < result.len() ==> is_product(coefficients[i], factor, #[trigger] result[i])
}

/// `result` holds what the addition of `F` returns for the coefficients of
/// each power that both polynomials have, and the coefficient that only one
/// of them has.
pub open spec fn is_poly_sum<F: Add<Output = F>>(a: Seq<F>, b: Seq<F>, result: Seq<F>) -> bool {
    &&& result.len() == poly_sum(a, b).len()
    &&& forall|i: int|
        0 <= i < result.len() ==> if i < a.len() && i < b.len() {
            is_sum(a[i], b[i], #[trigger] result[i])
        } else if i < a.len() {
            result[i] == a[i]
        } else {
            result[i] == b[i]
        }
}

/// `value` is what the operations of `F` return for the sum of the products
/// `a[i] * b[k - i]` for `i` from `first` to `last`, added in that order.
pub open spec fn is_product_terms<F: Add<Output = F> + Mul<Output = F>>(
    a: Seq<F>,
    b: Seq<F>,
    k: int,
    first: int,
    last: int,
    value: F,
) -> bool
    decreases last - first,
{
    if last <= first {
        is_product(a[first], b[k - first], value)
    } else {
        exists|before: F, term: F|
            is_product_terms(a, b, k, first, last - 1, before) && is_product(
                a[last],
                b[k - last],
                term,
            ) && #[trigger] is_sum(before, term, value)
    }
}

/// Entry `k` of `result` is what the operations of `F` return for
/// coefficient `k` of the product.
pub open spec fn is_product_coefficient<F: Add<Output = F> + Mul<Output = F>>(
    a: Seq<F>,
    b: Seq<F>,
    result: Seq<F>,
    k: int,
) -> bool {
    is_product_terms(
        a,
        b,
        k,
        first_term(b.len() as int, k),
        last_term(a.len() as int, k),
        result[k],
    )
}

/// `result` holds what the operations of `F` return for the coefficients of
/// the product of the two polynomials.
pub open spec fn is_poly_product<F: Add<Output = F> + Mul<Output = F>>(
    a: Seq<F>,
    b: Seq<F>,
    result: Seq<F>,
) -> bool {
    &&& result.len() == poly_product(a, b).len()
    &&& forall|k: int| 0 <= k < result.len() ==> #[trigger] is_product_coefficient(a, b, result, k)
}

/// Where the operations of `F` are as `vstd` specifies them, a sum of
/// products has one value only.
pub proof fn lemma_product_terms_unique<F: Add<Output = F> + Mul<Output = F>>(
    a: Seq<F>,
    b: Seq<F>,
    k: int,
    first: int,
    last: int,
    value: F,
)
    requires
        F::obeys_add_spec(),
        F::obeys_mul_spec(),
        is_product_terms(a, b, k, first, last, value),
    ensures
        value == product_terms(a, b, k, first, last),
    decreases last - first,
{
    if last > first {
        let (before, term) = choose|before: F, term: F|
            is_product_terms(a, b, k, first, last - 1, before) && is_product(
                a[last],
                b[k - last],
                term,
            ) && #[trigger] is_sum(before, term, value);
        lemma_product_terms_unique(a, b, k, first, last - 1, before);
    }
}

/// Where the operations of `F` are as `vstd` specifies them, two
/// polynomials have one product only.
pub proof fn lemma_poly_product_unique<F: Add<Output = F> + Mul<Output = F>>(
    a: Seq<F>,
    b: Seq<F>,
    result: Seq<F>,
)
    requires
        F::obeys_add_spec(),
        F::obeys_mul_spec(),
        is_poly_product(a, b, result),
    ensures
        result == poly_product(a, b),
{
    assert forall|k: int| 0 <= k < result.len() implies result[k] == poly_product(a, b)[k] by {
        assert(is_product_coefficient(a, b, result, k));
        lemma_product_terms_unique(
            a,
            b,
            k,
            first_term(b.len() as int, k),
            last_term(a.len() as int, k),
            result[k],
        );
    }
}

/// Where the operations of `F` are as `vstd` specifies them, a polynomial
/// has one value only at a point.
pub proof fn lemma_univariate_value_unique<F: From<u64> + Add<Output = F> + Mul<Output = F>>(
    coefficients: Seq<F>,
    x: F,
    value: F,
)
    requires
        F::obeys_from_spec(),
        F::obeys_add_spec(),
        F::obeys_mul_spec(),
        is_univariate_value(coefficients, x, value),
    ensures
        value == univariate_value(coefficients, x),
    decreases coefficients.len(),
{
    if coefficients.len() > 1 {
        let (higher, raised) = choose|higher: F, raised: F|
            is_univariate_value(coefficients.drop_first(), x, higher) && #[trigger] is_product(
                higher,
                x,
                raised,
            ) && is_sum(raised, coefficients[0], value);
        lemma_univariate_value_unique(coefficients.drop_first(), x, higher);
    }
}

/// Evaluating the polynomial at `x` by Horner's rule performs defined
/// operations only.
pub open spec fn horner_defined<F: From<u64> + Add<Output = F> + Mul<Output = F>>(
    coefficients: Seq<F>,
    x: F,
) -> bool
    decreases coefficients.len(),
{
    coefficients.len() > 1 ==> {
        let higher = univariate_value(coefficients.drop_first(), x);
        &&& horner_defined(coefficients.drop_first(), x)
        &&& higher.mul_req(x)
        &&& higher.mul_spec(x).add_req(coefficients[0])
    }
}

/// Every operation that the evaluation of the polynomial at `x` performs is
/// defined.
pub open spec fn horner_computable<F: From<u64> + Add<Output = F> + Mul<Output = F>>(
    coefficients: Seq<F>,
    x: F,
) -> bool {
    ||| add_total::<F>() && mul_total::<F>()
    ||| F::obeys_add_spec() && F::obeys_mul_spec() && horner_defined(coefficients, x)
}

/// Every multiplication of a coefficient by `factor` is defined.
pub open spec fn scaling_computable<F: Mul<Output = F>>(coefficients: Seq<F>, factor: F) -> bool {
    ||| mul_total::<F>()
    ||| F::obeys_mul_spec() && forall|i: int|
        0 <= i < coefficients.len() ==> (#[trigger] coefficients[i]).mul_req(factor)
}

/// Every addition of two coefficients of the same power is defined.
pub open spec fn sum_computable<F: Add<Output = F>>(a: Seq<F>, b: Seq<F>) -> bool {
    ||| add_total::<F>()
    ||| F::obeys_add_spec() && forall|i: int|
        0 <= i < a.len() && i < b.len() ==> (#[trigger] a[i]).add_req(b[i])
}

/// Adding up the products `a[i] * b[k - i]` for `i` from `first` to `last`
/// performs defined operations only.
pub open spec fn terms_defined<F: Add<Output = F> + Mul<Output = F>>(
    a: Seq<F>,
    b: Seq<F>,
    k: int,
    first: int,
    last: int,
) -> bool
    decreases last - first,
{
    if last <= first {
        a[first].mul_req(b[k - first])
    } else {
        &&& terms_defined(a, b, k, first, last - 1)
        &&& a[last].mul_req(b[k - last])
        &&& product_terms(a, b, k, first, last - 1).add_req(a[last].mul_spec(b[k - last]))
    }
}

/// Computing coefficient `k` of the product performs defined operations
/// only.
pub open spec fn coefficient_defined<F: Add<Output = F> + Mul<Output = F>>(
    a: Seq<F>,
    b: Seq<F>,
    k: int,
) -> bool {
    terms_defined(a, b, k, first_term(b.len() as int, k), last_term(a.len() as int, k))
}

/// Computing the coefficients of the product performs defined operations
/// only.
pub open spec fn product_defined<F: Add<Output = F> + Mul<Output = F>>(a: Seq<F>, b: Seq<F>) -> bool {
    a.len() > 0 && b.len() > 0 ==> forall|k: int|
        0 <= k < a.len() + b.len() - 1 ==> #[trigger] coefficient_defined(a, b, k)
}

/// Every operation that the multiplication of the two polynomials performs
/// is defined.
pub open spec fn product_computable<F: Add<Output = F> + Mul<Output = F>>(
    a: Seq<F>,
    b: Seq<F>,
) -> bool {
    ||| add_total::<F>() && mul_total::<F>()
    ||| F::obeys_add_spec() && F::obeys_mul_spec() && product_defined(a, b)
}

impl<F> UnivariantPolynomial<F> {
    /// The polynomial with the given coefficients, lowest power first.
    pub fn from_coefficients_vec(coefficients: Vec<F>) -> (poly: Self)
        ensures
            poly.coefficients == coefficients,
    {
        UnivariantPolynomial { coefficients }
    }

    /// The value of the polynomial at `x`.
    pub fn evaluate(&self, x: &F) -> (value: F)
        where F: From<u64> + Add<Output = F> + Mul<Output = F> + Copy
        requires
            horner_computable(self@, *x),
        ensures
            is_univariate_value(self@, *x, value),
            F::obeys_from_spec() && F::obeys_add_spec() && F::obeys_mul_spec() ==> value
                == univariate_value(self@, *x),
    {
        let n = self.coefficients.len();
        if n == 0 {
            return F::from(0u64);
        }
        let mut i: usize = n - 1;
        let mut value = self.coefficients[i];
        proof {
            assert(self@.subrange(0, n as int) =~= self@);
        }
        while i > 0
            invariant
                i < n,
                n == self@.len(),
                horner_computable(self@, *x),
                is_univariate_value(self@.subrange(i as int, n as int), *x, value),
                F::obeys_add_spec() && F::obeys_mul_spec() ==> value == univariate_value(
                    self@.subrange(i as int, n as int),
                    *x,
                ),
            decreases i,
        {
            proof {
                let higher = self@.subrange(i as int, n as int);
                let here = self@.subrange(i as int - 1, n as int);
                assert(here.drop_first() =~= higher);
                if !(add_total::<F>() && mul_total::<F>()) {
                    lemma_horner_defined_suffix(self@, *x, i as int - 1);
                }
            }
            i = i - 1;
            let ghost higher = value;
            let raised = value * *x;
            value = raised + self.coefficients[i];
            proof {
                assert(is_product(higher, *x, raised));
            }
        }
        value
    }
}

/// Where the evaluation of a polynomial performs defined operations only, so
/// does the evaluation of its coefficients from `first` on.
proof fn lemma_horner_defined_suffix<F: From<u64> + Add<Output = F> + Mul<Output = F>>(
    coefficients: Seq<F>,
    x: F,
    first: int,
)
    requires
        0 <= first < coefficients.len(),
        horner_defined(coefficients, x),
    ensures
        horner_defined(coefficients.subrange(first, coefficients.len() as int), x),
    decreases first,
{
    if first == 0 {
        assert(coefficients.subrange(0, coefficients.len() as int) =~= coefficients);
    } else {
        let rest = coefficients.drop_first();
        lemma_horner_defined_suffix(rest, x, first - 1);
        assert(rest.subrange(first - 1, rest.len() as int) =~= coefficients.subrange(
            first,
            coefficients.len() as int,
        ));
    }
}

impl<F: Mul<Output = F> + Copy> MulSpecImpl<F> for UnivariantPolynomial<F> {
    open spec fn obeys_mul_spec() -> bool {
        false
    }

    open spec fn mul_req(self, rhs: F) -> bool {
        scaling_computable(self@, rhs)
    }

    open spec fn mul_spec(self, rhs: F) -> Self {
        self
    }
}

impl<F: Mul<Output = F> + Copy> Mul<F> for UnivariantPolynomial<F> {
    type Output = Self;

    /// The polynomial times the constant `rhs`.
    fn mul(self, rhs: F) -> (product: Self)
        ensures
            is_scaling(self@, rhs, product@),
            F::obeys_mul_spec() ==> product@ == scaled(self@, rhs),
    {
        let n = self.coefficients.len();
        let mut coefficients: Vec<F> = Vec::with_capacity(n);
        let mut i: usize = 0;
        while i < n
            invariant
                n == self@.len(),
                i <= n,
                coefficients@.len() == i,
                scaling_computable(self@, rhs),
                forall|j: int| 0 <= j < i ==> is_product(self@[j], rhs, #[trigger] coefficients@[j]),
            decreases n - i,
        {
            coefficients.push(self.coefficients[i] * rhs);
            i = i + 1;
        }
        UnivariantPolynomial { coefficients }
    }
}

impl<F: Add<Output = F> + Copy> AddSpecImpl for UnivariantPolynomial<F> {
    open spec fn obeys_add_spec() -> bool {
        false
    }

    open spec fn add_req(self, rhs: Self) -> bool {
        sum_computable(self@, rhs@)
    }

    open spec fn add_spec(self, rhs: Self) -> Self {
        self
    }
}

impl<F: Add<Output = F> + Copy> Add for UnivariantPolynomial<F> {
    type Output = Self;

    /// The sum of the two polynomials.
    fn add(self, rhs: Self) -> (sum: Self)
        ensures
            is_poly_sum(self@, rhs@, sum@),
            F::obeys_add_spec() ==> sum@ == poly_sum(self@, rhs@),
    {
        let a_len = self.coefficients.len();
        let b_len = rhs.coefficients.len();
        let n = if a_len >= b_len {
            a_len
        } else {
            b_len
        };
        let mut coefficients: Vec<F> = Vec::with_capacity(n);
        let mut i: usize = 0;
        while i < n
            invariant
                a_len == self@.len(),
                b_len == rhs@.len(),
                n == poly_sum(self@, rhs@).len(),
                i <= n,
                coefficients@.len() == i,
                sum_computable(self@, rhs@),
                forall|j: int|
                    0 <= j < i ==> if j < a_len && j < b_len {
                        is_sum(self@[j], rhs@[j], #[trigger] coefficients@[j])
                    } else if j < a_len {
                        coefficients@[j] == self@[j]
                    } else {
                        coefficients@[j] == rhs@[j]
                    },
            decreases n - i,
        {
            let coefficient = if i < a_len && i < b_len {
                self.coefficients[i] + rhs.coefficients[i]
            } else if i < a_len {
                self.coefficients[i]
            } else {
                rhs.coefficients[i]
            };
            coefficients.push(coefficient);
            i = i + 1;
        }
        UnivariantPolynomial { coefficients }
    }
}

impl<F: Add<Output = F> + Mul<Output = F> + Copy> MulSpecImpl for UnivariantPolynomial<F> {
    open spec fn obeys_mul_spec() -> bool {
        false
    }

    open spec fn mul_req(self, rhs: Self) -> bool {
        &&& product_computable(self@, rhs@)
        &&& self@.len() + rhs@.len() - 1 <= usize::MAX
    }

    open spec fn mul_spec(self, rhs: Self) -> Self {
        self
    }
}

impl<F: Add<Output = F> + Mul<Output = F> + Copy> Mul for UnivariantPolynomial<F> {
    type Output = Self;

    /// The product of the two polynomials.
    fn mul(self, rhs: Self) -> (product: Self)
        ensures
            is_poly_product(self@, rhs@, product@),
            F::obeys_add_spec() && F::obeys_mul_spec() ==> product@ == poly_product(self@, rhs@),
    {
        let a_len = self.coefficients.len();
        let b_len = rhs.coefficients.len();
        if a_len == 0 || b_len == 0 {
            return UnivariantPolynomial { coefficients: Vec::new() };
        }
        let n = a_len - 1 + b_len;
        let mut coefficients: Vec<F> = Vec::with_capacity(n);
        let mut k: usize = 0;
        while k < n
            invariant
                a_len == self@.len(),
                b_len == rhs@.len(),
                a_len > 0,
                b_len > 0,
                n == a_len + b_len - 1,
                k <= n,
                coefficients@.len() == k,
                product_computable(self@, rhs@),
                forall|j: int|
                    0 <= j < k ==> #[trigger] is_product_coefficient(self@, rhs@, coefficients@, j),
            decreases n - k,
        {
            let first = if k < b_len {
                0
            } else {
                k - b_len + 1
            };
            let last = if k < a_len {
                k
            } else {
                a_len - 1
            };
            let mut i: usize = first;
            proof {
                if !(add_total::<F>() && mul_total::<F>()) {
                    assert(coefficient_defined(self@, rhs@, k as int));
                    lemma_terms_defined_prefix(
                        self@,
                        rhs@,
                        k as int,
                        first as int,
                        last as int,
                        first as int,
                    );
                }
            }
            let mut coefficient = self.coefficients[i] * rhs.coefficients[k - i];
            while i < last
                invariant
                    a_len == self@.len(),
                    b_len == rhs@.len(),
                    first <= i <= last,
                    last < a_len,
                    last <= k,
                    k - first < b_len,
                    add_total::<F>() && mul_total::<F>() || (F::obeys_add_spec()
                        && F::obeys_mul_spec() && terms_defined(
                        self@,
                        rhs@,
                        k as int,
                        first as int,
                        last as int,
                    )),
                    is_product_terms(self@, rhs@, k as int, first as int, i as int, coefficient),
                    F::obeys_add_spec() && F::obeys_mul_spec() ==> coefficient == product_terms(
                        self@,
                        rhs@,
                        k as int,
                        first as int,
                        i as int,
                    ),
                decreases last - i,
            {
                i = i + 1;
                proof {
                    if !(add_total::<F>() && mul_total::<F>()) {
                        lemma_terms_defined_prefix(
                            self@,
                            rhs@,
                            k as int,
                            first as int,
                            last as int,
                            i as int,
                        );
                    }
                }
                let ghost before = coefficient;
                let term = self.coefficients[i] * rhs.coefficients[k - i];
                coefficient = coefficient + term;
                proof {
                    assert(is_sum(before, term, coefficient));
                }
            }
            let ghost shorter = coefficients@;
            coefficients.push(coefficient);
            proof {
                assert forall|j: int| 0 <= j < k + 1 implies #[trigger] is_product_coefficient(
                    self@,
                    rhs@,
                    coefficients@,
                    j,
                ) by {
                    if j < k {
                        assert(is_product_coefficient(self@, rhs@, shorter, j));
                    }
                }
            }
            k = k + 1;
        }
        proof {
            if F::obeys_add_spec() && F::obeys_mul_spec() {
                lemma_poly_product_unique(self@, rhs@, coefficients@);
            }
        }
        UnivariantPolynomial { coefficients }
    }
}

/// Where adding up the terms from `first` to `last` performs defined
/// operations only, so does adding up the terms from `first` to `upto`.
proof fn lemma_terms_defined_prefix<F: Add<Output = F> + Mul<Output = F>>(
    a: Seq<F>,
    b: Seq<F>,
    k: int,
    first: int,
    last: int,
    upto: int,
)
    requires
        first <= upto <= last,
        terms_defined(a, b, k, first, last),
    ensures
        terms_defined(a, b, k, first, upto),
    decreases last - upto,
{
    if upto < last {
        lemma_terms_defined_prefix(a, b, k, first, last, upto + 1);
    }
}

} // verus!
