//! The product of several multilinear polynomials in the same variables.

use crate::algebra::{is_made_from, is_product, ring_obeys, ring_total};
use crate::polynomial::multilinear::{
    is_multilinear_value, lemma_multilinear_value_unique, multilinear_value, value_defined,
    Multilinear,
};
use core::ops::{Add, Mul, Sub};
use vstd::prelude::*;
use vstd::std_specs::convert::FromSpec;
use vstd::std_specs::ops::{AddSpec, MulSpec, SubSpec};

verus! {

/// A composition of multilinear polynomials whose binding operation is
/// multiplication.
#[derive(Clone, Debug, PartialEq, Eq)]
pub struct ComposedMultilinear<F> {
    pub polys: Vec<Multilinear<F>>,
}

/// The product of the values of `polys` at `point`, multiplied one after the
/// other onto the one of `F`.
pub open spec fn composed_value<F>(polys: Seq<Multilinear<F>>, point: Seq<F>) -> F
    where F: From<u64> + Add<Output = F> + Sub<Output = F> + Mul<Output = F>
    decreases polys.len(),
{
    if polys.len() == 0 {
        F::from_spec(1u64)
    } else {
        composed_value(polys.drop_last(), point).mul_spec(
            multilinear_value(polys.last().evaluations@, point),
        )
    }
}

/// `value` is what the operations of `F` return for the product of the
/// values of `polys` at `point`, multiplied one after the other onto a one
/// of `F`.
pub open spec fn is_composed_value<F>(polys: Seq<Multilinear<F>>, point: Seq<F>, value: F) -> bool
    where F: From<u64> + Add<Output = F> + Sub<Output = F> + Mul<Output = F>
    decreases polys.len(),
{
    if polys.len() == 0 {
        is_made_from(1u64, value)
    } else {
        exists|before: F, factor: F|
            is_composed_value(polys.drop_last(), point, before) && is_multilinear_value(
                polys.last().evaluations@,
                point,
                factor,
            ) && #[trigger] is_product(before, factor, value)
    }
}

/// Where the operations of `F` are as `vstd` specifies them, a product has
/// one value only at a point.
pub proof fn lemma_composed_value_unique<F>(polys: Seq<Multilinear<F>>, point: Seq<F>, value: F)
    where F: From<u64> + Add<Output = F> + Sub<Output = F> + Mul<Output = F>
    requires
        F::obeys_from_spec(),
        ring_obeys::<F>(),
        is_composed_value(polys, point, value),
    ensures
        value == composed_value(polys, point),
    decreases polys.len(),
{
    if polys.len() > 0 {
        let (before, factor) = choose|before: F, factor: F|
            is_composed_value(polys.drop_last(), point, before) && is_multilinear_value(
                polys.last().evaluations@,
                point,
                factor,
            ) && #[trigger] is_product(before, factor, value);
        lemma_composed_value_unique(polys.drop_last(), point, before);
        lemma_multilinear_value_unique(polys.last().evaluations@, point, factor);
    }
}

/// Every polynomial of `polys` can be evaluated at a point of `len`
/// coordinates.
pub open spec fn all_defined_at<F>(polys: Seq<Multilinear<F>>, len: nat) -> bool {
    forall|i: int|
        0 <= i < polys.len() ==> (#[trigger] polys[i]).well_formed() && polys[i].num_vars == len
}

/// Evaluating the polynomials of `polys` at `point` one after the other and
/// multiplying their values up performs defined operations only, as far as
/// the polynomials have a value there.
pub open spec fn composed_defined<F>(polys: Seq<Multilinear<F>>, point: Seq<F>) -> bool
    where F: From<u64> + Add<Output = F> + Sub<Output = F> + Mul<Output = F>
    decreases polys.len(),
{
    polys.len() > 0 ==> {
        &&& composed_defined(polys.drop_last(), point)
        &&& all_defined_at(polys, point.len()) ==> {
            &&& value_defined(polys.last().evaluations@, point)
            &&& composed_value(polys.drop_last(), point).mul_req(
                multilinear_value(polys.last().evaluations@, point),
            )
        }
    }
}

/// Every operation that the evaluation of the product at `point` performs
/// is defined.
pub open spec fn composed_computable<F>(polys: Seq<Multilinear<F>>, point: Seq<F>) -> bool
    where F: From<u64> + Add<Output = F> + Sub<Output = F> + Mul<Output = F>
{
    ||| ring_total::<F>()
    ||| ring_obeys::<F>() && F::obeys_from_spec() && composed_defined(polys, point)
}

/// Where the evaluation of a product performs defined operations only, so
/// does the evaluation of the product of its first `count` polynomials.
proof fn lemma_composed_defined_prefix<F>(polys: Seq<Multilinear<F>>, point: Seq<F>, count: int)
    where F: From<u64> + Add<Output = F> + Sub<Output = F> + Mul<Output = F>
    requires
        0 <= count <= polys.len(),
        composed_defined(polys, point),
    ensures
        composed_defined(polys.take(count), point),
    decreases polys.len(),
{
    if count == polys.len() {
        assert(polys.take(count) =~= polys);
    } else {
        lemma_composed_defined_prefix(polys.drop_last(), point, count);
        assert(polys.drop_last().take(count) =~= polys.take(count));
    }
}

impl<F> ComposedMultilinear<F> {
    /// The product of `polys`, which all have the same number of variables.
    pub fn new(polys: Vec<Multilinear<F>>) -> (composed: Self)
        requires
            polys@.len() > 0,
            forall|i: int|
                0 <= i < polys@.len() ==> (#[trigger] polys@[i]).num_vars == polys@[0].num_vars,
        ensures
            composed.polys == polys,
    {
        ComposedMultilinear { polys }
    }

    /// The number of variables of the polynomials of the product.
    pub fn num_vars(&self) -> (n: usize)
        requires
            self.polys@.len() > 0,
        ensures
            n == self.polys@[0].num_vars,
    {
        self.polys[0].num_vars()
    }

    /// The value of the product at `point`, or `None` if one of the
    /// polynomials has no value there.
    pub fn evaluate(&self, point: &Vec<F>) -> (res: Option<F>)
        where F: From<u64> + Add<Output = F> + Sub<Output = F> + Mul<Output = F> + Copy
        requires
            composed_computable(self.polys@, point@),
        ensures
            res is Some <==> all_defined_at(self.polys@, point@.len()),
            res matches Some(value) ==> is_composed_value(self.polys@, point@, value),
            res matches Some(value) ==> (F::obeys_from_spec() && ring_obeys::<F>() ==> value
                == composed_value(self.polys@, point@)),
    {
        let mut result = F::from(1u64);
        let count = self.polys.len();
        let mut i: usize = 0;
        while i < count
            invariant
                count == self.polys@.len(),
                i <= count,
                composed_computable(self.polys@, point@),
                all_defined_at(self.polys@.take(i as int), point@.len()),
                is_composed_value(self.polys@.take(i as int), point@, result),
                F::obeys_from_spec() && ring_obeys::<F>() ==> result == composed_value(
                    self.polys@.take(i as int),
                    point@,
                ),
            decreases count - i,
        {
            let ghost seen = self.polys@.take(i as int);
            let ghost seen_next = self.polys@.take(i as int + 1);
            let poly = &self.polys[i];
            proof {
                assert(seen_next.drop_last() =~= seen);
                if !ring_total::<F>() {
                    lemma_composed_defined_prefix(self.polys@, point@, i as int + 1);
                }
            }
            match poly.evaluate(point) {
                Some(val) => {
                    let ghost before = result;
                    result = result * val;
                    proof {
                        assert(is_product(before, val, result));
                    }
                },
                None => {
                    return None;
                },
            }
            i = i + 1;
        }
        proof {
            assert(self.polys@.take(count as int) =~= self.polys@);
        }
        Some(result)
    }
}

} // verus!
